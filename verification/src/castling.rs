//! Castling rights: a four-bit set with per-color, per-side mutations.
//! Moving the king clears both bits of its color; a rook leaving or being
//! captured on its original square clears the corresponding single bit.

use vstd::prelude::*;
use crate::color::Color;

verus! {

pub const WHITE_KING_SIDE_MASK: u8 = 0x01;

pub const WHITE_QUEEN_SIDE_MASK: u8 = 0x02;

pub const BLACK_KING_SIDE_MASK: u8 = 0x04;

pub const BLACK_QUEEN_SIDE_MASK: u8 = 0x08;

pub const ALL_CASTLING: u8 = 0x0f;

#[derive(PartialEq, Eq, Structural, Clone, Copy, Debug)]
pub struct CastlingRight {
    pub value: u8,
}

impl CastlingRight {
    pub open spec fn spec_valid(self) -> bool {
        self.value < 16
    }

    pub open spec fn spec_white_king_side(self) -> bool {
        self.value & WHITE_KING_SIDE_MASK != 0
    }

    pub open spec fn spec_white_queen_side(self) -> bool {
        self.value & WHITE_QUEEN_SIDE_MASK != 0
    }

    pub open spec fn spec_black_king_side(self) -> bool {
        self.value & BLACK_KING_SIDE_MASK != 0
    }

    pub open spec fn spec_black_queen_side(self) -> bool {
        self.value & BLACK_QUEEN_SIDE_MASK != 0
    }

    pub open spec fn spec_king_side(self, color: Color) -> bool {
        match color {
            Color::White => self.spec_white_king_side(),
            Color::Black => self.spec_black_king_side(),
        }
    }

    pub open spec fn spec_queen_side(self, color: Color) -> bool {
        match color {
            Color::White => self.spec_white_queen_side(),
            Color::Black => self.spec_black_queen_side(),
        }
    }

    /// All four rights, as at the start of a game.
    pub fn default() -> (r: CastlingRight)
        ensures
            r.value == ALL_CASTLING,
            r.spec_valid(),
    {
        CastlingRight { value: ALL_CASTLING }
    }

    pub fn from_raw(value: u8) -> (r: CastlingRight)
        ensures
            r.value == value,
    {
        CastlingRight { value }
    }

    pub fn is_white_king_side_allowed(&self) -> (r: bool)
        ensures
            r == self.spec_white_king_side(),
    {
        self.value & WHITE_KING_SIDE_MASK != 0
    }

    pub fn is_white_queen_side_allowed(&self) -> (r: bool)
        ensures
            r == self.spec_white_queen_side(),
    {
        self.value & WHITE_QUEEN_SIDE_MASK != 0
    }

    pub fn is_black_king_side_allowed(&self) -> (r: bool)
        ensures
            r == self.spec_black_king_side(),
    {
        self.value & BLACK_KING_SIDE_MASK != 0
    }

    pub fn is_black_queen_side_allowed(&self) -> (r: bool)
        ensures
            r == self.spec_black_queen_side(),
    {
        self.value & BLACK_QUEEN_SIDE_MASK != 0
    }

    pub fn is_king_side_allowed(&self, color: Color) -> (r: bool)
        ensures
            r == self.spec_king_side(color),
    {
        match color {
            Color::White => self.is_white_king_side_allowed(),
            Color::Black => self.is_black_king_side_allowed(),
        }
    }

    pub fn is_queen_side_allowed(&self, color: Color) -> (r: bool)
        ensures
            r == self.spec_queen_side(color),
    {
        match color {
            Color::White => self.is_white_queen_side_allowed(),
            Color::Black => self.is_black_queen_side_allowed(),
        }
    }

    /// The value with the king-side bit of `color` cleared.
    pub open spec fn spec_remove_king_side(self, color: Color) -> CastlingRight {
        match color {
            Color::White => CastlingRight { value: self.value & !WHITE_KING_SIDE_MASK },
            Color::Black => CastlingRight { value: self.value & !BLACK_KING_SIDE_MASK },
        }
    }

    pub fn remove_king_side_castle(&self, color: Color) -> (r: CastlingRight)
        ensures
            r == self.spec_remove_king_side(color),
            !r.spec_king_side(color),
            r.spec_queen_side(color) == self.spec_queen_side(color),
            r.spec_king_side(color.spec_inverse()) == self.spec_king_side(color.spec_inverse()),
            r.spec_queen_side(color.spec_inverse()) == self.spec_queen_side(color.spec_inverse()),
            self.spec_valid() ==> r.spec_valid(),
    {
        let v = self.value;
        proof {
            assert((v & !0x01u8) & 0x01 == 0 && (v & !0x01u8) & 0x02 == v & 0x02 && (v & !0x01u8)
                & 0x04 == v & 0x04 && (v & !0x01u8) & 0x08 == v & 0x08 && (v & !0x04u8) & 0x04 == 0
                && (v & !0x04u8) & 0x01 == v & 0x01 && (v & !0x04u8) & 0x02 == v & 0x02 && (v
                & !0x04u8) & 0x08 == v & 0x08 && (v < 16 ==> v & !0x01u8 < 16 && v & !0x04u8 < 16))
                by (bit_vector);
        }
        match color {
            Color::White => CastlingRight { value: v & !WHITE_KING_SIDE_MASK },
            Color::Black => CastlingRight { value: v & !BLACK_KING_SIDE_MASK },
        }
    }

    /// The value with the queen-side bit of `color` cleared.
    pub open spec fn spec_remove_queen_side(self, color: Color) -> CastlingRight {
        match color {
            Color::White => CastlingRight { value: self.value & !WHITE_QUEEN_SIDE_MASK },
            Color::Black => CastlingRight { value: self.value & !BLACK_QUEEN_SIDE_MASK },
        }
    }

    pub fn remove_queen_side_castle(&self, color: Color) -> (r: CastlingRight)
        ensures
            r == self.spec_remove_queen_side(color),
            !r.spec_queen_side(color),
            r.spec_king_side(color) == self.spec_king_side(color),
            r.spec_king_side(color.spec_inverse()) == self.spec_king_side(color.spec_inverse()),
            r.spec_queen_side(color.spec_inverse()) == self.spec_queen_side(color.spec_inverse()),
            self.spec_valid() ==> r.spec_valid(),
    {
        let v = self.value;
        proof {
            assert((v & !0x02u8) & 0x02 == 0 && (v & !0x02u8) & 0x01 == v & 0x01 && (v & !0x02u8)
                & 0x04 == v & 0x04 && (v & !0x02u8) & 0x08 == v & 0x08 && (v & !0x08u8) & 0x08 == 0
                && (v & !0x08u8) & 0x01 == v & 0x01 && (v & !0x08u8) & 0x02 == v & 0x02 && (v
                & !0x08u8) & 0x04 == v & 0x04 && (v < 16 ==> v & !0x02u8 < 16 && v & !0x08u8 < 16))
                by (bit_vector);
        }
        match color {
            Color::White => CastlingRight { value: v & !WHITE_QUEEN_SIDE_MASK },
            Color::Black => CastlingRight { value: v & !BLACK_QUEEN_SIDE_MASK },
        }
    }

    /// The value with both bits of `color` cleared.
    pub open spec fn spec_remove_both_sides(self, color: Color) -> CastlingRight {
        self.spec_remove_king_side(color).spec_remove_queen_side(color)
    }

    pub fn remove_both_side_castle(&self, color: Color) -> (r: CastlingRight)
        ensures
            r == self.spec_remove_both_sides(color),
            !r.spec_king_side(color),
            !r.spec_queen_side(color),
            r.spec_king_side(color.spec_inverse()) == self.spec_king_side(color.spec_inverse()),
            r.spec_queen_side(color.spec_inverse()) == self.spec_queen_side(color.spec_inverse()),
            self.spec_valid() ==> r.spec_valid(),
    {
        self.remove_king_side_castle(color).remove_queen_side_castle(color)
    }
}

} // verus!
