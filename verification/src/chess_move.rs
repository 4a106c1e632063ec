//! A move packed into one machine word:
//! bits 0-2 kind, 3-8 from-square, 9-14 to-square, 15-17 moving piece,
//! bit 18 moving color, bits 19-21 target piece (the captured piece of a
//! capture, or the piece a promoted pawn becomes).

use vstd::prelude::*;
use crate::bitboard::BitBoard;
use crate::color::Color;
use crate::move_type::MoveType;
use crate::piece::Piece;
use crate::square::Square;

verus! {

pub const FROM_OFFSET: u64 = 3;

pub const TO_OFFSET: u64 = 9;

pub const PIECE_OFFSET: u64 = 15;

pub const COLOR_OFFSET: u64 = 18;

pub const TARGET_PIECE_OFFSET: u64 = 19;

#[derive(PartialEq, Eq, Structural, Clone, Copy, Debug)]
pub struct Move {
    pub bit_board: BitBoard,
}

/// The packed word of a move with the given fields.
pub open spec fn spec_packed_move(
    mt: MoveType,
    from: u64,
    t: u64,
    p: Piece,
    c: Color,
    tp: Piece,
) -> Move {
    Move {
        bit_board: BitBoard {
            value: mt.spec_to_u64() | (from << FROM_OFFSET) | (t << TO_OFFSET) | (p.spec_to_u64()
                << PIECE_OFFSET) | (c.spec_to_u64() << COLOR_OFFSET) | (tp.spec_to_u64()
                << TARGET_PIECE_OFFSET),
        },
    }
}

/// A packed move decodes back to the packed fields and is canonical.
pub proof fn lemma_packed_fields(mt: MoveType, from: u64, t: u64, p: Piece, c: Color, tp: Piece)
    requires
        from < 64,
        t < 64,
    ensures
        spec_packed_move(mt, from, t, p, c, tp).spec_type() == mt,
        spec_packed_move(mt, from, t, p, c, tp).spec_from() == from,
        spec_packed_move(mt, from, t, p, c, tp).spec_to() == t,
        spec_packed_move(mt, from, t, p, c, tp).spec_piece() == p,
        spec_packed_move(mt, from, t, p, c, tp).spec_color() == c,
        spec_packed_move(mt, from, t, p, c, tp).spec_target_piece() == tp,
        spec_packed_move(mt, from, t, p, c, tp).is_canonical(),
{
    lemma_unpack(mt.spec_to_u64(), from, t, p.spec_to_u64(), c.spec_to_u64(), tp.spec_to_u64());
}

impl Move {
    /// A canonically packed move word: nothing above the used bits, and none
    /// of the three-bit fields holding the unused eighth value.
    pub open spec fn is_canonical(self) -> bool {
        let v = self.bit_board.value;
        &&& v >> 22 == 0
        &&& v & 0x7 != 7
        &&& (v >> PIECE_OFFSET) & 0x7 != 7
        &&& (v >> TARGET_PIECE_OFFSET) & 0x7 != 7
    }

    pub open spec fn spec_type(self) -> MoveType {
        MoveType::spec_from_u64(self.bit_board.value & 0x7)
    }

    pub open spec fn spec_from(self) -> u64 {
        (self.bit_board.value >> FROM_OFFSET) & 0x3f
    }

    pub open spec fn spec_to(self) -> u64 {
        (self.bit_board.value >> TO_OFFSET) & 0x3f
    }

    pub open spec fn spec_piece(self) -> Piece {
        Piece::spec_from_u64((self.bit_board.value >> PIECE_OFFSET) & 0x7)
    }

    pub open spec fn spec_color(self) -> Color {
        Color::spec_from_u64((self.bit_board.value >> COLOR_OFFSET) & 0x1)
    }

    pub open spec fn spec_target_piece(self) -> Piece {
        Piece::spec_from_u64((self.bit_board.value >> TARGET_PIECE_OFFSET) & 0x7)
    }

    pub fn new(move_type: MoveType, from: u64, to: u64, piece: Piece, color: Color, target_piece: Piece) -> (r: Self)
        requires
            from < 64,
            to < 64,
            piece != Piece::Empty,
            move_type == MoveType::PawnJump ==> piece == Piece::Pawn,
            move_type == MoveType::Castling ==> piece == Piece::King,
            move_type == MoveType::EnPassant ==> piece == Piece::Pawn,
            move_type == MoveType::Promotion ==> piece == Piece::Pawn && target_piece
                != Piece::Empty,
        ensures
            r.spec_type() == move_type,
            r.spec_from() == from,
            r.spec_to() == to,
            r.spec_piece() == piece,
            r.spec_color() == color,
            r.spec_target_piece() == target_piece,
            r.is_canonical(),
            r == spec_packed_move(move_type, from, to, piece, color, target_piece),
    {
        let t = move_type.to_u64();
        let p = piece.to_u64();
        let c = color.to_u64();
        let tp = target_piece.to_u64();
        let v = t | (from << FROM_OFFSET) | (to << TO_OFFSET) | (p << PIECE_OFFSET) | (c
            << COLOR_OFFSET) | (tp << TARGET_PIECE_OFFSET);
        proof {
            lemma_unpack(t, from, to, p, c, tp);
        }
        Move { bit_board: BitBoard { value: v } }
    }

    /// A move carrying only squares and a target piece; its kind is `Invalid`
    /// until the caller builds a complete move from it.
    pub fn from_to_target(from: u64, to: u64, target_piece: Piece) -> (r: Self)
        requires
            from < 64,
            to < 64,
        ensures
            r.spec_type() == MoveType::Invalid,
            r.spec_from() == from,
            r.spec_to() == to,
            r.spec_piece() == Piece::King,
            r.spec_color() == Color::White,
            r.spec_target_piece() == target_piece,
    {
        let t = MoveType::Invalid.to_u64();
        let tp = target_piece.to_u64();
        let v = t | (from << FROM_OFFSET) | (to << TO_OFFSET) | (0u64 << PIECE_OFFSET) | (0u64
            << COLOR_OFFSET) | (tp << TARGET_PIECE_OFFSET);
        proof {
            lemma_unpack(t, from, to, 0, 0, tp);
        }
        Move { bit_board: BitBoard { value: v } }
    }

    pub fn invalid() -> (r: Self)
        ensures
            r.spec_type() == MoveType::Invalid,
            r.spec_from() == 0,
            r.spec_to() == 0,
    {
        let t = MoveType::Invalid.to_u64();
        let v = t | (0u64 << FROM_OFFSET) | (0u64 << TO_OFFSET) | (0u64 << PIECE_OFFSET) | (0u64
            << COLOR_OFFSET) | (0u64 << TARGET_PIECE_OFFSET);
        proof {
            lemma_unpack(t, 0, 0, 0, 0, 0);
        }
        Move { bit_board: BitBoard { value: v } }
    }

    pub fn get_type(self) -> (r: MoveType)
        ensures
            r == self.spec_type(),
    {
        let v = self.bit_board.value;
        MoveType::from_u64(v & 0x7)
    }

    pub fn get_from(self) -> (r: Square)
        ensures
            r.index == self.spec_from(),
            r.spec_valid(),
    {
        let v = self.bit_board.value;
        let idx = (v >> FROM_OFFSET) & 0x3f;
        proof {
            lemma_mask6_bound((v >> FROM_OFFSET));
        }
        Square::new(idx)
    }

    pub fn get_to(self) -> (r: Square)
        ensures
            r.index == self.spec_to(),
            r.spec_valid(),
    {
        let v = self.bit_board.value;
        let idx = (v >> TO_OFFSET) & 0x3f;
        proof {
            lemma_mask6_bound((v >> TO_OFFSET));
        }
        Square::new(idx)
    }

    pub fn get_piece(self) -> (r: Piece)
        ensures
            r == self.spec_piece(),
    {
        let v = self.bit_board.value;
        Piece::from_u64((v >> PIECE_OFFSET) & 0x7)
    }

    pub fn get_color(self) -> (r: Color)
        ensures
            r == self.spec_color(),
    {
        let v = self.bit_board.value;
        Color::from_u64((v >> COLOR_OFFSET) & 0x1)
    }

    pub fn get_target_piece(self) -> (r: Piece)
        ensures
            r == self.spec_target_piece(),
    {
        let v = self.bit_board.value;
        Piece::from_u64((v >> TARGET_PIECE_OFFSET) & 0x7)
    }

    /// The target piece under its older name.
    pub fn get_eaten_piece(self) -> (r: Piece)
        ensures
            r == self.spec_target_piece(),
    {
        self.get_target_piece()
    }

    /// The same squares and mover, remade as a capture of `target_piece`.
    pub fn to_capture(self, target_piece: Piece) -> (r: Move)
        requires
            target_piece != Piece::Empty,
            self.spec_piece() != Piece::Empty,
        ensures
            r.spec_type() == MoveType::Capture,
            r.spec_from() == self.spec_from(),
            r.spec_to() == self.spec_to(),
            r.spec_piece() == self.spec_piece(),
            r.spec_color() == self.spec_color(),
            r.spec_target_piece() == target_piece,
    {
        let v = self.bit_board.value;
        proof {
            lemma_mask6_bound(v >> FROM_OFFSET);
            lemma_mask6_bound(v >> TO_OFFSET);
        }
        Move::new(
            MoveType::Capture,
            (v >> FROM_OFFSET) & 0x3f,
            (v >> TO_OFFSET) & 0x3f,
            self.get_piece(),
            self.get_color(),
            target_piece,
        )
    }
}

proof fn lemma_mask6_bound(x: u64)
    by (bit_vector)
    ensures
        x & 0x3f < 64,
{
}

/// The packed from- and to-squares always decode to board squares.
pub proof fn lemma_move_squares(m: Move)
    ensures
        m.spec_from() < 64,
        m.spec_to() < 64,
{
    lemma_mask6_bound(m.bit_board.value >> FROM_OFFSET);
    lemma_mask6_bound(m.bit_board.value >> TO_OFFSET);
}

/// Each packed field reads back as what was packed.
proof fn lemma_unpack(t: u64, from: u64, to: u64, p: u64, c: u64, tp: u64)
    by (bit_vector)
    requires
        t < 8,
        from < 64,
        to < 64,
        p < 8,
        c < 2,
        tp < 8,
    ensures
        ({
            let v = t | (from << 3) | (to << 9) | (p << 15) | (c << 18) | (tp << 19);
            (v & 0x7) == t && ((v >> 3) & 0x3f) == from && ((v >> 9) & 0x3f) == to && ((v >> 15)
                & 0x7) == p && ((v >> 18) & 0x1) == c && ((v >> 19) & 0x7) == tp && (v >> 22) == 0
        }),
{
}

/// Two canonical move words with the same decoded fields are the same word.
pub proof fn lemma_canonical_eq(m1: Move, m2: Move)
    requires
        m1.is_canonical(),
        m2.is_canonical(),
        m1.spec_type() == m2.spec_type(),
        m1.spec_from() == m2.spec_from(),
        m1.spec_to() == m2.spec_to(),
        m1.spec_piece() == m2.spec_piece(),
        m1.spec_color() == m2.spec_color(),
        m1.spec_target_piece() == m2.spec_target_piece(),
    ensures
        m1 == m2,
{
    let v1 = m1.bit_board.value;
    let v2 = m2.bit_board.value;
    assert(v1 & 0x7 < 7 && v2 & 0x7 < 7 && (v1 >> 15) & 0x7 < 7 && (v2 >> 15) & 0x7 < 7 && (v1
        >> 19) & 0x7 < 7 && (v2 >> 19) & 0x7 < 7 && (v1 >> 18) & 0x1 < 2 && (v2 >> 18) & 0x1 < 2)
        by (bit_vector)
        requires
            v1 & 0x7 != 7 && v2 & 0x7 != 7 && (v1 >> 15) & 0x7 != 7 && (v2 >> 15) & 0x7 != 7 && (v1
                >> 19) & 0x7 != 7 && (v2 >> 19) & 0x7 != 7,
    ;
    assert((v1 & 0x7) == (v2 & 0x7));
    assert(((v1 >> PIECE_OFFSET) & 0x7) == ((v2 >> PIECE_OFFSET) & 0x7));
    assert(((v1 >> TARGET_PIECE_OFFSET) & 0x7) == ((v2 >> TARGET_PIECE_OFFSET) & 0x7));
    assert(((v1 >> COLOR_OFFSET) & 0x1) == ((v2 >> COLOR_OFFSET) & 0x1));
    assert(v1 == v2) by (bit_vector)
        requires
            v1 >> 22 == 0,
            v2 >> 22 == 0,
            (v1 & 0x7) == (v2 & 0x7),
            ((v1 >> 3) & 0x3f) == ((v2 >> 3) & 0x3f),
            ((v1 >> 9) & 0x3f) == ((v2 >> 9) & 0x3f),
            ((v1 >> 15) & 0x7) == ((v2 >> 15) & 0x7),
            ((v1 >> 18) & 0x1) == ((v2 >> 18) & 0x1),
            ((v1 >> 19) & 0x7) == ((v2 >> 19) & 0x7),
    ;
}

} // verus!
