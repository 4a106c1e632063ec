//! Piece kinds, their material values, their Forsyth-Edwards letters, and the
//! standard starting placement of each kind.

use vstd::prelude::*;
use crate::bitboard::BitBoard;
use crate::color::Color;

verus! {

pub const DEFAULT_WHITE_PIECES: u64 = 0x000000000000ffff;

pub const DEFAULT_BLACK_PIECES: u64 = 0xffff000000000000;

pub const DEFAULT_WHITE_KING: u64 = 0x0000000000000010;

pub const DEFAULT_BLACK_KING: u64 = 0x1000000000000000;

pub const DEFAULT_WHITE_QUEEN: u64 = 0x0000000000000008;

pub const DEFAULT_BLACK_QUEEN: u64 = 0x0800000000000000;

pub const DEFAULT_WHITE_ROOK: u64 = 0x0000000000000081;

pub const DEFAULT_BLACK_ROOK: u64 = 0x8100000000000000;

pub const DEFAULT_WHITE_BISHOP: u64 = 0x0000000000000024;

pub const DEFAULT_BLACK_BISHOP: u64 = 0x2400000000000000;

pub const DEFAULT_WHITE_KNIGHT: u64 = 0x0000000000000042;

pub const DEFAULT_BLACK_KNIGHT: u64 = 0x4200000000000000;

pub const DEFAULT_WHITE_PAWNS: u64 = 0x000000000000ff00;

pub const DEFAULT_BLACK_PAWNS: u64 = 0x00ff000000000000;

#[derive(PartialEq, Eq, Structural, Clone, Copy, Debug)]
pub enum Piece {
    King,
    Queen,
    Rook,
    Bishop,
    Knight,
    Pawn,
    Empty,
}

impl Piece {
    pub open spec fn spec_to_u64(self) -> u64 {
        match self {
            Piece::King => 0,
            Piece::Queen => 1,
            Piece::Rook => 2,
            Piece::Bishop => 3,
            Piece::Knight => 4,
            Piece::Pawn => 5,
            Piece::Empty => 6,
        }
    }

    #[verifier::when_used_as_spec(spec_to_u64)]
    pub fn to_u64(self) -> (r: u64)
        ensures
            r == self.spec_to_u64(),
    {
        match self {
            Piece::King => 0,
            Piece::Queen => 1,
            Piece::Rook => 2,
            Piece::Bishop => 3,
            Piece::Knight => 4,
            Piece::Pawn => 5,
            Piece::Empty => 6,
        }
    }

    pub open spec fn spec_index(self) -> usize {
        self.spec_to_u64() as usize
    }

    #[verifier::when_used_as_spec(spec_index)]
    pub fn index(self) -> (r: usize)
        ensures
            r == self.spec_index(),
    {
        self.to_u64() as usize
    }

    /// The piece kind encoded by `v`; values past the last kind decode to `None`.
    pub open spec fn spec_from_u64(v: u64) -> Piece {
        if v == 0 {
            Piece::King
        } else if v == 1 {
            Piece::Queen
        } else if v == 2 {
            Piece::Rook
        } else if v == 3 {
            Piece::Bishop
        } else if v == 4 {
            Piece::Knight
        } else if v == 5 {
            Piece::Pawn
        } else {
            Piece::Empty
        }
    }

    pub fn from_u64(v: u64) -> (r: Piece)
        ensures
            r == Piece::spec_from_u64(v),
    {
        if v == 0 {
            Piece::King
        } else if v == 1 {
            Piece::Queen
        } else if v == 2 {
            Piece::Rook
        } else if v == 3 {
            Piece::Bishop
        } else if v == 4 {
            Piece::Knight
        } else if v == 5 {
            Piece::Pawn
        } else {
            Piece::Empty
        }
    }

    pub fn from_index(v: usize) -> (r: Piece)
        ensures
            r == Piece::spec_from_u64(v as u64),
    {
        Piece::from_u64(v as u64)
    }

    /// Material value of the kind.
    pub open spec fn spec_value(self) -> usize {
        match self {
            Piece::King => 30000,
            Piece::Queen => 900,
            Piece::Rook => 500,
            Piece::Bishop => 330,
            Piece::Knight => 325,
            Piece::Pawn => 100,
            Piece::Empty => 0,
        }
    }

    #[verifier::when_used_as_spec(spec_value)]
    pub fn value(self) -> (r: usize)
        ensures
            r == self.spec_value(),
    {
        match self {
            Piece::King => 30000,
            Piece::Queen => 900,
            Piece::Rook => 500,
            Piece::Bishop => 330,
            Piece::Knight => 325,
            Piece::Pawn => 100,
            Piece::Empty => 0,
        }
    }

    pub open spec fn spec_to_char(self) -> char {
        match self {
            Piece::King => 'k',
            Piece::Queen => 'q',
            Piece::Rook => 'r',
            Piece::Bishop => 'b',
            Piece::Knight => 'n',
            Piece::Pawn => 'p',
            Piece::Empty => '_',
        }
    }

    #[verifier::when_used_as_spec(spec_to_char)]
    pub fn to_char(self) -> (r: char)
        ensures
            r == self.spec_to_char(),
    {
        match self {
            Piece::King => 'k',
            Piece::Queen => 'q',
            Piece::Rook => 'r',
            Piece::Bishop => 'b',
            Piece::Knight => 'n',
            Piece::Pawn => 'p',
            Piece::Empty => '_',
        }
    }

    /// The letter in piece-placement notation: uppercase for White, lowercase for Black.
    pub open spec fn spec_to_char_representation(self, color: Color) -> char {
        match color {
            Color::White => match self {
                Piece::King => 'K',
                Piece::Queen => 'Q',
                Piece::Rook => 'R',
                Piece::Bishop => 'B',
                Piece::Knight => 'N',
                Piece::Pawn => 'P',
                Piece::Empty => '_',
            },
            Color::Black => self.spec_to_char(),
        }
    }

    #[verifier::when_used_as_spec(spec_to_char_representation)]
    pub fn to_char_representation(self, color: Color) -> (r: char)
        ensures
            r == self.spec_to_char_representation(color),
    {
        match color {
            Color::White => match self {
                Piece::King => 'K',
                Piece::Queen => 'Q',
                Piece::Rook => 'R',
                Piece::Bishop => 'B',
                Piece::Knight => 'N',
                Piece::Pawn => 'P',
                Piece::Empty => '_',
            },
            Color::Black => self.to_char(),
        }
    }

    /// The piece kind whose placement letter is `c`, together with its color,
    /// or `None` for any other character.
    pub open spec fn spec_from_fen_char(c: char) -> Option<(Piece, Color)> {
        match c {
            'K' => Option::Some((Piece::King, Color::White)),
            'Q' => Option::Some((Piece::Queen, Color::White)),
            'R' => Option::Some((Piece::Rook, Color::White)),
            'B' => Option::Some((Piece::Bishop, Color::White)),
            'N' => Option::Some((Piece::Knight, Color::White)),
            'P' => Option::Some((Piece::Pawn, Color::White)),
            'k' => Option::Some((Piece::King, Color::Black)),
            'q' => Option::Some((Piece::Queen, Color::Black)),
            'r' => Option::Some((Piece::Rook, Color::Black)),
            'b' => Option::Some((Piece::Bishop, Color::Black)),
            'n' => Option::Some((Piece::Knight, Color::Black)),
            'p' => Option::Some((Piece::Pawn, Color::Black)),
            _ => Option::None,
        }
    }

    pub fn from_fen_char(c: char) -> (r: Option<(Piece, Color)>)
        ensures
            r == Piece::spec_from_fen_char(c),
    {
        match c {
            'K' => Option::Some((Piece::King, Color::White)),
            'Q' => Option::Some((Piece::Queen, Color::White)),
            'R' => Option::Some((Piece::Rook, Color::White)),
            'B' => Option::Some((Piece::Bishop, Color::White)),
            'N' => Option::Some((Piece::Knight, Color::White)),
            'P' => Option::Some((Piece::Pawn, Color::White)),
            'k' => Option::Some((Piece::King, Color::Black)),
            'q' => Option::Some((Piece::Queen, Color::Black)),
            'r' => Option::Some((Piece::Rook, Color::Black)),
            'b' => Option::Some((Piece::Bishop, Color::Black)),
            'n' => Option::Some((Piece::Knight, Color::Black)),
            'p' => Option::Some((Piece::Pawn, Color::Black)),
            _ => Option::None,
        }
    }

    /// Starting-position board of all pieces of `color`.
    pub open spec fn spec_default_bitboard_for_color(color: Color) -> u64 {
        match color {
            Color::White => DEFAULT_WHITE_PIECES,
            Color::Black => DEFAULT_BLACK_PIECES,
        }
    }

    pub fn default_bitboard_for_color(color: Color) -> (r: BitBoard)
        ensures
            r.value == Piece::spec_default_bitboard_for_color(color),
    {
        match color {
            Color::White => BitBoard::from(DEFAULT_WHITE_PIECES),
            Color::Black => BitBoard::from(DEFAULT_BLACK_PIECES),
        }
    }

    /// Starting-position board of the pieces of one kind and color.
    pub open spec fn spec_default_bitboard_for_color_and_type(color: Color, piece: Piece) -> u64 {
        match color {
            Color::White => match piece {
                Piece::King => DEFAULT_WHITE_KING,
                Piece::Queen => DEFAULT_WHITE_QUEEN,
                Piece::Rook => DEFAULT_WHITE_ROOK,
                Piece::Bishop => DEFAULT_WHITE_BISHOP,
                Piece::Knight => DEFAULT_WHITE_KNIGHT,
                Piece::Pawn => DEFAULT_WHITE_PAWNS,
                Piece::Empty => 0,
            },
            Color::Black => match piece {
                Piece::King => DEFAULT_BLACK_KING,
                Piece::Queen => DEFAULT_BLACK_QUEEN,
                Piece::Rook => DEFAULT_BLACK_ROOK,
                Piece::Bishop => DEFAULT_BLACK_BISHOP,
                Piece::Knight => DEFAULT_BLACK_KNIGHT,
                Piece::Pawn => DEFAULT_BLACK_PAWNS,
                Piece::Empty => 0,
            },
        }
    }

    pub fn default_bitboard_for_color_and_type(color: Color, piece: Piece) -> (r: BitBoard)
        ensures
            r.value == Piece::spec_default_bitboard_for_color_and_type(color, piece),
    {
        match color {
            Color::White => match piece {
                Piece::King => BitBoard::from(DEFAULT_WHITE_KING),
                Piece::Queen => BitBoard::from(DEFAULT_WHITE_QUEEN),
                Piece::Rook => BitBoard::from(DEFAULT_WHITE_ROOK),
                Piece::Bishop => BitBoard::from(DEFAULT_WHITE_BISHOP),
                Piece::Knight => BitBoard::from(DEFAULT_WHITE_KNIGHT),
                Piece::Pawn => BitBoard::from(DEFAULT_WHITE_PAWNS),
                Piece::Empty => BitBoard::from(0),
            },
            Color::Black => match piece {
                Piece::King => BitBoard::from(DEFAULT_BLACK_KING),
                Piece::Queen => BitBoard::from(DEFAULT_BLACK_QUEEN),
                Piece::Rook => BitBoard::from(DEFAULT_BLACK_ROOK),
                Piece::Bishop => BitBoard::from(DEFAULT_BLACK_BISHOP),
                Piece::Knight => BitBoard::from(DEFAULT_BLACK_KNIGHT),
                Piece::Pawn => BitBoard::from(DEFAULT_BLACK_PAWNS),
                Piece::Empty => BitBoard::from(0),
            },
        }
    }
}

} // verus!
