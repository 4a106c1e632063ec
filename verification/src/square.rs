//! Square identity: index 0 = a1, 7 = h1, 56 = a8, 63 = h8;
//! file = index mod 8, rank = index div 8.

use vstd::prelude::*;
use vstd::string::StrSliceExecFns;
use crate::bitboard::BitBoard;

verus! {

#[derive(PartialEq, Eq, Structural, Clone, Copy, Debug)]
pub struct Square {
    pub index: usize,
}

impl Square {
    /// A square index names one of the 64 board squares.
    pub open spec fn spec_valid(self) -> bool {
        self.index < 64
    }

    pub fn new(index: u64) -> (r: Self)
        requires
            index < 64,
        ensures
            r.index == index,
    {
        Square { index: index as usize }
    }

    pub fn from_usize(index: usize) -> (r: Square)
        requires
            index < 64,
        ensures
            r.index == index,
    {
        Square { index }
    }

    pub fn from_label(label: SquareLabel) -> (r: Square)
        requires
            label != SquareLabel::NoSquare,
        ensures
            r.index == label.spec_index(),
    {
        Square { index: label.index() }
    }

    pub fn raw(&self) -> (r: u64)
        ensures
            r == self.index,
    {
        self.index as u64
    }

    pub fn as_bb(&self) -> (r: BitBoard)
        requires
            self.spec_valid(),
        ensures
            r.value == (1u64 << self.index),
    {
        BitBoard::from(1u64 << (self.index as u64))
    }

    pub fn as_usize(&self) -> (r: usize)
        ensures
            r == self.index,
    {
        self.index
    }

    pub open spec fn spec_file(self) -> usize {
        self.index % 8
    }

    #[verifier::when_used_as_spec(spec_file)]
    pub fn file(self) -> (r: usize)
        ensures
            r == self.spec_file(),
    {
        self.index % 8
    }

    pub open spec fn spec_rank(self) -> usize {
        self.index / 8
    }

    #[verifier::when_used_as_spec(spec_rank)]
    pub fn rank(self) -> (r: usize)
        ensures
            r == self.spec_rank(),
    {
        self.index / 8
    }

    /// The file letter a-h (either case) as a file number, if `c` is one.
    pub open spec fn spec_file_of_char(c: char) -> Option<usize> {
        match c {
            'a' => Option::Some(0usize),
            'b' => Option::Some(1usize),
            'c' => Option::Some(2usize),
            'd' => Option::Some(3usize),
            'e' => Option::Some(4usize),
            'f' => Option::Some(5usize),
            'g' => Option::Some(6usize),
            'h' => Option::Some(7usize),
            'A' => Option::Some(0usize),
            'B' => Option::Some(1usize),
            'C' => Option::Some(2usize),
            'D' => Option::Some(3usize),
            'E' => Option::Some(4usize),
            'F' => Option::Some(5usize),
            'G' => Option::Some(6usize),
            'H' => Option::Some(7usize),
            _ => Option::None,
        }
    }

    pub fn file_of_char(c: char) -> (r: Option<usize>)
        ensures
            r == Square::spec_file_of_char(c),
    {
        match c {
            'a' => Option::Some(0usize),
            'b' => Option::Some(1usize),
            'c' => Option::Some(2usize),
            'd' => Option::Some(3usize),
            'e' => Option::Some(4usize),
            'f' => Option::Some(5usize),
            'g' => Option::Some(6usize),
            'h' => Option::Some(7usize),
            'A' => Option::Some(0usize),
            'B' => Option::Some(1usize),
            'C' => Option::Some(2usize),
            'D' => Option::Some(3usize),
            'E' => Option::Some(4usize),
            'F' => Option::Some(5usize),
            'G' => Option::Some(6usize),
            'H' => Option::Some(7usize),
            _ => Option::None,
        }
    }

    /// The rank digit 1-8 as a rank number, if `c` is one.
    pub open spec fn spec_rank_of_char(c: char) -> Option<usize> {
        match c {
            '1' => Option::Some(0usize),
            '2' => Option::Some(1usize),
            '3' => Option::Some(2usize),
            '4' => Option::Some(3usize),
            '5' => Option::Some(4usize),
            '6' => Option::Some(5usize),
            '7' => Option::Some(6usize),
            '8' => Option::Some(7usize),
            _ => Option::None,
        }
    }

    pub fn rank_of_char(c: char) -> (r: Option<usize>)
        ensures
            r == Square::spec_rank_of_char(c),
    {
        match c {
            '1' => Option::Some(0usize),
            '2' => Option::Some(1usize),
            '3' => Option::Some(2usize),
            '4' => Option::Some(3usize),
            '5' => Option::Some(4usize),
            '6' => Option::Some(5usize),
            '7' => Option::Some(6usize),
            '8' => Option::Some(7usize),
            _ => Option::None,
        }
    }

    /// The square named by the first two characters of `s` in algebraic
    /// notation (file letter then rank digit), if they name one.
    pub open spec fn spec_from_chars(s: Seq<char>) -> Option<Square> {
        if s.len() < 2 {
            Option::None
        } else {
            match (Square::spec_file_of_char(s[0]), Square::spec_rank_of_char(s[1])) {
                (Option::Some(f), Option::Some(r)) => Option::Some(
                    Square { index: (f + r * 8) as usize },
                ),
                _ => Option::None,
            }
        }
    }

    pub fn from_string(sq: &str) -> (r: Option<Square>)
        ensures
            r == Square::spec_from_chars(sq@),
            r is Some ==> r.unwrap().spec_valid(),
    {
        let len = sq.unicode_len();
        if len < 2 {
            return Option::None;
        }
        let first = sq.get_char(0);
        let second = sq.get_char(1);
        let file = Square::file_of_char(first);
        let rank = Square::rank_of_char(second);
        match (file, rank) {
            (Option::Some(f), Option::Some(r)) => Option::Some(Square { index: f + r * 8 }),
            _ => Option::None,
        }
    }
}

#[derive(PartialEq, Eq, Structural, Clone, Copy, Debug)]
pub enum SquareLabel {
    A1,
    B1,
    C1,
    D1,
    E1,
    F1,
    G1,
    H1,
    A2,
    B2,
    C2,
    D2,
    E2,
    F2,
    G2,
    H2,
    A3,
    B3,
    C3,
    D3,
    E3,
    F3,
    G3,
    H3,
    A4,
    B4,
    C4,
    D4,
    E4,
    F4,
    G4,
    H4,
    A5,
    B5,
    C5,
    D5,
    E5,
    F5,
    G5,
    H5,
    A6,
    B6,
    C6,
    D6,
    E6,
    F6,
    G6,
    H6,
    A7,
    B7,
    C7,
    D7,
    E7,
    F7,
    G7,
    H7,
    A8,
    B8,
    C8,
    D8,
    E8,
    F8,
    G8,
    H8,
    NoSquare,
}

impl SquareLabel {
    pub open spec fn spec_index(self) -> usize {
        match self {
            SquareLabel::A1 => 0,
            SquareLabel::B1 => 1,
            SquareLabel::C1 => 2,
            SquareLabel::D1 => 3,
            SquareLabel::E1 => 4,
            SquareLabel::F1 => 5,
            SquareLabel::G1 => 6,
            SquareLabel::H1 => 7,
            SquareLabel::A2 => 8,
            SquareLabel::B2 => 9,
            SquareLabel::C2 => 10,
            SquareLabel::D2 => 11,
            SquareLabel::E2 => 12,
            SquareLabel::F2 => 13,
            SquareLabel::G2 => 14,
            SquareLabel::H2 => 15,
            SquareLabel::A3 => 16,
            SquareLabel::B3 => 17,
            SquareLabel::C3 => 18,
            SquareLabel::D3 => 19,
            SquareLabel::E3 => 20,
            SquareLabel::F3 => 21,
            SquareLabel::G3 => 22,
            SquareLabel::H3 => 23,
            SquareLabel::A4 => 24,
            SquareLabel::B4 => 25,
            SquareLabel::C4 => 26,
            SquareLabel::D4 => 27,
            SquareLabel::E4 => 28,
            SquareLabel::F4 => 29,
            SquareLabel::G4 => 30,
            SquareLabel::H4 => 31,
            SquareLabel::A5 => 32,
            SquareLabel::B5 => 33,
            SquareLabel::C5 => 34,
            SquareLabel::D5 => 35,
            SquareLabel::E5 => 36,
            SquareLabel::F5 => 37,
            SquareLabel::G5 => 38,
            SquareLabel::H5 => 39,
            SquareLabel::A6 => 40,
            SquareLabel::B6 => 41,
            SquareLabel::C6 => 42,
            SquareLabel::D6 => 43,
            SquareLabel::E6 => 44,
            SquareLabel::F6 => 45,
            SquareLabel::G6 => 46,
            SquareLabel::H6 => 47,
            SquareLabel::A7 => 48,
            SquareLabel::B7 => 49,
            SquareLabel::C7 => 50,
            SquareLabel::D7 => 51,
            SquareLabel::E7 => 52,
            SquareLabel::F7 => 53,
            SquareLabel::G7 => 54,
            SquareLabel::H7 => 55,
            SquareLabel::A8 => 56,
            SquareLabel::B8 => 57,
            SquareLabel::C8 => 58,
            SquareLabel::D8 => 59,
            SquareLabel::E8 => 60,
            SquareLabel::F8 => 61,
            SquareLabel::G8 => 62,
            SquareLabel::H8 => 63,
            SquareLabel::NoSquare => 64,
        }
    }

    #[verifier::when_used_as_spec(spec_index)]
    pub fn index(self) -> (r: usize)
        ensures
            r == self.spec_index(),
    {
        match self {
            SquareLabel::A1 => 0,
            SquareLabel::B1 => 1,
            SquareLabel::C1 => 2,
            SquareLabel::D1 => 3,
            SquareLabel::E1 => 4,
            SquareLabel::F1 => 5,
            SquareLabel::G1 => 6,
            SquareLabel::H1 => 7,
            SquareLabel::A2 => 8,
            SquareLabel::B2 => 9,
            SquareLabel::C2 => 10,
            SquareLabel::D2 => 11,
            SquareLabel::E2 => 12,
            SquareLabel::F2 => 13,
            SquareLabel::G2 => 14,
            SquareLabel::H2 => 15,
            SquareLabel::A3 => 16,
            SquareLabel::B3 => 17,
            SquareLabel::C3 => 18,
            SquareLabel::D3 => 19,
            SquareLabel::E3 => 20,
            SquareLabel::F3 => 21,
            SquareLabel::G3 => 22,
            SquareLabel::H3 => 23,
            SquareLabel::A4 => 24,
            SquareLabel::B4 => 25,
            SquareLabel::C4 => 26,
            SquareLabel::D4 => 27,
            SquareLabel::E4 => 28,
            SquareLabel::F4 => 29,
            SquareLabel::G4 => 30,
            SquareLabel::H4 => 31,
            SquareLabel::A5 => 32,
            SquareLabel::B5 => 33,
            SquareLabel::C5 => 34,
            SquareLabel::D5 => 35,
            SquareLabel::E5 => 36,
            SquareLabel::F5 => 37,
            SquareLabel::G5 => 38,
            SquareLabel::H5 => 39,
            SquareLabel::A6 => 40,
            SquareLabel::B6 => 41,
            SquareLabel::C6 => 42,
            SquareLabel::D6 => 43,
            SquareLabel::E6 => 44,
            SquareLabel::F6 => 45,
            SquareLabel::G6 => 46,
            SquareLabel::H6 => 47,
            SquareLabel::A7 => 48,
            SquareLabel::B7 => 49,
            SquareLabel::C7 => 50,
            SquareLabel::D7 => 51,
            SquareLabel::E7 => 52,
            SquareLabel::F7 => 53,
            SquareLabel::G7 => 54,
            SquareLabel::H7 => 55,
            SquareLabel::A8 => 56,
            SquareLabel::B8 => 57,
            SquareLabel::C8 => 58,
            SquareLabel::D8 => 59,
            SquareLabel::E8 => 60,
            SquareLabel::F8 => 61,
            SquareLabel::G8 => 62,
            SquareLabel::H8 => 63,
            SquareLabel::NoSquare => 64,
        }
    }

    pub fn as_u64(self) -> (r: u64)
        ensures
            r == self.spec_index(),
    {
        self.index() as u64
    }

    pub fn as_usize(self) -> (r: usize)
        ensures
            r == self.spec_index(),
    {
        self.index()
    }

    pub fn to_bb(self) -> (r: BitBoard)
        requires
            self != SquareLabel::NoSquare,
        ensures
            r.value == (1u64 << self.spec_index()),
    {
        BitBoard::from(1u64 << (self.index() as u64))
    }
}

} // verus!
