//! The two sides of the game.

use vstd::prelude::*;

verus! {

#[derive(PartialEq, Eq, Structural, Clone, Copy, Debug)]
pub enum Color {
    White,
    Black,
}

impl Color {
    pub open spec fn spec_to_u64(self) -> u64 {
        match self {
            Color::White => 0,
            Color::Black => 1,
        }
    }

    #[verifier::when_used_as_spec(spec_to_u64)]
    pub fn to_u64(self) -> (r: u64)
        ensures
            r == self.spec_to_u64(),
    {
        match self {
            Color::White => 0,
            Color::Black => 1,
        }
    }

    pub open spec fn spec_index(self) -> usize {
        match self {
            Color::White => 0,
            Color::Black => 1,
        }
    }

    #[verifier::when_used_as_spec(spec_index)]
    pub fn index(self) -> (r: usize)
        ensures
            r == self.spec_index(),
    {
        match self {
            Color::White => 0,
            Color::Black => 1,
        }
    }

    pub open spec fn spec_inverse(self) -> Color {
        match self {
            Color::White => Color::Black,
            Color::Black => Color::White,
        }
    }

    pub fn inverse(&self) -> (r: Color)
        ensures
            r == self.spec_inverse(),
    {
        match self {
            Color::White => Color::Black,
            Color::Black => Color::White,
        }
    }

    pub open spec fn spec_to_char(self) -> char {
        match self {
            Color::White => 'w',
            Color::Black => 'b',
        }
    }

    pub fn to_char(&self) -> (r: char)
        ensures
            r == self.spec_to_char(),
    {
        match self {
            Color::White => 'w',
            Color::Black => 'b',
        }
    }

    /// The color encoded by `v`: zero is White, anything else Black.
    pub open spec fn spec_from_u64(v: u64) -> Color {
        if v == 0 {
            Color::White
        } else {
            Color::Black
        }
    }

    pub fn from_u64(v: u64) -> (r: Color)
        ensures
            r == Color::spec_from_u64(v),
    {
        if v == 0 {
            Color::White
        } else {
            Color::Black
        }
    }
}

} // verus!
