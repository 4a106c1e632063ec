//! The kinds of move a packed move word can carry.

use vstd::prelude::*;

verus! {

#[derive(PartialEq, Eq, Structural, Clone, Copy, Debug)]
pub enum MoveType {
    Push,
    PawnJump,
    Capture,
    Castling,
    EnPassant,
    Promotion,
    Invalid,
}

impl MoveType {
    pub open spec fn spec_to_u64(self) -> u64 {
        match self {
            MoveType::Push => 0,
            MoveType::PawnJump => 1,
            MoveType::Capture => 2,
            MoveType::Castling => 3,
            MoveType::EnPassant => 4,
            MoveType::Promotion => 5,
            MoveType::Invalid => 6,
        }
    }

    #[verifier::when_used_as_spec(spec_to_u64)]
    pub fn to_u64(self) -> (r: u64)
        ensures
            r == self.spec_to_u64(),
    {
        match self {
            MoveType::Push => 0,
            MoveType::PawnJump => 1,
            MoveType::Capture => 2,
            MoveType::Castling => 3,
            MoveType::EnPassant => 4,
            MoveType::Promotion => 5,
            MoveType::Invalid => 6,
        }
    }

    pub open spec fn spec_index(self) -> usize {
        self.spec_to_u64() as usize
    }

    #[verifier::when_used_as_spec(spec_index)]
    pub fn index(self) -> (r: usize)
        ensures
            r == self.spec_index(),
    {
        self.to_u64() as usize
    }

    /// The move kind encoded by `v`; values past the last kind decode to `Invalid`.
    pub open spec fn spec_from_u64(v: u64) -> MoveType {
        if v == 0 {
            MoveType::Push
        } else if v == 1 {
            MoveType::PawnJump
        } else if v == 2 {
            MoveType::Capture
        } else if v == 3 {
            MoveType::Castling
        } else if v == 4 {
            MoveType::EnPassant
        } else if v == 5 {
            MoveType::Promotion
        } else {
            MoveType::Invalid
        }
    }

    pub fn from_u64(v: u64) -> (r: MoveType)
        ensures
            r == MoveType::spec_from_u64(v),
    {
        if v == 0 {
            MoveType::Push
        } else if v == 1 {
            MoveType::PawnJump
        } else if v == 2 {
            MoveType::Capture
        } else if v == 3 {
            MoveType::Castling
        } else if v == 4 {
            MoveType::EnPassant
        } else if v == 5 {
            MoveType::Promotion
        } else {
            MoveType::Invalid
        }
    }
}

} // verus!
