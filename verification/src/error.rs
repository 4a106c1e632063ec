//! The errors the library reports to its callers.

use vstd::prelude::*;
use vstd::string::StringExecFns;

verus! {

#[derive(Debug)]
pub enum GameError {
    /// The Forsyth-Edwards text is malformed; the message names the field.
    FenFormatError(String),
    /// A move-suggestion response could not be turned into a legal move.
    OpenAiResponseError(String),
    /// A move was asked for in a position that has none.
    NoPossibleMoveError,
    /// An algebraic square outside a1-h8.
    InvalidSquareError(String),
    /// A move that does not correspond to any legal move here.
    InvalidMoveError,
}

impl GameError {
    /// A short description, for callers that print errors.
    pub fn message(&self) -> (r: String)
        ensures
            self matches GameError::FenFormatError(msg) ==> r@ == msg@,
            self matches GameError::OpenAiResponseError(msg) ==> r@ == msg@,
            self matches GameError::InvalidSquareError(msg) ==> r@ == msg@,
    {
        match self {
            GameError::FenFormatError(msg) => msg.clone(),
            GameError::OpenAiResponseError(msg) => msg.clone(),
            GameError::NoPossibleMoveError => String::from_str("No more possible moves!"),
            GameError::InvalidSquareError(msg) => msg.clone(),
            GameError::InvalidMoveError => String::from_str("Invalid move"),
        }
    }
}

} // verus!
