//! A chess engine core: bitboard primitives, the position and its make-move
//! semantics, a Forsyth-Edwards codec, a rule-complete move generator with a
//! legality filter, a static evaluator, and a fixed-depth alpha-beta search.
//! The board invariants, the meaning of every generated move, and the
//! codec's behaviour are stated as contracts and proved.

pub mod bits;
pub mod bitboard;
pub mod color;
pub mod piece;
pub mod square;
pub mod move_type;
pub mod chess_move;
pub mod castling;
pub mod board_state;
pub mod attacks;
pub mod move_generator;
pub mod move_provider;
pub mod error;
pub mod fen;
pub mod evaluator;
pub mod ai_strategy;
pub mod game;
pub mod move_history;
pub mod ai_move_provider;
