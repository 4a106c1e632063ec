//! Chooses a mover: the fixed-depth search, or the outside move-suggestion
//! service. Only the search can answer from inside the library; the service
//! needs the network, so its loop lives with the caller and this provider
//! answers nothing for it.

use vstd::prelude::*;
use crate::ai_strategy::Minimax;
use crate::ai_strategy::OpenAi;
use crate::board_state::BoardState;
use crate::chess_move::Move;
use crate::evaluator::Evaluator;
use crate::move_provider::is_legal;

verus! {

pub enum AiType {
    Minimax,
    LLM,
}

pub struct AiMoveProvider {
    pub minimax: Minimax,
    pub llm: OpenAi,
}

impl AiMoveProvider {
    pub fn new(max_depth: usize, api_key: &str) -> (r: Self)
        ensures
            r.minimax.max_depth == max_depth,
            r.llm.api_key@ == api_key@,
    {
        AiMoveProvider { minimax: Minimax::new(Evaluator::new(), max_depth), llm: OpenAi::new(api_key) }
    }

    /// A legal move chosen by the named mover. The search answers whenever a
    /// legal move exists; the outside service needs the network, so its arm
    /// answers nothing here and the caller makes the call itself.
    pub fn find_optimal_move(&mut self, ai_type: AiType, board: &BoardState) -> (r: Option<Move>)
        requires
            old(self).minimax.max_depth >= 1,
            board.wf_boards(),
            board.ply + old(self).minimax.max_depth < 0xffff,
            board.half_move_clock + old(self).minimax.max_depth < 0xffff,
        ensures
            r matches Option::Some(m) ==> is_legal(*board, m),
            ai_type is Minimax ==> ((r is None) <==> (forall|m: Move| !is_legal(*board, m))),
            ai_type is LLM ==> r is None,
    {
        match ai_type {
            AiType::Minimax => {
                match self.minimax.find_optimal_move(board) {
                    Result::Ok(m) => Option::Some(m),
                    Result::Err(_) => Option::None,
                }
            },
            AiType::LLM => Option::None,
        }
    }
}

} // verus!
