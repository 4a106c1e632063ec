//! A stack of played moves and the states they produced.

use vstd::prelude::*;
use crate::board_state::BoardState;
use crate::chess_move::Move;

verus! {

pub struct MoveStack {
    pub initial_state: BoardState,
    pub move_list: Vec<(Move, BoardState)>,
}

impl MoveStack {
    pub fn with_initial(initial_state: BoardState) -> (r: MoveStack)
        ensures
            r.initial_state == initial_state,
            r.move_list@.len() == 0,
    {
        MoveStack { initial_state, move_list: Vec::new() }
    }

    pub fn initial_state(&self) -> (r: BoardState)
        ensures
            r == self.initial_state,
    {
        self.initial_state
    }

    /// The state after the last pushed move, or the initial state when none
    /// was pushed.
    pub fn latest_state(&self) -> (r: BoardState)
        ensures
            self.move_list@.len() == 0 ==> r == self.initial_state,
            self.move_list@.len() > 0 ==> r == self.move_list@.last().1,
    {
        if self.move_list.len() == 0 {
            return self.initial_state;
        }
        let last = self.move_list.len() - 1;
        self.move_list[last].1
    }

    pub fn push(&mut self, m: Move, new_state: BoardState)
        ensures
            final(self).initial_state == old(self).initial_state,
            final(self).move_list@ == old(self).move_list@.push((m, new_state)),
    {
        self.move_list.push((m, new_state));
    }

    pub fn pop(&mut self) -> (r: Option<(Move, BoardState)>)
        ensures
            final(self).initial_state == old(self).initial_state,
            old(self).move_list@.len() == 0 ==> r is None && final(self).move_list@ == old(
                self,
            ).move_list@,
            old(self).move_list@.len() > 0 ==> r == Option::Some(old(self).move_list@.last())
                && final(self).move_list@ == old(self).move_list@.drop_last(),
    {
        self.move_list.pop()
    }
}

impl Default for MoveStack {
    /// An empty stack over the starting position.
    fn default() -> (r: Self)
        ensures
            r.move_list@.len() == 0,
            r.initial_state.wf_boards(),
            r.initial_state.kings_ok(),
    {
        MoveStack { initial_state: BoardState::default(), move_list: Vec::new() }
    }
}

} // verus!
