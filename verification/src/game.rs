//! A game in progress: the current position, the move history, and the
//! outcome once one is known.

use vstd::prelude::*;
use crate::board_state::BoardState;
use crate::color::Color;
use crate::chess_move::Move;
use crate::error::GameError;
use crate::fen::spec_parse_fen;
use crate::fen::spec_fen_state_ok;
use crate::fen::spec_fen_bytes;
use crate::move_provider::MoveProvider;
use crate::move_provider::is_legal;
use crate::piece::Piece;
use crate::square::Square;
use vstd::string::StringSliceAdditionalSpecFns;

verus! {

#[derive(PartialEq, Eq, Structural, Clone, Copy, Debug)]
pub enum GameResult {
    Win(Color),
    Draw,
}

pub struct Game {
    pub result: Option<GameResult>,
    pub current_state: BoardState,
    pub generating_moves: bool,
    pub initial_state: BoardState,
    pub move_history: Vec<(BoardState, Move)>,
}

/// Walks the squares of one position from a1 upward and hands out the
/// occupied ones.
pub struct BoardIterator {
    pub state: BoardState,
    pub index: usize,
}

impl BoardIterator {
    pub fn for_state(state: BoardState) -> (r: BoardIterator)
        ensures
            r.state == state,
            r.index == 0,
    {
        BoardIterator { state, index: 0 }
    }

    /// The next occupied square at or past the cursor, with its piece and
    /// color; nothing when only empty squares remain.
    pub fn next_piece(&mut self) -> (r: Option<(Square, Piece, Color)>)
        requires
            old(self).index <= 64,
        ensures
            final(self).state == old(self).state,
            final(self).index <= 64,
            r matches Option::Some((sq, p, c)) ==> sq.index < 64 && old(self).index <= sq.index
                && old(self).state.spec_piece_at(sq.index as u64) == Option::Some((p, c))
                && final(self).index == sq.index + 1,
            r is None ==> forall|b: u64|
                old(self).index <= b < 64 ==> old(self).state.spec_piece_at(b) is None,
    {
        let mut i = self.index;
        while i < 64
            invariant
                old(self).index <= i <= 64,
                self.state == old(self).state,
                forall|b: u64| old(self).index <= b < i ==> self.state.spec_piece_at(b) is None,
            decreases 64 - i,
        {
            match self.state.get_piece_at(i as u8) {
                Option::Some((p, c)) => {
                    let sq = Square::from_usize(i);
                    self.index = i + 1;
                    return Option::Some((sq, p, c));
                },
                Option::None => {
                    i = i + 1;
                },
            }
        }
        self.index = 64;
        Option::None
    }
}

impl Game {
    /// The position can be played on: its boards are well formed and its
    /// clocks leave room for another move.
    pub open spec fn wf(self) -> bool {
        &&& self.current_state.wf_boards()
        &&& self.current_state.ply < 0xffff
        &&& self.current_state.half_move_clock < 0xffff
    }

    pub fn new() -> (r: Game)
        ensures
            r.wf(),
            r.result is None,
            r.current_state.kings_ok(),
            r.move_history@.len() == 0,
            r.current_state == r.initial_state,
            r.current_state.color_on_move == Color::White,
            r.current_state.ply == 0,
    {
        let start = BoardState::default();
        Game {
            initial_state: start,
            current_state: start,
            generating_moves: false,
            move_history: Vec::new(),
            result: Option::None,
        }
    }

    /// A game set up from a position string; fails exactly when the string
    /// does not parse.
    pub fn from_fen(fen: &str) -> (r: Result<Game, GameError>)
        ensures
            (r is Ok) == (spec_parse_fen(fen.spec_bytes()) is Some),
            r matches Ok(g) ==> {
                &&& g.wf()
                &&& spec_fen_state_ok(g.current_state, spec_parse_fen(fen.spec_bytes()).unwrap())
                &&& g.current_state == g.initial_state
                &&& g.result is None
                &&& g.move_history@.len() == 0
            },
    {
        match BoardState::from_fen(fen) {
            Result::Ok(board_state) => Result::Ok(
                Game {
                    initial_state: board_state,
                    current_state: board_state,
                    generating_moves: false,
                    move_history: Vec::new(),
                    result: Option::None,
                },
            ),
            Result::Err(err) => Result::Err(err),
        }
    }

    /// The current position as a position string.
    pub fn to_fen(&self) -> (r: String)
        requires
            self.wf(),
        ensures
            r@.len() == spec_fen_bytes(self.current_state).len(),
            forall|i: int|
                0 <= i < spec_fen_bytes(self.current_state).len() ==> r@[i] == spec_fen_bytes(
                    self.current_state,
                )[i] as char,
    {
        self.current_state.to_fen()
    }

    pub fn is_finished(&self) -> (r: bool)
        ensures
            r == (self.result is Some),
    {
        self.result.is_some()
    }

    pub fn board_iter(&self) -> (r: BoardIterator)
        ensures
            r.state == self.current_state,
            r.index == 0,
    {
        BoardIterator::for_state(self.current_state)
    }

    /// The legal moves of the current position that start on `position`,
    /// each listed once.
    pub fn possible_moves_for_position(&self, position: u64) -> (r: Vec<Move>)
        requires
            self.wf(),
            position < 64,
        ensures
            forall|m: Move| #[trigger]
                r@.contains(m) <==> (is_legal(self.current_state, m) && m.spec_from() == position),
            forall|k1: int, k2: int| 0 <= k1 < k2 < r@.len() ==> r@[k1] != r@[k2],
    {
        let provider = MoveProvider::new();
        let all = provider.legal_moves(&self.current_state);
        let mut result: Vec<Move> = Vec::new();
        let n = all.len();
        let mut i: usize = 0;
        while i < n
            invariant
                i <= n,
                n == all@.len(),
                forall|m: Move| #[trigger] all@.contains(m) <==> is_legal(self.current_state, m),
                forall|k1: int, k2: int| 0 <= k1 < k2 < all@.len() ==> all@[k1] != all@[k2],
                forall|m: Move| #[trigger]
                    result@.contains(m) <==> (is_legal(self.current_state, m) && m.spec_from()
                        == position && (exists|j: int| 0 <= j < i && all@[j] == m)),
                forall|k1: int, k2: int| 0 <= k1 < k2 < result@.len() ==> result@[k1]
                    != result@[k2],
            decreases n - i,
        {
            let ghost res0 = result@;
            let m = all[i];
            proof {
                assert(all@.contains(m));
            }
            if m.get_from().raw() == position {
                proof {
                    if res0.contains(m) {
                        let j = choose|j: int| 0 <= j < i && all@[j] == m;
                        assert(all@[j] == all@[i as int]);
                        assert(false);
                    }
                }
                result.push(m);
                proof {
                    assert forall|mm: Move| #[trigger]
                        result@.contains(mm) <==> (res0.contains(mm) || mm == m) by {
                        vstd::seq_lib::lemma_seq_contains_after_push(res0, m, mm);
                    }
                    assert(all@[i as int] == m);
                    assert forall|k1: int, k2: int|
                        0 <= k1 < k2 < result@.len() implies result@[k1] != result@[k2] by {
                        if k2 == result@.len() - 1 {
                            assert(result@[k1] == res0[k1]);
                            assert(res0.contains(res0[k1]));
                        }
                    }
                }
            }
            proof {
                assert forall|mm: Move| #[trigger]
                    result@.contains(mm) <==> (is_legal(self.current_state, mm) && mm.spec_from()
                        == position && (exists|j: int| 0 <= j < i + 1 && all@[j] == mm)) by {
                    if result@.contains(mm) {
                        if mm == m {
                            assert(all@[i as int] == mm);
                        } else {
                            assert(res0.contains(mm));
                            let j = choose|j: int| 0 <= j < i && all@[j] == mm;
                            assert(0 <= j < i + 1 && all@[j] == mm);
                        }
                    } else {
                        if is_legal(self.current_state, mm) && mm.spec_from() == position && (
                        exists|j: int| 0 <= j < i + 1 && all@[j] == mm) {
                            let j = choose|j: int| 0 <= j < i + 1 && all@[j] == mm;
                            if j < i {
                                assert(res0.contains(mm));
                            } else {
                                assert(mm == m);
                            }
                            assert(false);
                        }
                    }
                }
            }
            i = i + 1;
        }
        proof {
            assert forall|m: Move| #[trigger]
                result@.contains(m) <==> (is_legal(self.current_state, m) && m.spec_from()
                    == position) by {
                if is_legal(self.current_state, m) && m.spec_from() == position {
                    assert(all@.contains(m));
                    let j = choose|j: int| 0 <= j < all@.len() && all@[j] == m;
                    assert(0 <= j < n && all@[j] == m);
                }
            }
        }
        result
    }

    /// The legal moves of the current position, each listed once.
    pub fn generate_legal_moves(&self) -> (r: Vec<Move>)
        requires
            self.wf(),
        ensures
            forall|m: Move| #[trigger] r@.contains(m) <==> is_legal(self.current_state, m),
            forall|k1: int, k2: int| 0 <= k1 < k2 < r@.len() ==> r@[k1] != r@[k2],
    {
        let provider = MoveProvider::new();
        provider.legal_moves(&self.current_state)
    }

    /// Plays `m` when it is legal here and the clocks leave room; refuses it
    /// otherwise and leaves the game unchanged.
    pub fn make_move(&mut self, m: Move) -> (r: Option<GameError>)
        requires
            old(self).wf(),
        ensures
            (r is None) <==> (is_legal(old(self).current_state, m) && old(self).current_state.ply
                < 0xfffe && old(self).current_state.half_move_clock < 0xfffe),
            r matches Option::Some(e) ==> e is InvalidMoveError && *final(self) == *old(self),
            r is None ==> {
                &&& final(self).current_state == crate::board_state::spec_make_move(
                    old(self).current_state,
                    m,
                )
                &&& final(self).wf()
                &&& final(self).move_history@ == old(self).move_history@.push(
                    (old(self).current_state, m),
                )
                &&& final(self).current_state.color_on_move == old(
                    self,
                ).current_state.color_on_move.spec_inverse()
                &&& final(self).current_state.ply == old(self).current_state.ply + 1
                &&& (old(self).current_state.kings_ok() ==> final(self).current_state.kings_ok())
                &&& final(self).result == old(self).result
                &&& final(self).initial_state == old(self).initial_state
            },
    {
        if self.current_state.ply >= 0xfffe || self.current_state.half_move_clock >= 0xfffe {
            return Option::Some(GameError::InvalidMoveError);
        }
        let provider = MoveProvider::new();
        let legal = provider.legal_moves(&self.current_state);
        if !crate::move_provider::contains_move(&legal, m) {
            return Option::Some(GameError::InvalidMoveError);
        }
        proof {
            assert(legal@.contains(m));
        }
        proof {
            crate::move_generator::lemma_pseudo_legal_can_apply(self.current_state, m);
        }
        let next = self.current_state.make_move(m);
        self.move_history.push((self.current_state, m));
        self.current_state = next;
        Option::None
    }
}

} // verus!
