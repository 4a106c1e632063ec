//! Move choosers. `Minimax` searches the game tree to a fixed depth with
//! alpha-beta pruning, White maximizing and Black minimizing. `OpenAi` holds
//! the key for an outside move-suggestion service and validates the move
//! strings that come back; the network call itself lives outside the library.

use vstd::prelude::*;
use vstd::string::StrSliceExecFns;
use vstd::string::StringExecFns;
use crate::board_state::BoardState;
use crate::color::Color;
use crate::chess_move::Move;
use crate::error::GameError;
use crate::evaluator::Evaluator;
use crate::evaluator::spec_evaluate;
use crate::attacks::spec_attacks_of;
use crate::move_provider::MoveProvider;
use crate::move_provider::is_legal;
use crate::move_provider::spec_minimax;
use crate::piece::Piece;
use crate::square::Square;

verus! {

pub const SCORE_MAX: i32 = 500000;

pub const SCORE_MIN: i32 = -500000;

#[derive(Clone, Debug)]
pub struct Minimax {
    pub evaluator: Evaluator,
    pub processed_states_counter: u64,
    pub max_depth: usize,
}

impl Minimax {
    pub fn new(evaluator: Evaluator, max_depth: usize) -> (r: Self)
        ensures
            r.max_depth == max_depth,
            r.processed_states_counter == 0,
    {
        Minimax { evaluator, processed_states_counter: 0, max_depth }
    }

    /// The minimizing node: Black to move, choosing the smallest reply value.
    /// At depth zero it is the static score; with no legal move it is the
    /// mate or stalemate sentinel. The result is fail-soft sound against the
    /// minimax value: exact inside the window, an upper bound at or below
    /// `alpha`, a lower bound at or above `beta`.
    #[verifier::rlimit(100)]
    fn min(&mut self, board_state: &BoardState, depth: usize, alpha: i32, beta: i32) -> (r: i32)
        requires
            board_state.wf_boards(),
            board_state.ply + depth < 0xffff,
            board_state.half_move_clock + depth < 0xffff,
            board_state.color_on_move == Color::Black,
            SCORE_MIN <= alpha,
            beta <= SCORE_MAX,
            alpha < beta,
        ensures
            SCORE_MIN <= r <= SCORE_MAX,
            depth == 0 ==> r == spec_evaluate(*board_state),
            depth > 0 && (forall|m: Move| !is_legal(*board_state, m)) ==> r == (if spec_attacks_of(
                *board_state,
                board_state.color_on_move.spec_inverse(),
            ) & board_state.spec_kind_bb(board_state.color_on_move, Piece::King) != 0 {
                SCORE_MAX as int
            } else {
                0int
            }),
            r <= alpha ==> spec_minimax(*board_state, depth as nat) <= r,
            r >= beta ==> spec_minimax(*board_state, depth as nat) >= r,
            alpha < r < beta ==> r == spec_minimax(*board_state, depth as nat),
        decreases depth,
    {
        let ghost st = *board_state;
        if depth == 0 {
            if self.processed_states_counter < 0xffffffffffffffff {
                self.processed_states_counter = self.processed_states_counter + 1;
            }
            let none: Vec<Move> = Vec::new();
            return self.evaluator.evaluate(board_state, &none, depth);
        }
        let provider = MoveProvider::new();
        let legal_moves = provider.legal_moves(board_state);
        if legal_moves.len() == 0 {
            proof {
                assert forall|m: Move| !is_legal(*board_state, m) by {
                    assert(!legal_moves@.contains(m));
                }
            }
            // mate is the best outcome for the side not on move; stalemate a draw
            let own_king = board_state.get_king(board_state.on_move());
            if provider.is_under_attack(board_state, board_state.on_move().inverse(), own_king) {
                return SCORE_MAX;
            }
            return 0;
        }
        proof {
            assert(legal_moves@.contains(legal_moves@[0]));
            crate::move_provider::lemma_minimax_char(st, depth as nat);
        }
        let ghost val = spec_minimax(st, depth as nat);
        let mut worst = SCORE_MAX;
        let mut cur_beta = beta;
        let n = legal_moves.len();
        let mut i: usize = 0;
        while i < n
            invariant
                i <= n,
                n == legal_moves@.len(),
                board_state.wf_boards(),
                board_state.ply + depth < 0xffff,
                board_state.half_move_clock + depth < 0xffff,
                board_state.color_on_move == Color::Black,
                depth >= 1,
                st == *board_state,
                val == spec_minimax(st, depth as nat),
                SCORE_MIN <= alpha,
                beta <= SCORE_MAX,
                alpha < beta,
                SCORE_MIN <= worst <= SCORE_MAX,
                cur_beta == (if worst <= beta {
                    worst as int
                } else {
                    beta as int
                }),
                alpha < cur_beta,
                forall|m: Move| #[trigger] legal_moves@.contains(m) <==> is_legal(*board_state, m),
                forall|m: Move|
                    is_legal(st, m) ==> spec_minimax(
                        crate::board_state::spec_make_move(st, m),
                        (depth - 1) as nat,
                    ) >= val,
                exists|m: Move|
                    is_legal(st, m) && spec_minimax(
                        crate::board_state::spec_make_move(st, m),
                        (depth - 1) as nat,
                    ) == val,
                worst <= alpha || (forall|j: int|
                    0 <= j < i ==> spec_minimax(
                        crate::board_state::spec_make_move(st, #[trigger] legal_moves@[j]),
                        (depth - 1) as nat,
                    ) >= worst),
                worst >= beta || (exists|j: int|
                    0 <= j < i && spec_minimax(
                        crate::board_state::spec_make_move(st, #[trigger] legal_moves@[j]),
                        (depth - 1) as nat,
                    ) <= worst),
            decreases n - i,
        {
            let m = legal_moves[i];
            proof {
                assert(legal_moves@.contains(m));
                crate::move_generator::lemma_pseudo_legal_can_apply(*board_state, m);
            }
            let next_state = board_state.make_move(m);
            let current = self.max(&next_state, depth - 1, alpha, cur_beta);
            proof {
                assert(next_state == crate::board_state::spec_make_move(st, m));
            }
            if current <= worst {
                worst = current;
            }
            if current <= cur_beta {
                cur_beta = current;
            }
            if cur_beta <= alpha {
                proof {
                    assert(worst <= alpha);
                }
                return worst;
            }
            i = i + 1;
        }
        proof {
            if worst > alpha {
                let wm = choose|m: Move|
                    is_legal(st, m) && spec_minimax(
                        crate::board_state::spec_make_move(st, m),
                        (depth - 1) as nat,
                    ) == val;
                assert(legal_moves@.contains(wm));
                let wj = choose|j: int| 0 <= j < legal_moves@.len() && legal_moves@[j] == wm;
                assert(spec_minimax(
                    crate::board_state::spec_make_move(st, legal_moves@[wj]),
                    (depth - 1) as nat,
                ) >= worst);
                assert(val >= worst);
            }
            if worst < beta {
                let wj = choose|j: int|
                    0 <= j < n && spec_minimax(
                        crate::board_state::spec_make_move(st, legal_moves@[j]),
                        (depth - 1) as nat,
                    ) <= worst;
                assert(legal_moves@.contains(legal_moves@[wj]));
                assert(val <= worst);
            }
        }
        worst
    }

    /// The maximizing node, symmetric to `min`: White to move. The result is
    /// fail-soft sound against the minimax value: exact inside the window, an
    /// upper bound at or below `alpha`, a lower bound at or above `beta`.
    #[verifier::rlimit(100)]
    fn max(&mut self, board_state: &BoardState, depth: usize, alpha: i32, beta: i32) -> (r: i32)
        requires
            board_state.wf_boards(),
            board_state.ply + depth < 0xffff,
            board_state.half_move_clock + depth < 0xffff,
            board_state.color_on_move == Color::White,
            SCORE_MIN <= alpha,
            beta <= SCORE_MAX,
            alpha < beta,
        ensures
            SCORE_MIN <= r <= SCORE_MAX,
            depth == 0 ==> r == spec_evaluate(*board_state),
            depth > 0 && (forall|m: Move| !is_legal(*board_state, m)) ==> r == (if spec_attacks_of(
                *board_state,
                board_state.color_on_move.spec_inverse(),
            ) & board_state.spec_kind_bb(board_state.color_on_move, Piece::King) != 0 {
                SCORE_MIN as int
            } else {
                0int
            }),
            r <= alpha ==> spec_minimax(*board_state, depth as nat) <= r,
            r >= beta ==> spec_minimax(*board_state, depth as nat) >= r,
            alpha < r < beta ==> r == spec_minimax(*board_state, depth as nat),
        decreases depth,
    {
        let ghost st = *board_state;
        if depth == 0 {
            if self.processed_states_counter < 0xffffffffffffffff {
                self.processed_states_counter = self.processed_states_counter + 1;
            }
            let none: Vec<Move> = Vec::new();
            return self.evaluator.evaluate(board_state, &none, depth);
        }
        let provider = MoveProvider::new();
        let legal_moves = provider.legal_moves(board_state);
        if legal_moves.len() == 0 {
            proof {
                assert forall|m: Move| !is_legal(*board_state, m) by {
                    assert(!legal_moves@.contains(m));
                }
            }
            let own_king = board_state.get_king(board_state.on_move());
            if provider.is_under_attack(board_state, board_state.on_move().inverse(), own_king) {
                return SCORE_MIN;
            }
            return 0;
        }
        proof {
            assert(legal_moves@.contains(legal_moves@[0]));
            crate::move_provider::lemma_minimax_char(st, depth as nat);
        }
        let ghost val = spec_minimax(st, depth as nat);
        let mut best = SCORE_MIN;
        let mut cur_alpha = alpha;
        let n = legal_moves.len();
        let mut i: usize = 0;
        while i < n
            invariant
                i <= n,
                n == legal_moves@.len(),
                board_state.wf_boards(),
                board_state.ply + depth < 0xffff,
                board_state.half_move_clock + depth < 0xffff,
                board_state.color_on_move == Color::White,
                depth >= 1,
                st == *board_state,
                val == spec_minimax(st, depth as nat),
                SCORE_MIN <= alpha,
                beta <= SCORE_MAX,
                alpha < beta,
                SCORE_MIN <= best <= SCORE_MAX,
                cur_alpha == (if best >= alpha {
                    best as int
                } else {
                    alpha as int
                }),
                cur_alpha < beta,
                forall|m: Move| #[trigger] legal_moves@.contains(m) <==> is_legal(*board_state, m),
                forall|m: Move|
                    is_legal(st, m) ==> spec_minimax(
                        crate::board_state::spec_make_move(st, m),
                        (depth - 1) as nat,
                    ) <= val,
                exists|m: Move|
                    is_legal(st, m) && spec_minimax(
                        crate::board_state::spec_make_move(st, m),
                        (depth - 1) as nat,
                    ) == val,
                best >= beta || (forall|j: int|
                    0 <= j < i ==> spec_minimax(
                        crate::board_state::spec_make_move(st, #[trigger] legal_moves@[j]),
                        (depth - 1) as nat,
                    ) <= best),
                best <= alpha || (exists|j: int|
                    0 <= j < i && spec_minimax(
                        crate::board_state::spec_make_move(st, #[trigger] legal_moves@[j]),
                        (depth - 1) as nat,
                    ) >= best),
            decreases n - i,
        {
            let m = legal_moves[i];
            proof {
                assert(legal_moves@.contains(m));
                crate::move_generator::lemma_pseudo_legal_can_apply(*board_state, m);
            }
            let next_state = board_state.make_move(m);
            let current = self.min(&next_state, depth - 1, cur_alpha, beta);
            proof {
                assert(next_state == crate::board_state::spec_make_move(st, m));
            }
            if current >= best {
                best = current;
            }
            if current >= cur_alpha {
                cur_alpha = current;
            }
            if cur_alpha >= beta {
                proof {
                    assert(best >= beta);
                }
                return best;
            }
            i = i + 1;
        }
        proof {
            if best < beta {
                let wm = choose|m: Move|
                    is_legal(st, m) && spec_minimax(
                        crate::board_state::spec_make_move(st, m),
                        (depth - 1) as nat,
                    ) == val;
                assert(legal_moves@.contains(wm));
                let wj = choose|j: int| 0 <= j < legal_moves@.len() && legal_moves@[j] == wm;
                assert(spec_minimax(
                    crate::board_state::spec_make_move(st, legal_moves@[wj]),
                    (depth - 1) as nat,
                ) <= best);
                assert(val <= best);
            }
            if best > alpha {
                let wj = choose|j: int|
                    0 <= j < n && spec_minimax(
                        crate::board_state::spec_make_move(st, legal_moves@[j]),
                        (depth - 1) as nat,
                    ) >= best;
                assert(legal_moves@.contains(legal_moves@[wj]));
                assert(val >= best);
            }
        }
        best
    }

    /// Searches every legal move to the configured depth and returns one
    /// with the best value for the side on move: a move attaining the
    /// fixed-depth minimax optimum whenever a legal move exists, and
    /// `NoPossibleMoveError` exactly when none does. The root searches every
    /// move over the full window, so pruning never hides the optimum.
    #[verifier::rlimit(100)]
    pub fn find_optimal_move(&mut self, board: &BoardState) -> (r: Result<Move, GameError>)
        requires
            board.wf_boards(),
            1 <= self.max_depth,
            board.ply + self.max_depth < 0xffff,
            board.half_move_clock + self.max_depth < 0xffff,
        ensures
            (r is Err) <==> (forall|m: Move| !is_legal(*board, m)),
            r matches Err(e) ==> e is NoPossibleMoveError,
            r matches Ok(m) ==> is_legal(*board, m),
            r matches Ok(m) ==> (forall|m2: Move|
                is_legal(*board, m2) ==> {
                    let v2 = spec_minimax(
                        crate::board_state::spec_make_move(*board, m2),
                        (old(self).max_depth - 1) as nat,
                    );
                    let v = spec_minimax(
                        crate::board_state::spec_make_move(*board, m),
                        (old(self).max_depth - 1) as nat,
                    );
                    &&& (board.color_on_move == Color::White ==> v2 <= v)
                    &&& (board.color_on_move == Color::Black ==> v2 >= v)
                }),
            old(self).max_depth == 1 ==> (r matches Ok(m) ==> (forall|m2: Move|
                is_legal(*board, m2) ==> {
                    let v2 = spec_evaluate(crate::board_state::spec_make_move(*board, m2));
                    let v = spec_evaluate(crate::board_state::spec_make_move(*board, m));
                    &&& (board.color_on_move == Color::White ==> v2 <= v)
                    &&& (board.color_on_move == Color::Black ==> v2 >= v)
                })),
    {
        let provider = MoveProvider::new();
        let starting_moves = provider.legal_moves(board);
        let depth = self.max_depth;
        let n = starting_moves.len();
        if n == 0 {
            proof {
                assert forall|m: Move| !is_legal(*board, m) by {
                    assert(!starting_moves@.contains(m));
                }
            }
            return Result::Err(GameError::NoPossibleMoveError);
        }
        let white = matches!(board.color_on_move, Color::White);
        let mut best: i32 = SCORE_MIN;
        let mut worst: i32 = SCORE_MAX;
        let mut best_move: Option<Move> = Option::None;
        let mut i: usize = 0;
        while i < n
            invariant
                i <= n,
                n == starting_moves@.len(),
                n > 0,
                board.wf_boards(),
                depth >= 1,
                depth == old(self).max_depth,
                board.ply + depth < 0xffff,
                board.half_move_clock + depth < 0xffff,
                white == (board.color_on_move == Color::White),
                i > 0 ==> best_move is Some,
                i == 0 ==> best_move is None,
                best_move matches Option::Some(m) ==> is_legal(*board, m),
                forall|m: Move| #[trigger] starting_moves@.contains(m) <==> is_legal(*board, m),
                forall|j: int|
                    0 <= j < i ==> {
                        let vj = spec_minimax(
                            crate::board_state::spec_make_move(
                                *board,
                                #[trigger] starting_moves@[j],
                            ),
                            (depth - 1) as nat,
                        );
                        &&& (white ==> vj <= best)
                        &&& (!white ==> vj >= worst)
                    },
                i > 0 && white ==> (best_move matches Option::Some(bm) && best == spec_minimax(
                    crate::board_state::spec_make_move(*board, bm),
                    (depth - 1) as nat,
                )),
                i > 0 && !white ==> (best_move matches Option::Some(bm) && worst == spec_minimax(
                    crate::board_state::spec_make_move(*board, bm),
                    (depth - 1) as nat,
                )),
            decreases n - i,
        {
            let m = starting_moves[i];
            proof {
                assert(starting_moves@.contains(m));
                crate::move_generator::lemma_pseudo_legal_can_apply(*board, m);
            }
            let next_state = board.make_move(m);
            let current = if white {
                self.min(&next_state, depth - 1, SCORE_MIN, SCORE_MAX)
            } else {
                self.max(&next_state, depth - 1, SCORE_MIN, SCORE_MAX)
            };
            proof {
                assert(next_state == crate::board_state::spec_make_move(*board, m));
                crate::move_provider::lemma_minimax_bounds(next_state, (depth - 1) as nat);
                assert(current == spec_minimax(next_state, (depth - 1) as nat));
            }
            if white && (current >= best || best_move.is_none()) {
                best_move = Option::Some(m);
                best = current;
            } else if !white && (current <= worst || best_move.is_none()) {
                best_move = Option::Some(m);
                worst = current;
            }
            i = i + 1;
        }
        proof {
            assert forall|m2: Move| is_legal(*board, m2) implies {
                let v2 = spec_minimax(
                    crate::board_state::spec_make_move(*board, m2),
                    (depth - 1) as nat,
                );
                &&& (white ==> v2 <= best)
                &&& (!white ==> v2 >= worst)
            } by {
                assert(starting_moves@.contains(m2));
                let j = choose|j: int| 0 <= j < starting_moves@.len() && starting_moves@[j] == m2;
                assert(0 <= j < n && starting_moves@[j] == m2);
            }
        }
        match best_move {
            Option::Some(m) => Result::Ok(m),
            Option::None => Result::Err(GameError::NoPossibleMoveError),
        }
    }
}

/// The two squares a move string names: the first two characters and, in a
/// four-character string, the next two, or in a five-character string, the
/// two after a one-character separator.
pub open spec fn spec_move_text_squares(s: Seq<char>) -> Option<(Square, Square)> {
    if s.len() == 4 {
        match (Square::spec_from_chars(s.subrange(0, 2)), Square::spec_from_chars(
            s.subrange(2, 4),
        )) {
            (Option::Some(a), Option::Some(b)) => Option::Some((a, b)),
            _ => Option::None,
        }
    } else if s.len() == 5 {
        match (Square::spec_from_chars(s.subrange(0, 2)), Square::spec_from_chars(
            s.subrange(3, 5),
        )) {
            (Option::Some(a), Option::Some(b)) => Option::Some((a, b)),
            _ => Option::None,
        }
    } else {
        Option::None
    }
}

/// The response names two squares in the accepted shape and the list holds a
/// move between them.
pub open spec fn spec_response_accepted(legal: Seq<Move>, response: &str) -> bool {
    &&& vstd::string::is_ascii(response)
    &&& spec_move_text_squares(response@) matches Option::Some((f, t)) && (exists|m: Move|
        #[trigger] legal.contains(m) && m.spec_from() == f.index && m.spec_to() == t.index)
}

#[derive(Clone, Debug)]
pub struct OpenAi {
    pub api_key: String,
}

impl OpenAi {
    pub fn new(api_key: &str) -> (r: Self)
        ensures
            r.api_key@ == api_key@,
    {
        OpenAi { api_key: api_key.to_owned() }
    }

    /// Splits a four- or five-character move string into its from- and
    /// to-square parts; anything else, or anything not seven-bit, is refused.
    pub fn extract_response(s: &str) -> (r: Option<(&str, &str)>)
        ensures
            r matches Option::Some((a, b)) ==> vstd::string::is_ascii(s) && a@ == s@.subrange(0, 2)
                && (s@.len() == 4 ==> b@ == s@.subrange(2, 4)) && (s@.len() == 5 ==> b@
                == s@.subrange(3, 5)),
            (r is Some) <==> (vstd::string::is_ascii(s) && (s@.len() == 4 || s@.len() == 5)),
    {
        if !s.is_ascii() {
            return Option::None;
        }
        let len = s.unicode_len();
        if len == 4 {
            let a = s.substring_ascii(0, 2);
            let b = s.substring_ascii(2, 4);
            Option::Some((a, b))
        } else if len == 5 {
            let a = s.substring_ascii(0, 2);
            let b = s.substring_ascii(3, 5);
            Option::Some((a, b))
        } else {
            Option::None
        }
    }

    /// The legal move travelling from `from` to `to`, if the position has
    /// one; the move-suggestion error otherwise.
    pub fn create_move(board_state: &BoardState, from: u64, to: u64, res: &str) -> (r: Result<
        Move,
        GameError,
    >)
        requires
            board_state.wf_boards(),
            board_state.ply < 0xffff,
            board_state.half_move_clock < 0xffff,
        ensures
            r matches Ok(m) ==> is_legal(*board_state, m) && m.spec_from() == from && m.spec_to()
                == to,
            (r is Ok) <==> (exists|m: Move|
                #[trigger] is_legal(*board_state, m) && m.spec_from() == from && m.spec_to() == to),
            r matches Err(e) ==> e is OpenAiResponseError,
    {
        let provider = MoveProvider::new();
        let legal_moves = provider.legal_moves(board_state);
        match OpenAi::find_move_in(&legal_moves, from, to) {
            Option::Some(m) => {
                proof {
                    assert(legal_moves@.contains(m));
                }
                Result::Ok(m)
            },
            Option::None => {
                proof {
                    assert forall|m: Move|
                        !(is_legal(*board_state, m) && m.spec_from() == from && m.spec_to()
                            == to) by {
                        if is_legal(*board_state, m) {
                            assert(legal_moves@.contains(m));
                        }
                    }
                }
                Result::Err(GameError::OpenAiResponseError(res.to_owned()))
            },
        }
    }

    /// The first move of the list travelling from `from` to `to`, if any.
    pub fn find_move_in(legal_moves: &Vec<Move>, from: u64, to: u64) -> (r: Option<Move>)
        ensures
            r matches Option::Some(m) ==> legal_moves@.contains(m) && m.spec_from() == from
                && m.spec_to() == to,
            r is None ==> forall|m: Move| #[trigger]
                legal_moves@.contains(m) ==> !(m.spec_from() == from && m.spec_to() == to),
    {
        let n = legal_moves.len();
        let mut i: usize = 0;
        while i < n
            invariant
                i <= n,
                n == legal_moves@.len(),
                forall|j: int|
                    0 <= j < i ==> !((#[trigger] legal_moves@[j]).spec_from() == from
                        && legal_moves@[j].spec_to() == to),
            decreases n - i,
        {
            let m = legal_moves[i];
            if m.get_from().raw() == from && m.get_to().raw() == to {
                proof {
                    assert(legal_moves@.contains(m));
                }
                return Option::Some(m);
            }
            i = i + 1;
        }
        proof {
            assert forall|m: Move| #[trigger]
                legal_moves@.contains(m) implies !(m.spec_from() == from && m.spec_to()
                == to) by {
                let j = choose|j: int| 0 <= j < legal_moves@.len() && legal_moves@[j] == m;
                assert(!((legal_moves@[j]).spec_from() == from && legal_moves@[j].spec_to() == to));
            }
        }
        Option::None
    }

    /// Turns one response string into a move of the given list, or says why
    /// it cannot: the single decision step of the retry loop around the
    /// outside move-suggestion service. It succeeds exactly when the string
    /// names two squares in the accepted four- or five-character shape and
    /// the list holds a move between them.
    pub fn validate_response(&self, legal_moves: &Vec<Move>, response: &str) -> (r: Result<
        Move,
        GameError,
    >)
        ensures
            (r is Ok) <==> spec_response_accepted(legal_moves@, response),
            r matches Ok(m) ==> ({
                &&& legal_moves@.contains(m)
                &&& spec_move_text_squares(response@) matches Option::Some((f, t)) && m.spec_from()
                    == f.index && m.spec_to() == t.index
            }),
            r matches Err(e) ==> e is OpenAiResponseError,
    {
        match OpenAi::extract_response(response) {
            Option::Some((sq_from, sq_to)) => {
                let from = Square::from_string(sq_from);
                let to = Square::from_string(sq_to);
                match (from, to) {
                    (Option::Some(fsq), Option::Some(tsq)) => {
                        match OpenAi::find_move_in(legal_moves, fsq.raw(), tsq.raw()) {
                            Option::Some(m) => Result::Ok(m),
                            Option::None => Result::Err(
                                GameError::OpenAiResponseError(response.to_owned()),
                            ),
                        }
                    },
                    _ => Result::Err(GameError::OpenAiResponseError(response.to_owned())),
                }
            },
            Option::None => Result::Err(GameError::OpenAiResponseError(response.to_owned())),
        }
    }
}

} // verus!
