//! The move provider: attack queries across all piece kinds, the pseudo-legal
//! move list, and the legality filter. A pseudo-legal move is legal exactly
//! when, after playing it, the mover's king is not attacked.

use vstd::prelude::*;
use crate::bits::bit64;
use crate::bitboard::BitBoard;
use crate::board_state::BoardState;
use crate::color::Color;
use crate::chess_move::Move;
use crate::move_type::MoveType;
use crate::piece::Piece;
use crate::attacks::spec_attacks_of;
use crate::attacks::kind_attacks_below;
use crate::attacks::pawn_attacks_of;
use crate::attacks::compute_attacks_of;
use crate::move_generator::DiagonalMoveGenerator;
use crate::move_generator::LineMoveGenerator;
use crate::move_generator::KnightJumpMoveGenerator;
use crate::move_generator::KingMoveGenerator;
use crate::move_generator::PawnMoveGenerator;
use crate::move_generator::is_pseudo_legal;
use crate::move_generator::pl_diag;
use crate::move_generator::pl_line;
use crate::move_generator::pl_knight;
use crate::move_generator::pl_king;
use crate::move_generator::pl_pawn;
use crate::move_generator::lemma_pl_split;
use crate::move_generator::lemma_pseudo_legal_can_apply;

verus! {

/// Whether the king of the side that just moved stands attacked after `m`,
/// stated over the boards that `make_move` produces.
pub open spec fn spec_in_check_after(s: BoardState, m: Move) -> bool {
    let e = m.spec_color().spec_inverse();
    let ec = e.spec_index() as int;
    let mc = m.spec_color().spec_index() as int;
    let nocc = s.spec_new_color_bb(m, 0) | s.spec_new_color_bb(m, 1);
    let attacks = kind_attacks_below(
        Piece::Rook,
        e,
        s.spec_new_piece_bb(m, ec, 2) | s.spec_new_piece_bb(m, ec, 1),
        nocc,
        64,
    ) | kind_attacks_below(
        Piece::Bishop,
        e,
        s.spec_new_piece_bb(m, ec, 3) | s.spec_new_piece_bb(m, ec, 1),
        nocc,
        64,
    ) | pawn_attacks_of(e, s.spec_new_piece_bb(m, ec, 5)) | kind_attacks_below(
        Piece::Knight,
        e,
        s.spec_new_piece_bb(m, ec, 4),
        nocc,
        64,
    ) | kind_attacks_below(Piece::King, e, s.spec_new_piece_bb(m, ec, 0), nocc, 64);
    attacks & s.spec_new_piece_bb(m, mc, 0) != 0
}

/// A legal move: pseudo-legal, and the mover's king is not attacked after it.
pub open spec fn is_legal(s: BoardState, m: Move) -> bool {
    is_pseudo_legal(s, m) && !spec_in_check_after(s, m)
}

/// The king of the side that is not on move stands attacked by the side on
/// move.
pub open spec fn spec_king_attacked(s: BoardState) -> bool {
    spec_attacks_of(s, s.color_on_move) & s.spec_kind_bb(
        s.color_on_move.spec_inverse(),
        Piece::King,
    ) != 0
}

/// Whether the list holds this exact move.
pub fn contains_move(v: &Vec<Move>, m: Move) -> (r: bool)
    ensures
        r == v@.contains(m),
{
    let n = v.len();
    let mut i: usize = 0;
    while i < n
        invariant
            i <= n,
            n == v@.len(),
            forall|j: int| 0 <= j < i ==> v@[j] != m,
        decreases n - i,
    {
        if v[i].bit_board.raw() == m.bit_board.raw() {
            proof {
                assert(v@[i as int] == m);
            }
            return true;
        }
        i = i + 1;
    }
    proof {
        if v@.contains(m) {
            let j = choose|j: int| 0 <= j < v@.len() && v@[j] == m;
            assert(false);
        }
    }
    false
}

pub struct MoveProvider {
    pub king_move_generator: KingMoveGenerator,
    pub pawn_move_generator: PawnMoveGenerator,
    pub knight_jump_move_generator: KnightJumpMoveGenerator,
    pub diagonal_move_generator: DiagonalMoveGenerator,
    pub line_move_generator: LineMoveGenerator,
}

impl MoveProvider {
    pub open spec fn wf(self) -> bool {
        &&& self.king_move_generator.wf()
        &&& self.pawn_move_generator.wf()
        &&& self.knight_jump_move_generator.wf()
    }

    pub fn new() -> (r: Self)
        ensures
            r.wf(),
    {
        MoveProvider {
            king_move_generator: KingMoveGenerator::new(),
            pawn_move_generator: PawnMoveGenerator::new(),
            knight_jump_move_generator: KnightJumpMoveGenerator::new(),
            diagonal_move_generator: DiagonalMoveGenerator::new(),
            line_move_generator: LineMoveGenerator::new(),
        }
    }

    /// The union of the squares attacked by `color`.
    pub fn attacks_for_color(&self, board_state: &BoardState, color: Color) -> (r: BitBoard)
        ensures
            r.value == spec_attacks_of(*board_state, color),
    {
        self.line_move_generator.generate_attacks(board_state, color).or(
            self.diagonal_move_generator.generate_attacks(board_state, color),
        ).or(self.pawn_move_generator.generate_attacks(board_state, color)).or(
            self.knight_jump_move_generator.generate_attacks(board_state, color),
        ).or(self.king_move_generator.generate_attacks(board_state, color))
    }

    /// Appends every pseudo-legal move of the side on move to `out`.
    pub fn for_each_move(&self, board: &BoardState, out: &mut Vec<Move>)
        requires
            self.wf(),
            board.wf_boards(),
        ensures
            final(out)@.len() >= old(out)@.len(),
            forall|i: int| 0 <= i < old(out)@.len() ==> final(out)@[i] == old(out)@[i],
            forall|m: Move| #[trigger]
                final(out)@.contains(m) <==> (old(out)@.contains(m) || is_pseudo_legal(*board, m)),
    {
        self.line_move_generator.generate_moves(board, out);
        self.diagonal_move_generator.generate_moves(board, out);
        self.pawn_move_generator.generate_moves(board, out);
        self.knight_jump_move_generator.generate_moves(board, out);
        self.king_move_generator.generate_moves(board, out);
        proof {
            assert forall|m: Move| #[trigger]
                final(out)@.contains(m) <==> (old(out)@.contains(m) || is_pseudo_legal(
                    *board,
                    m,
                )) by {
                if is_pseudo_legal(*board, m) {
                    lemma_pl_split(*board, m);
                }
            }
        }
    }

    /// The legal moves of the side on move: exactly the pseudo-legal moves
    /// after which the mover's king is not attacked, each listed once.
    pub fn legal_moves(&self, board: &BoardState) -> (r: Vec<Move>)
        requires
            self.wf(),
            board.wf_boards(),
            board.ply < 0xffff,
            board.half_move_clock < 0xffff,
        ensures
            forall|m: Move| #[trigger] r@.contains(m) <==> is_legal(*board, m),
            forall|k1: int, k2: int| 0 <= k1 < k2 < r@.len() ==> r@[k1] != r@[k2],
    {
        let mut pseudo: Vec<Move> = Vec::new();
        self.for_each_move(board, &mut pseudo);
        let mut result: Vec<Move> = Vec::new();
        let n = pseudo.len();
        let mut i: usize = 0;
        while i < n
            invariant
                i <= n,
                n == pseudo@.len(),
                self.wf(),
                board.wf_boards(),
                board.ply < 0xffff,
                board.half_move_clock < 0xffff,
                forall|m: Move| #[trigger] pseudo@.contains(m) <==> is_pseudo_legal(*board, m),
                forall|m: Move| #[trigger]
                    result@.contains(m) <==> (is_legal(*board, m) && (exists|j: int|
                        0 <= j < i && pseudo@[j] == m)),
                forall|k1: int, k2: int| 0 <= k1 < k2 < result@.len() ==> result@[k1] != result@[k2],
            decreases n - i,
        {
            let ghost res0 = result@;
            let m = pseudo[i];
            proof {
                assert(pseudo@.contains(m));
                lemma_pseudo_legal_can_apply(*board, m);
            }
            let next = board.make_move(m);
            let in_check = self.is_king_under_attack(&next);
            let already = contains_move(&result, m);
            proof {
                assert(spec_king_attacked(next) == spec_in_check_after(*board, m));
            }
            if !in_check && !already {
                result.push(m);
                proof {
                    assert forall|mm: Move| #[trigger]
                        result@.contains(mm) <==> (res0.contains(mm) || mm == m) by {
                        vstd::seq_lib::lemma_seq_contains_after_push(res0, m, mm);
                    }
                    assert forall|k1: int, k2: int|
                        0 <= k1 < k2 < result@.len() implies result@[k1] != result@[k2] by {
                        if k2 == result@.len() - 1 {
                            assert(result@[k1] == res0[k1]);
                            assert(res0.contains(res0[k1]));
                        }
                    }
                    assert forall|mm: Move| #[trigger]
                        result@.contains(mm) <==> (is_legal(*board, mm) && (exists|j: int|
                            0 <= j < i + 1 && pseudo@[j] == mm)) by {
                        if result@.contains(mm) {
                            if mm == m {
                                assert(pseudo@[i as int] == mm);
                            } else {
                                let j = choose|j: int| 0 <= j < i && pseudo@[j] == mm;
                                assert(0 <= j < i + 1 && pseudo@[j] == mm);
                            }
                        } else {
                            if is_legal(*board, mm) && (exists|j: int|
                                0 <= j < i + 1 && pseudo@[j] == mm) {
                                let j = choose|j: int| 0 <= j < i + 1 && pseudo@[j] == mm;
                                if j == i {
                                    assert(mm == m);
                                } else {
                                    assert(exists|j2: int| 0 <= j2 < i && pseudo@[j2] == mm);
                                }
                            }
                        }
                    }
                }
            } else {
                proof {
                    assert forall|mm: Move| #[trigger]
                        result@.contains(mm) <==> (is_legal(*board, mm) && (exists|j: int|
                            0 <= j < i + 1 && pseudo@[j] == mm)) by {
                        if !result@.contains(mm) && is_legal(*board, mm) && (exists|j: int|
                            0 <= j < i + 1 && pseudo@[j] == mm) {
                            let j = choose|j: int| 0 <= j < i + 1 && pseudo@[j] == mm;
                            if j == i {
                                assert(mm == m);
                                assert(!already && in_check);
                                assert(false);
                            } else {
                                assert(exists|j2: int| 0 <= j2 < i && pseudo@[j2] == mm);
                            }
                        }
                    }
                }
            }
            i = i + 1;
        }
        proof {
            assert forall|m: Move| #[trigger] result@.contains(m) <==> is_legal(*board, m) by {
                if is_legal(*board, m) {
                    assert(pseudo@.contains(m));
                    let j = choose|j: int| 0 <= j < pseudo@.len() && pseudo@[j] == m;
                    assert(0 <= j < n && pseudo@[j] == m);
                }
            }
        }
        result
    }

    /// Whether the king of the side that just moved stands attacked by the
    /// side now on move.
    pub fn is_king_under_attack(&self, board: &BoardState) -> (r: bool)
        ensures
            r == spec_king_attacked(*board),
    {
        let attacks = compute_attacks_of(board, board.on_move());
        let king = board.get_king(board.on_move().inverse());
        attacks & king.raw() != 0
    }

    /// Whether any square of `b` is attacked by `color`.
    pub fn is_under_attack(&self, board: &BoardState, color: Color, b: BitBoard) -> (r: bool)
        ensures
            r == (spec_attacks_of(*board, color) & b.value != 0),
    {
        let attacks = compute_attacks_of(board, color);
        attacks & b.raw() != 0
    }
}


/// The board square behind a cell of the ten-by-twelve mailbox, or minus one
/// for a cell off the board.
pub open spec fn spec_mailbox(idx: int) -> int {
    if 2 <= idx / 10 <= 9 && 1 <= idx % 10 <= 8 {
        (idx / 10 - 2) * 8 + (idx % 10 - 1)
    } else {
        -1
    }
}

fn mailbox(idx: i32) -> (r: i32)
    requires
        0 <= idx < 120,
    ensures
        r == spec_mailbox(idx as int),
        r == -1 || 0 <= r < 64,
{
    let row = idx / 10;
    let col = idx % 10;
    if 2 <= row && row <= 9 && 1 <= col && col <= 8 {
        (row - 2) * 8 + (col - 1)
    } else {
        -1
    }
}

fn mailbox64(sq: i32) -> (r: i32)
    requires
        0 <= sq < 64,
    ensures
        r == 21 + (sq as int / 8) * 10 + (sq as int % 8),
        21 <= r <= 98,
{
    21 + (sq / 8) * 10 + (sq % 8)
}

/// The fixed-depth minimax value of a position: the static score at depth
/// zero, the mate or stalemate sentinel where no legal move exists, and
/// otherwise the best child value for the side on move, White maximizing.
pub open spec fn spec_minimax(s: BoardState, depth: nat) -> int
    decreases depth, 0x400001int,
{
    if depth == 0 {
        crate::evaluator::spec_evaluate(s)
    } else if forall|m: Move| !is_legal(s, m) {
        if spec_attacks_of(s, s.color_on_move.spec_inverse()) & s.spec_kind_bb(
            s.color_on_move,
            Piece::King,
        ) != 0 {
            if s.color_on_move == Color::White {
                -500000
            } else {
                500000
            }
        } else {
            0
        }
    } else {
        spec_best_over(s, depth, 0x400000)
    }
}

/// The best child value over the legal moves whose packed words lie below
/// `n`, starting from the identity of the side's fold.
pub open spec fn spec_best_over(s: BoardState, depth: nat, n: nat) -> int
    decreases depth, n,
{
    if n == 0 || depth == 0 {
        if s.color_on_move == Color::White {
            -500000
        } else {
            500000
        }
    } else {
        let m = Move { bit_board: crate::bitboard::BitBoard { value: (n - 1) as u64 } };
        let rest = spec_best_over(s, depth, (n - 1) as nat);
        if is_legal(s, m) {
            let v = spec_minimax(crate::board_state::spec_make_move(s, m), (depth - 1) as nat);
            if s.color_on_move == Color::White {
                if v >= rest {
                    v
                } else {
                    rest
                }
            } else {
                if v <= rest {
                    v
                } else {
                    rest
                }
            }
        } else {
            rest
        }
    }
}

/// What the fold over move words reaches: it dominates every legal move's
/// child value, and some legal move attains it whenever one exists below.
#[verifier::rlimit(80)]
proof fn lemma_best_over_char(s: BoardState, depth: nat, n: nat)
    requires
        depth >= 1,
        n <= 0x400000,
    ensures
        forall|m: Move|
            is_legal(s, m) && m.bit_board.value < n ==> (if s.color_on_move == Color::White {
                spec_minimax(crate::board_state::spec_make_move(s, m), (depth - 1) as nat)
                    <= spec_best_over(s, depth, n)
            } else {
                spec_minimax(crate::board_state::spec_make_move(s, m), (depth - 1) as nat)
                    >= spec_best_over(s, depth, n)
            }),
        (exists|m: Move| is_legal(s, m) && m.bit_board.value < n) ==> (exists|m: Move|
            is_legal(s, m) && m.bit_board.value < n && spec_minimax(
                crate::board_state::spec_make_move(s, m),
                (depth - 1) as nat,
            ) == spec_best_over(s, depth, n)),
    decreases n,
{
    if n > 0 {
        lemma_best_over_char(s, depth, (n - 1) as nat);
        let mn = Move { bit_board: crate::bitboard::BitBoard { value: (n - 1) as u64 } };
        assert forall|m: Move| is_legal(s, m) && m.bit_board.value < n implies (if s.color_on_move
            == Color::White {
            spec_minimax(crate::board_state::spec_make_move(s, m), (depth - 1) as nat)
                <= spec_best_over(s, depth, n)
        } else {
            spec_minimax(crate::board_state::spec_make_move(s, m), (depth - 1) as nat)
                >= spec_best_over(s, depth, n)
        }) by {
            if m.bit_board.value == n - 1 {
                assert(m == mn);
            }
        }
        if exists|m: Move| is_legal(s, m) && m.bit_board.value < n {
            let outer = choose|m: Move| is_legal(s, m) && m.bit_board.value < n;
            if is_legal(s, mn) {
                lemma_minimax_bounds(
                    crate::board_state::spec_make_move(s, mn),
                    (depth - 1) as nat,
                );
                let v = spec_minimax(crate::board_state::spec_make_move(s, mn), (depth - 1) as nat);
                let rest = spec_best_over(s, depth, (n - 1) as nat);
                if exists|m: Move| is_legal(s, m) && m.bit_board.value < n - 1 {
                    let w = choose|m: Move|
                        is_legal(s, m) && m.bit_board.value < n - 1 && spec_minimax(
                            crate::board_state::spec_make_move(s, m),
                            (depth - 1) as nat,
                        ) == rest;
                    if s.color_on_move == Color::White {
                        if v >= rest {
                            assert(is_legal(s, mn) && mn.bit_board.value < n && spec_minimax(
                                crate::board_state::spec_make_move(s, mn),
                                (depth - 1) as nat,
                            ) == spec_best_over(s, depth, n));
                        } else {
                            assert(is_legal(s, w) && w.bit_board.value < n && spec_minimax(
                                crate::board_state::spec_make_move(s, w),
                                (depth - 1) as nat,
                            ) == spec_best_over(s, depth, n));
                        }
                    } else {
                        if v <= rest {
                            assert(is_legal(s, mn) && mn.bit_board.value < n && spec_minimax(
                                crate::board_state::spec_make_move(s, mn),
                                (depth - 1) as nat,
                            ) == spec_best_over(s, depth, n));
                        } else {
                            assert(is_legal(s, w) && w.bit_board.value < n && spec_minimax(
                                crate::board_state::spec_make_move(s, w),
                                (depth - 1) as nat,
                            ) == spec_best_over(s, depth, n));
                        }
                    }
                } else {
                    lemma_best_over_empty(s, depth, (n - 1) as nat);
                    assert(is_legal(s, mn) && mn.bit_board.value < n && spec_minimax(
                        crate::board_state::spec_make_move(s, mn),
                        (depth - 1) as nat,
                    ) == spec_best_over(s, depth, n));
                }
            } else {
                assert(outer.bit_board.value < n - 1) by {
                    if outer.bit_board.value == n - 1 {
                        assert(outer == mn);
                    }
                }
                let w = choose|m: Move|
                    is_legal(s, m) && m.bit_board.value < n - 1 && spec_minimax(
                        crate::board_state::spec_make_move(s, m),
                        (depth - 1) as nat,
                    ) == spec_best_over(s, depth, (n - 1) as nat);
                assert(is_legal(s, w) && w.bit_board.value < n && spec_minimax(
                    crate::board_state::spec_make_move(s, w),
                    (depth - 1) as nat,
                ) == spec_best_over(s, depth, n));
            }
        }
    }
}

/// The fold below `n` stays at its identity when no legal move's word lies
/// below `n`.
proof fn lemma_best_over_empty(s: BoardState, depth: nat, n: nat)
    requires
        depth >= 1,
        forall|m: Move| is_legal(s, m) ==> m.bit_board.value >= n,
    ensures
        spec_best_over(s, depth, n) == (if s.color_on_move == Color::White {
            -500000int
        } else {
            500000int
        }),
    decreases n,
{
    if n > 0 {
        let mn = Move { bit_board: crate::bitboard::BitBoard { value: (n - 1) as u64 } };
        assert(!is_legal(s, mn));
        lemma_best_over_empty(s, depth, (n - 1) as nat);
    }
}

/// Every legal move's packed word lies below the fold's bound, so the fold
/// over all words is the minimax value's move fold.
proof fn lemma_legal_word_bound(s: BoardState, m: Move)
    requires
        is_legal(s, m),
    ensures
        m.bit_board.value < 0x400000,
{
    let v = m.bit_board.value;
    assert(v >> 22 == 0 ==> v < 0x400000) by (bit_vector);
}

/// The minimax value stays within the sentinel bounds.
pub proof fn lemma_minimax_bounds(s: BoardState, depth: nat)
    ensures
        -500000 <= spec_minimax(s, depth) <= 500000,
    decreases depth, 0x400001int,
{
    if depth == 0 {
        crate::evaluator::lemma_evaluate_bounds(s);
    } else if forall|m: Move| !is_legal(s, m) {
    } else {
        lemma_best_over_bounds(s, depth, 0x400000);
    }
}

proof fn lemma_best_over_bounds(s: BoardState, depth: nat, n: nat)
    requires
        depth >= 1,
    ensures
        -500000 <= spec_best_over(s, depth, n) <= 500000,
    decreases depth, n,
{
    if n > 0 {
        lemma_best_over_bounds(s, depth, (n - 1) as nat);
        let m = Move { bit_board: crate::bitboard::BitBoard { value: (n - 1) as u64 } };
        if is_legal(s, m) {
            lemma_minimax_bounds(
                crate::board_state::spec_make_move(s, m),
                (depth - 1) as nat,
            );
        }
    }
}

/// The minimax value of a position with a legal move is dominated by and
/// attained over its legal moves.
pub proof fn lemma_minimax_char(s: BoardState, depth: nat)
    requires
        depth >= 1,
        exists|m: Move| is_legal(s, m),
    ensures
        forall|m: Move|
            is_legal(s, m) ==> (if s.color_on_move == Color::White {
                spec_minimax(crate::board_state::spec_make_move(s, m), (depth - 1) as nat)
                    <= spec_minimax(s, depth)
            } else {
                spec_minimax(crate::board_state::spec_make_move(s, m), (depth - 1) as nat)
                    >= spec_minimax(s, depth)
            }),
        exists|m: Move|
            is_legal(s, m) && spec_minimax(
                crate::board_state::spec_make_move(s, m),
                (depth - 1) as nat,
            ) == spec_minimax(s, depth),
{
    lemma_best_over_char(s, depth, 0x400000);
    let w = choose|m: Move| is_legal(s, m);
    lemma_legal_word_bound(s, w);
    assert forall|m: Move| is_legal(s, m) implies (if s.color_on_move == Color::White {
        spec_minimax(crate::board_state::spec_make_move(s, m), (depth - 1) as nat) <= spec_minimax(
            s,
            depth,
        )
    } else {
        spec_minimax(crate::board_state::spec_make_move(s, m), (depth - 1) as nat) >= spec_minimax(
            s,
            depth,
        )
    }) by {
        lemma_legal_word_bound(s, m);
    }
}

/// One mailbox offset `10*a + b` steps `a` ranks and `b` files: it reaches
/// the square displaced by exactly that much, or falls off the board.
proof fn lemma_mailbox_step(t: int, a: int, b: int)
    requires
        0 <= t < 64,
        -2 <= a <= 2,
        -2 <= b <= 2,
    ensures
        ({
            let r = spec_mailbox(21 + (t / 8) * 10 + t % 8 + (a * 10 + b));
            if 0 <= t / 8 + a < 8 && 0 <= t % 8 + b < 8 {
                r == t + a * 8 + b && r / 8 == t / 8 + a && r % 8 == t % 8 + b && 0 <= r < 64
            } else {
                r == -1
            }
        }),
{
    let idx = 21 + (t / 8) * 10 + t % 8 + (a * 10 + b);
    assert(idx == (2 + t / 8 + a) * 10 + (1 + t % 8 + b)) by (nonlinear_arith)
        requires
            idx == 21 + (t / 8) * 10 + t % 8 + (a * 10 + b),
    ;
    let row = 2 + t / 8 + a;
    let col = 1 + t % 8 + b;
    if 0 <= col <= 9 {
        assert(idx / 10 == row && idx % 10 == col) by (nonlinear_arith)
            requires
                idx == row * 10 + col && 0 <= col <= 9 && 0 <= row,
        ;
    } else if col == -1 {
        assert(idx / 10 == row - 1 && idx % 10 == 9) by (nonlinear_arith)
            requires
                idx == row * 10 - 1 && row >= 0,
        ;
    } else {
        assert(col == 10);
        assert(idx / 10 == row + 1 && idx % 10 == 0) by (nonlinear_arith)
            requires
                idx == row * 10 + 10 && row >= 0,
        ;
    }
    if 0 <= t / 8 + a < 8 && 0 <= t % 8 + b < 8 {
        let r = (row - 2) * 8 + (col - 1);
        assert(r == t + a * 8 + b) by (nonlinear_arith)
            requires
                r == (row - 2) * 8 + (col - 1) && row == 2 + t / 8 + a && col == 1 + t % 8 + b && t
                    == (t / 8) * 8 + t % 8,
        ;
        assert(r / 8 == t / 8 + a && r % 8 == t % 8 + b) by (nonlinear_arith)
            requires
                r == (row - 2) * 8 + (col - 1) && row == 2 + t / 8 + a && col == 1 + t % 8 + b && 0
                    <= t / 8 + a < 8 && 0 <= t % 8 + b < 8,
        ;
    }
}

/// How a lone piece moves, as a file and rank displacement from its square:
/// the shape every listed mailbox move has.
pub open spec fn spec_mailbox_pattern(p: Piece, c: Color, from: int, to: int) -> bool {
    let df = to % 8 - from % 8;
    let dr = to / 8 - from / 8;
    match p {
        Piece::King => (df != 0 || dr != 0) && -1 <= df <= 1 && -1 <= dr <= 1,
        Piece::Knight => df * df + dr * dr == 5,
        Piece::Rook => (df == 0) != (dr == 0),
        Piece::Bishop => df != 0 && (df == dr || df == -dr),
        Piece::Queen => (df != 0 || dr != 0) && (df == 0 || dr == 0 || df == dr || df == -dr),
        Piece::Pawn => match c {
            Color::White => (df == 0 && (dr == 1 || (dr == 2 && 8 <= from < 16))) || ((df == 1
                || df == -1) && dr == 1),
            Color::Black => (df == 0 && (dr == -1 || (dr == -2 && 48 <= from < 56))) || ((df == 1
                || df == -1) && dr == -1),
        },
        Piece::Empty => false,
    }
}

/// A move provider that walks the mailbox offsets of each piece and lists
/// every board-bounded step, without regard to occupancy.
pub struct PreGeneratedMoveProvider {
    pub cached_moves: Vec<Vec<Vec<Move>>>,
}

/// Every move of the list starts on `position`, carries the given piece and
/// color, and goes to a board square that piece could reach standing alone.
pub open spec fn moves_shaped(r: Seq<Move>, position: u64, piece: Piece, c: Color) -> bool {
    forall|k: int|
        0 <= k < r.len() ==> (#[trigger] r[k]).spec_from() == position && r[k].spec_piece() == piece
            && r[k].spec_color() == c && r[k].spec_to() < 64 && spec_mailbox_pattern(
            piece,
            c,
            position as int,
            r[k].spec_to() as int,
        )
}

/// Appends the move one mailbox step away, when it stays on the board.
fn emit_mailbox_step(
    vec: &mut Vec<Move>,
    mt: MoveType,
    position: usize,
    piece: Piece,
    color: Color,
    a: i32,
    b: i32,
) -> (stepped: bool)
    requires
        position < 64,
        piece != Piece::Empty,
        mt == MoveType::PawnJump || mt == MoveType::EnPassant || mt == MoveType::Promotion
            ==> piece == Piece::Pawn,
        mt == MoveType::Castling ==> piece == Piece::King,
        mt != MoveType::Promotion,
        -2 <= a <= 2,
        -2 <= b <= 2,
        piece == Piece::King ==> (a != 0 || b != 0) && -1 <= a <= 1 && -1 <= b <= 1,
        piece == Piece::Knight ==> a * a + b * b == 5,
        piece == Piece::Pawn ==> (-1 <= b <= 1 && (color == Color::White ==> (a == 1 || (a == 2
            && b == 0 && 8 <= position < 16))) && (color == Color::Black ==> (a == -1 || (a == -2
            && b == 0 && 48 <= position < 56)))),
        piece == Piece::Queen || piece == Piece::Rook || piece == Piece::Bishop ==> false,
        moves_shaped(old(vec)@, position as u64, piece, color),
    ensures
        final(vec)@.len() >= old(vec)@.len(),
        forall|i: int| 0 <= i < old(vec)@.len() ==> final(vec)@[i] == old(vec)@[i],
        moves_shaped(final(vec)@, position as u64, piece, color),
        stepped == (0 <= position as int / 8 + a < 8 && 0 <= position as int % 8 + b < 8),
{
    proof {
        lemma_mailbox_step(position as int, a as int, b as int);
    }
    let base = mailbox64(position as i32);
    let t = mailbox(base + (a * 10 + b));
    if t != -1 {
        proof {
            assert(t as int % 8 - position as int % 8 == b && t as int / 8 - position as int / 8
                == a);
            assert(spec_mailbox_pattern(piece, color, position as int, t as int));
        }
        let ghost pre = vec@;
        vec.push(Move::new(mt, position as u64, t as u64, piece, color, Piece::Empty));
        proof {
            assert forall|k: int|
                0 <= k < vec@.len() implies (#[trigger] vec@[k]).spec_from() == position
                && vec@[k].spec_piece() == piece && vec@[k].spec_color() == color
                && vec@[k].spec_to() < 64 && spec_mailbox_pattern(
                piece,
                color,
                position as int,
                vec@[k].spec_to() as int,
            ) by {
                if k < pre.len() {
                    assert(vec@[k] == pre[k]);
                }
            }
        }
        true
    } else {
        false
    }
}

/// Appends the whole ray of moves in direction (`a` ranks, `b` files) per
/// step, walking until the board's edge.
fn emit_mailbox_ray(
    vec: &mut Vec<Move>,
    position: usize,
    piece: Piece,
    color: Color,
    a: i32,
    b: i32,
)
    requires
        position < 64,
        piece == Piece::Queen || piece == Piece::Rook || piece == Piece::Bishop,
        -1 <= a <= 1,
        -1 <= b <= 1,
        !(a == 0 && b == 0),
        piece == Piece::Rook ==> a == 0 || b == 0,
        piece == Piece::Bishop ==> a != 0 && b != 0,
        moves_shaped(old(vec)@, position as u64, piece, color),
    ensures
        final(vec)@.len() >= old(vec)@.len(),
        forall|i: int| 0 <= i < old(vec)@.len() ==> final(vec)@[i] == old(vec)@[i],
        moves_shaped(final(vec)@, position as u64, piece, color),
{
    let base = mailbox64(position as i32);
    proof {
        lemma_mailbox_step(position as int, a as int, b as int);
    }
    let mut t = mailbox(base + (a * 10 + b));
    let mut steps: u32 = 1;
    let ghost pos = position as int;
    while t != -1 && steps < 8
        invariant
            position < 64,
            piece == Piece::Queen || piece == Piece::Rook || piece == Piece::Bishop,
            -1 <= a <= 1,
            -1 <= b <= 1,
            !(a == 0 && b == 0),
            piece == Piece::Rook ==> a == 0 || b == 0,
            piece == Piece::Bishop ==> a != 0 && b != 0,
            pos == position as int,
            1 <= steps,
            t == -1 || (0 <= t < 64 && t / 8 == pos / 8 + steps * a && t % 8 == pos % 8 + steps
                * b),
            vec@.len() >= old(vec)@.len(),
            forall|i: int| 0 <= i < old(vec)@.len() ==> vec@[i] == old(vec)@[i],
            moves_shaped(vec@, position as u64, piece, color),
        decreases 8 - steps,
    {
        proof {
            assert(spec_mailbox_pattern(piece, color, pos, t as int)) by {
                let df = t as int % 8 - pos % 8;
                let dr = t as int / 8 - pos / 8;
                assert(df == steps * b && dr == steps * a);
                assert(b == 0 ==> df == 0) by (nonlinear_arith)
                    requires
                        df == steps * b,
                ;
                assert(a == 0 ==> dr == 0) by (nonlinear_arith)
                    requires
                        dr == steps * a,
                ;
                assert(b != 0 ==> df != 0 && (b == 1 ==> df == steps) && (b == -1 ==> df == -(
                steps as int))) by (nonlinear_arith)
                    requires
                        df == steps * b && steps >= 1 && -1 <= b <= 1,
                ;
                assert(a != 0 ==> dr != 0 && (a == 1 ==> dr == steps) && (a == -1 ==> dr == -(
                steps as int))) by (nonlinear_arith)
                    requires
                        dr == steps * a && steps >= 1 && -1 <= a <= 1,
                ;
            }
        }
        let ghost pre = vec@;
        vec.push(Move::new(MoveType::Push, position as u64, t as u64, piece, color, Piece::Empty));
        proof {
            assert forall|k: int|
                0 <= k < vec@.len() implies (#[trigger] vec@[k]).spec_from() == position
                && vec@[k].spec_piece() == piece && vec@[k].spec_color() == color
                && vec@[k].spec_to() < 64 && spec_mailbox_pattern(
                piece,
                color,
                position as int,
                vec@[k].spec_to() as int,
            ) by {
                if k < pre.len() {
                    assert(vec@[k] == pre[k]);
                }
            }
            lemma_mailbox_step(t as int, a as int, b as int);
            assert((steps + 1) * a == steps * a + a && (steps + 1) * b == steps * b + b)
                by (nonlinear_arith);
        }
        t = mailbox(mailbox64(t) + (a * 10 + b));
        steps = steps + 1;
    }
}

impl PreGeneratedMoveProvider {
    /// Lists the mailbox moves of one piece standing alone on `position`:
    /// one step per offset for king and knight, whole rays for the sliders,
    /// pushes and capture directions for a pawn. Every listed move follows
    /// that piece's movement pattern.
    pub fn generate_all_possible_moves(position: usize, piece: Piece, color: Color) -> (r: Vec<
        Move,
    >)
        requires
            position < 64,
            piece != Piece::Empty,
        ensures
            moves_shaped(r@, position as u64, piece, color),
    {
        let mut vec: Vec<Move> = Vec::new();
        match piece {
            Piece::King | Piece::Knight => {
                if matches!(piece, Piece::King) {
                    emit_mailbox_step(&mut vec, MoveType::Push, position, piece, color, -1, -1);
                    emit_mailbox_step(&mut vec, MoveType::Push, position, piece, color, -1, 0);
                    emit_mailbox_step(&mut vec, MoveType::Push, position, piece, color, -1, 1);
                    emit_mailbox_step(&mut vec, MoveType::Push, position, piece, color, 0, -1);
                    emit_mailbox_step(&mut vec, MoveType::Push, position, piece, color, 0, 1);
                    emit_mailbox_step(&mut vec, MoveType::Push, position, piece, color, 1, -1);
                    emit_mailbox_step(&mut vec, MoveType::Push, position, piece, color, 1, 0);
                    emit_mailbox_step(&mut vec, MoveType::Push, position, piece, color, 1, 1);
                } else {
                    emit_mailbox_step(&mut vec, MoveType::Push, position, piece, color, -2, -1);
                    emit_mailbox_step(&mut vec, MoveType::Push, position, piece, color, -2, 1);
                    emit_mailbox_step(&mut vec, MoveType::Push, position, piece, color, -1, -2);
                    emit_mailbox_step(&mut vec, MoveType::Push, position, piece, color, -1, 2);
                    emit_mailbox_step(&mut vec, MoveType::Push, position, piece, color, 1, -2);
                    emit_mailbox_step(&mut vec, MoveType::Push, position, piece, color, 1, 2);
                    emit_mailbox_step(&mut vec, MoveType::Push, position, piece, color, 2, -1);
                    emit_mailbox_step(&mut vec, MoveType::Push, position, piece, color, 2, 1);
                }
            },
            Piece::Queen | Piece::Rook | Piece::Bishop => {
                if !matches!(piece, Piece::Bishop) {
                    emit_mailbox_ray(&mut vec, position, piece, color, 0, 1);
                    emit_mailbox_ray(&mut vec, position, piece, color, 0, -1);
                    emit_mailbox_ray(&mut vec, position, piece, color, 1, 0);
                    emit_mailbox_ray(&mut vec, position, piece, color, -1, 0);
                }
                if !matches!(piece, Piece::Rook) {
                    emit_mailbox_ray(&mut vec, position, piece, color, 1, 1);
                    emit_mailbox_ray(&mut vec, position, piece, color, 1, -1);
                    emit_mailbox_ray(&mut vec, position, piece, color, -1, 1);
                    emit_mailbox_ray(&mut vec, position, piece, color, -1, -1);
                }
            },
            Piece::Pawn => {
                let dir: i32 = if matches!(color, Color::White) {
                    1
                } else {
                    -1
                };
                let on_start = if matches!(color, Color::White) {
                    8 <= position && position < 16
                } else {
                    48 <= position && position < 56
                };
                let stepped = emit_mailbox_step(
                    &mut vec,
                    MoveType::Push,
                    position,
                    piece,
                    color,
                    dir,
                    0,
                );
                if stepped && on_start {
                    emit_mailbox_step(
                        &mut vec,
                        MoveType::PawnJump,
                        position,
                        piece,
                        color,
                        2 * dir,
                        0,
                    );
                }
                emit_mailbox_step(&mut vec, MoveType::Capture, position, piece, color, dir, -1);
                emit_mailbox_step(&mut vec, MoveType::Capture, position, piece, color, dir, 1);
            },
            Piece::Empty => {},
        }
        vec
    }

    /// The mailbox moves of the piece standing on `position`, or nothing
    /// when the square is empty.
    pub fn get_valid_moves(self, board_state: BoardState, position: u64) -> (r: Vec<Move>)
        requires
            position < 64,
        ensures
            board_state.spec_piece_at(position) is None ==> r@.len() == 0,
            board_state.spec_piece_at(position) matches Option::Some((p, c)) ==> moves_shaped(
                r@,
                position,
                p,
                c,
            ),
    {
        match board_state.get_piece_at(position as u8) {
            Option::None => Vec::new(),
            Option::Some((p, c)) => PreGeneratedMoveProvider::generate_all_possible_moves(
                position as usize,
                p,
                c,
            ),
        }
    }
}

impl Default for PreGeneratedMoveProvider {
    /// The table of mailbox moves for every piece, color and square.
    fn default() -> (r: Self)
        ensures
            r.cached_moves@.len() == 12,
            forall|i: int| 0 <= i < 12 ==> (#[trigger] r.cached_moves@[i])@.len() == 64,
    {
        let mut moves: Vec<Vec<Vec<Move>>> = Vec::new();
        let mut idx: usize = 0;
        while idx < 12
            invariant
                idx <= 12,
                moves@.len() == idx,
                forall|i: int| 0 <= i < idx ==> (#[trigger] moves@[i])@.len() == 64,
            decreases 12 - idx,
        {
            let piece = Piece::from_index(idx % 6);
            let color = if idx < 6 {
                Color::White
            } else {
                Color::Black
            };
            let mut per_square: Vec<Vec<Move>> = Vec::new();
            let mut sqr: usize = 0;
            while sqr < 64
                invariant
                    sqr <= 64,
                    per_square@.len() == sqr,
                    piece != Piece::Empty,
                decreases 64 - sqr,
            {
                per_square.push(
                    PreGeneratedMoveProvider::generate_all_possible_moves(sqr, piece, color),
                );
                sqr = sqr + 1;
            }
            moves.push(per_square);
            idx = idx + 1;
        }
        PreGeneratedMoveProvider { cached_moves: moves }
    }
}

} // verus!
