//! What it means for a move to be pseudo-legal — it follows the movement
//! rules and respects blocking, but may leave the mover's king in check —
//! and the generators that emit exactly the pseudo-legal moves.

use vstd::prelude::*;
use crate::bits::bit64;
use crate::bitboard::BitBoard;
use crate::board_state::BoardState;
use crate::color::Color;
use crate::chess_move::Move;
use crate::move_type::MoveType;
use crate::piece::Piece;
use crate::attacks::attack_of;
use crate::attacks::pawn_attacks_of;
use crate::attacks::spec_attacks_of;
use crate::bitboard::northeast_of;
use crate::bitboard::northwest_of;
use crate::bitboard::southeast_of;
use crate::bitboard::southwest_of;

verus! {

/// The castling path of the king headed for `t`: the right is still present,
/// the squares between king and rook are empty, the rook is on its original
/// square, and none of the squares the king stands on or crosses is attacked
/// by the other side.
pub open spec fn castling_path_ok(s: BoardState, c: Color, t: u64) -> bool {
    let occ = s.spec_occupied();
    let enemy_attacks = spec_attacks_of(s, c.spec_inverse());
    if t == 6 {
        &&& s.castling.spec_white_king_side()
        &&& !bit64(occ, 5)
        &&& !bit64(occ, 6)
        &&& bit64(s.spec_kind_bb(c, Piece::Rook), 7)
        &&& enemy_attacks & ((1u64 << 4) | (1u64 << 5) | (1u64 << 6)) == 0
    } else if t == 2 {
        &&& s.castling.spec_white_queen_side()
        &&& !bit64(occ, 1)
        &&& !bit64(occ, 2)
        &&& !bit64(occ, 3)
        &&& bit64(s.spec_kind_bb(c, Piece::Rook), 0)
        &&& enemy_attacks & ((1u64 << 2) | (1u64 << 3) | (1u64 << 4)) == 0
    } else if t == 62 {
        &&& s.castling.spec_black_king_side()
        &&& !bit64(occ, 61)
        &&& !bit64(occ, 62)
        &&& bit64(s.spec_kind_bb(c, Piece::Rook), 63)
        &&& enemy_attacks & ((1u64 << 60) | (1u64 << 61) | (1u64 << 62)) == 0
    } else if t == 58 {
        &&& s.castling.spec_black_queen_side()
        &&& !bit64(occ, 57)
        &&& !bit64(occ, 58)
        &&& !bit64(occ, 59)
        &&& bit64(s.spec_kind_bb(c, Piece::Rook), 56)
        &&& enemy_attacks & ((1u64 << 58) | (1u64 << 59) | (1u64 << 60)) == 0
    } else {
        false
    }
}

/// A pseudo-legal move: a canonically packed move of the side to move whose
/// piece stands on the from-square and whose kind of move follows the
/// movement rules over the current occupancy. The king is never a capture
/// target. Pseudo-legality does not ask whether the mover's own king is left
/// in check.
pub open spec fn is_pseudo_legal(s: BoardState, m: Move) -> bool {
    let c = m.spec_color();
    let e = c.spec_inverse();
    let p = m.spec_piece();
    let f = m.spec_from();
    let t = m.spec_to();
    let tp = m.spec_target_piece();
    let occ = s.spec_occupied();
    &&& m.is_canonical()
    &&& c == s.color_on_move
    &&& p != Piece::Empty
    &&& bit64(s.spec_kind_bb(c, p), f)
    &&& f != t
    &&& match m.spec_type() {
        MoveType::Push => {
            &&& tp == Piece::Empty
            &&& !bit64(occ, t)
            &&& if p == Piece::Pawn {
                &&& (c == Color::White ==> t == f + 8 && t < 56)
                &&& (c == Color::Black ==> t + 8 == f && t >= 8)
            } else {
                bit64(attack_of(p, c, f, occ), t)
            }
        },
        MoveType::PawnJump => {
            &&& p == Piece::Pawn
            &&& tp == Piece::Empty
            &&& !bit64(occ, t)
            &&& (c == Color::White ==> 8 <= f < 16 && t == f + 16 && !bit64(occ, (f + 8) as u64))
            &&& (c == Color::Black ==> 48 <= f < 56 && t + 16 == f && !bit64(occ, (f - 8) as u64))
        },
        MoveType::Capture => {
            &&& tp != Piece::Empty
            &&& tp != Piece::King
            &&& bit64(s.spec_kind_bb(e, tp), t)
            &&& if p == Piece::Pawn {
                &&& bit64(pawn_attacks_of(c, 1u64 << f), t)
                &&& (c == Color::White ==> t < 56)
                &&& (c == Color::Black ==> t >= 8)
            } else {
                bit64(attack_of(p, c, f, occ), t)
            }
        },
        MoveType::EnPassant => {
            &&& p == Piece::Pawn
            &&& tp == Piece::Empty
            &&& s.en_passant_position matches Option::Some(sq) && sq.index == t
            &&& bit64(pawn_attacks_of(c, 1u64 << f), t)
            &&& !bit64(occ, t)
            &&& (c == Color::White ==> t >= 8 && bit64(
                s.spec_kind_bb(e, Piece::Pawn),
                (t - 8) as u64,
            ))
            &&& (c == Color::Black ==> t < 56 && bit64(
                s.spec_kind_bb(e, Piece::Pawn),
                (t + 8) as u64,
            ))
        },
        MoveType::Promotion => {
            &&& p == Piece::Pawn
            &&& (tp == Piece::Queen || tp == Piece::Rook || tp == Piece::Bishop || tp
                == Piece::Knight)
            &&& (c == Color::White ==> t >= 56)
            &&& (c == Color::Black ==> t < 8)
            &&& ({
                ||| ((c == Color::White ==> t == f + 8) && (c == Color::Black ==> t + 8 == f)
                    && !bit64(occ, t))
                ||| (bit64(pawn_attacks_of(c, 1u64 << f), t) && bit64(s.spec_color_bb(e), t)
                    && !bit64(s.spec_kind_bb(e, Piece::King), t))
            })
        },
        MoveType::Castling => {
            &&& p == Piece::King
            &&& tp == Piece::Empty
            &&& (c == Color::White ==> f == 4 && (t == 6 || t == 2))
            &&& (c == Color::Black ==> f == 60 && (t == 62 || t == 58))
            &&& castling_path_ok(s, c, t)
        },
        MoveType::Invalid => false,
    }
}

/// A pseudo-legal move is one the position admits: `make_move` may be
/// applied to it and keeps the boards well formed.
pub proof fn lemma_pseudo_legal_can_apply(s: BoardState, m: Move)
    requires
        s.wf_boards(),
        is_pseudo_legal(s, m),
    ensures
        s.spec_can_apply(m),
{
    broadcast use crate::bits::group_bit64;

    crate::chess_move::lemma_move_squares(m);
    let c = m.spec_color();
    let e = c.spec_inverse();
    let mc = c.spec_index() as int;
    let ec = e.spec_index() as int;
    let f = m.spec_from();
    let t = m.spec_to();
    assert(bit64(s.spec_occupied(), t) == (bit64(s.pieces_for_color[0].value, t) || bit64(
        s.pieces_for_color[1].value,
        t,
    )));
    match m.spec_type() {
        MoveType::Capture => {
            assert(bit64(s.pieces_for_color[ec].value, t));
        },
        MoveType::EnPassant => {
            assert(bit64(s.spec_kind_bb(e, Piece::Pawn), crate::board_state::spec_ep_captured_square(m)));
        },
        MoveType::Promotion => {
            if !bit64(s.spec_color_bb(e), t) {
                assert(!bit64(s.spec_kind_bb(e, Piece::King), t));
            }
        },
        _ => {},
    }
}

/// On a well-formed board, the piece a pseudo-legal move claims to move is
/// the piece that stands on its from-square.
pub proof fn lemma_pseudo_legal_piece_at(s: BoardState, m: Move)
    requires
        s.wf_boards(),
        is_pseudo_legal(s, m),
    ensures
        s.spec_piece_at(m.spec_from()) == Option::Some((m.spec_piece(), m.spec_color())),
{
    broadcast use crate::bits::group_bit64;

    crate::chess_move::lemma_move_squares(m);
    let c = m.spec_color();
    let mc = c.spec_index() as int;
    let f = m.spec_from();
    assert(bit64(s.pieces_for_color[mc].value, f));
    if c == Color::Black {
        assert(!bit64(s.pieces_for_color[0].value, f));
    }
}

/// A pseudo-legal capture names a real target: the piece on the to-square in
/// the pre-state, which belongs to the other side and is never a king.
pub proof fn lemma_pseudo_legal_capture_target(s: BoardState, m: Move)
    requires
        s.wf_boards(),
        is_pseudo_legal(s, m),
        m.spec_type() == MoveType::Capture,
    ensures
        m.spec_target_piece() != Piece::Empty,
        m.spec_target_piece() != Piece::King,
        s.spec_piece_at(m.spec_to()) == Option::Some(
            (m.spec_target_piece(), m.spec_color().spec_inverse()),
        ),
{
    broadcast use crate::bits::group_bit64;

    crate::chess_move::lemma_move_squares(m);
    let e = m.spec_color().spec_inverse();
    let ec = e.spec_index() as int;
    let t = m.spec_to();
    assert(bit64(s.pieces_for_color[ec].value, t));
    if e == Color::Black {
        assert(!bit64(s.pieces_for_color[0].value, t));
    }
}

/// A push or capture of the piece `piece` standing on `from`, aimed at one
/// of the squares of `targets`: the shape of every non-pawn, non-castling
/// move a generator emits.
pub open spec fn step_move_at(s: BoardState, m: Move, piece: Piece, from: u64, targets: u64) -> bool {
    let c = s.color_on_move;
    let e = c.spec_inverse();
    let t = m.spec_to();
    &&& m.is_canonical()
    &&& m.spec_color() == c
    &&& m.spec_piece() == piece
    &&& m.spec_from() == from
    &&& bit64(targets, t)
    &&& t != from
    &&& ({
        ||| (m.spec_type() == MoveType::Push && m.spec_target_piece() == Piece::Empty && !bit64(
            s.spec_occupied(),
            t,
        ))
        ||| (m.spec_type() == MoveType::Capture && m.spec_target_piece() != Piece::Empty
            && m.spec_target_piece() != Piece::King && bit64(
            s.spec_kind_bb(e, m.spec_target_piece()),
            t,
        ))
    })
}

/// Brings the well-formedness facts about one square into scope: how the
/// occupancy, the color boards and the kind boards relate there.
proof fn lemma_square_facts(s: BoardState, b: u64)
    requires
        s.wf_boards(),
        b < 64,
    ensures
        bit64(s.spec_occupied(), b) == (bit64(s.pieces_for_color[0].value, b) || bit64(
            s.pieces_for_color[1].value,
            b,
        )),
        !(bit64(s.pieces_for_color[0].value, b) && bit64(s.pieces_for_color[1].value, b)),
        forall|c: int|
            0 <= c < 2 ==> (#[trigger] bit64(s.pieces_for_color[c].value, b) <==> (bit64(
                s.pieces[c][0].value,
                b,
            ) || bit64(s.pieces[c][1].value, b) || bit64(s.pieces[c][2].value, b) || bit64(
                s.pieces[c][3].value,
                b,
            ) || bit64(s.pieces[c][4].value, b) || bit64(s.pieces[c][5].value, b))),
        forall|c: int|
            0 <= c < 2 ==> crate::bits::bcount(#[trigger] bit64(s.pieces[c][0].value, b))
                + crate::bits::bcount(bit64(s.pieces[c][1].value, b)) + crate::bits::bcount(
                bit64(s.pieces[c][2].value, b),
            ) + crate::bits::bcount(bit64(s.pieces[c][3].value, b)) + crate::bits::bcount(
                bit64(s.pieces[c][4].value, b),
            ) + crate::bits::bcount(bit64(s.pieces[c][5].value, b)) <= 1,
{
    broadcast use crate::bits::group_bit64;

}

/// Appends one move for every reachable target square: a push to an empty
/// square, a capture of an enemy man; own pieces and the enemy king yield
/// nothing.
fn emit_step_moves(board: &BoardState, out: &mut Vec<Move>, piece: Piece, from: u64, targets: u64)
    requires
        board.wf_boards(),
        from < 64,
        piece != Piece::Empty,
    ensures
        final(out)@.len() >= old(out)@.len(),
        forall|i: int| 0 <= i < old(out)@.len() ==> final(out)@[i] == old(out)@[i],
        forall|m: Move| #[trigger]
            final(out)@.contains(m) <==> (old(out)@.contains(m) || step_move_at(
                *board,
                m,
                piece,
                from,
                targets,
            )),
{
    broadcast use crate::bits::group_bit64;

    let c = board.on_move();
    let mut t: u64 = 0;
    while t < 64
        invariant
            t <= 64,
            board.wf_boards(),
            from < 64,
            piece != Piece::Empty,
            c == board.color_on_move,
            out@.len() >= old(out)@.len(),
            forall|i: int| 0 <= i < old(out)@.len() ==> out@[i] == old(out)@[i],
            forall|m: Move| #[trigger]
                out@.contains(m) <==> (old(out)@.contains(m) || (step_move_at(
                    *board,
                    m,
                    piece,
                    from,
                    targets,
                ) && m.spec_to() < t)),
        decreases 64 - t,
    {
        let ghost out0 = out@;
        if t != from && BitBoard::from(targets).is_bit_set(t) {
            proof {
                lemma_square_facts(*board, t);
            }
            match board.get_piece_at(t as u8) {
                Option::None => {
                    let mv = Move::new(MoveType::Push, from, t, piece, c, Piece::Empty);
                    out.push(mv);
                    proof {
                        assert forall|m: Move| #[trigger]
                            out@.contains(m) <==> (out0.contains(m) || m == mv) by {
                            vstd::seq_lib::lemma_seq_contains_after_push(out0, mv, m);
                        }
                        assert(!bit64(board.spec_occupied(), t));
                        assert(step_move_at(*board, mv, piece, from, targets));
                        assert forall|m: Move|
                            step_move_at(*board, m, piece, from, targets) && m.spec_to()
                                == t implies m == mv by {
                            let e = c.spec_inverse();
                            let ec = e.spec_index() as int;
                            if m.spec_type() == MoveType::Capture {
                                assert(bit64(board.spec_kind_bb(e, m.spec_target_piece()), t));
                                assert(bit64(board.spec_occupied(), t));
                            }
                            crate::chess_move::lemma_canonical_eq(m, mv);
                        }
                    }
                },
                Option::Some((k, col)) => {
                    let is_enemy = col.to_u64() != c.to_u64();
                    if is_enemy && !matches!(k, Piece::King) {
                        let mv = Move::new(MoveType::Capture, from, t, piece, c, k);
                        out.push(mv);
                        proof {
                            let e = c.spec_inverse();
                            let ec = e.spec_index() as int;
                            assert forall|m: Move| #[trigger]
                                out@.contains(m) <==> (out0.contains(m) || m == mv) by {
                                vstd::seq_lib::lemma_seq_contains_after_push(out0, mv, m);
                            }
                            assert(col == e);
                            assert(bit64(board.spec_kind_bb(e, k), t));
                            assert(step_move_at(*board, mv, piece, from, targets));
                            assert forall|m: Move|
                                step_move_at(*board, m, piece, from, targets) && m.spec_to()
                                    == t implies m == mv by {
                                if m.spec_type() == MoveType::Push {
                                    assert(bit64(board.spec_occupied(), t));
                                } else {
                                    assert(bit64(board.spec_kind_bb(e, m.spec_target_piece()), t));
                                }
                                crate::chess_move::lemma_canonical_eq(m, mv);
                            }
                        }
                    } else {
                        proof {
                            let e = c.spec_inverse();
                            let ec = e.spec_index() as int;
                            let cc = c.spec_index() as int;
                            assert forall|m: Move|
                                step_move_at(*board, m, piece, from, targets) implies m.spec_to()
                                != t by {
                                if m.spec_to() == t {
                                    if !is_enemy {
                                        assert(col == c);
                                        assert(bit64(board.pieces_for_color[cc].value, t));
                                        if m.spec_type() == MoveType::Capture {
                                            assert(bit64(
                                                board.spec_kind_bb(e, m.spec_target_piece()),
                                                t,
                                            ));
                                            assert(bit64(board.pieces_for_color[ec].value, t));
                                        }
                                    } else {
                                        assert(col == e);
                                        assert(bit64(board.spec_kind_bb(e, Piece::King), t));
                                        if m.spec_type() == MoveType::Capture {
                                            assert(bit64(
                                                board.spec_kind_bb(e, m.spec_target_piece()),
                                                t,
                                            ));
                                        }
                                    }
                                }
                            }
                        }
                    }
                },
            }
        } else {
            proof {
                if t == from {
                    assert(forall|m: Move|
                        step_move_at(*board, m, piece, from, targets) ==> m.spec_to() != t);
                }
            }
        }
        t = t + 1;
    }
    proof {
        assert forall|m: Move| step_move_at(*board, m, piece, from, targets) implies m.spec_to()
            < 64 by {
            crate::chess_move::lemma_move_squares(m);
        }
    }
}

/// A pseudo-legal promotion starts on the rank before the last and ends on
/// the last rank of its color: the from- and to-ranks are adjacent.
pub proof fn lemma_pseudo_legal_promotion_ranks(s: BoardState, m: Move)
    requires
        s.wf_boards(),
        is_pseudo_legal(s, m),
        m.spec_type() == MoveType::Promotion,
    ensures
        m.spec_color() == Color::White ==> m.spec_to() / 8 == 7 && m.spec_from() / 8 == 6,
        m.spec_color() == Color::Black ==> m.spec_to() / 8 == 0 && m.spec_from() / 8 == 1,
        m.spec_to() / 8 == m.spec_from() / 8 + 1 || m.spec_from() / 8 == m.spec_to() / 8 + 1,
{
    crate::chess_move::lemma_move_squares(m);
    let c = m.spec_color();
    let f = m.spec_from();
    let t = m.spec_to();
    if bit64(pawn_attacks_of(c, 1u64 << f), t) {
        crate::attacks::lemma_pawn_attack_bits(f, t);
    }
}


/// The diagonal component of pseudo-legality: a bishop or queen push or
/// capture along a diagonal ray.
pub open spec fn pl_diag(s: BoardState, m: Move) -> bool {
    &&& is_pseudo_legal(s, m)
    &&& (m.spec_piece() == Piece::Bishop || m.spec_piece() == Piece::Queen)
    &&& (m.spec_type() == MoveType::Push || m.spec_type() == MoveType::Capture)
    &&& bit64(crate::attacks::diag_attacks_from(m.spec_from(), s.spec_occupied()), m.spec_to())
}

/// The straight-line component: a rook or queen push or capture along a rank
/// or file ray.
pub open spec fn pl_line(s: BoardState, m: Move) -> bool {
    &&& is_pseudo_legal(s, m)
    &&& (m.spec_piece() == Piece::Rook || m.spec_piece() == Piece::Queen)
    &&& (m.spec_type() == MoveType::Push || m.spec_type() == MoveType::Capture)
    &&& bit64(crate::attacks::line_attacks_from(m.spec_from(), s.spec_occupied()), m.spec_to())
}

pub open spec fn pl_knight(s: BoardState, m: Move) -> bool {
    is_pseudo_legal(s, m) && m.spec_piece() == Piece::Knight
}

pub open spec fn pl_king(s: BoardState, m: Move) -> bool {
    is_pseudo_legal(s, m) && m.spec_piece() == Piece::King
}

pub open spec fn pl_pawn(s: BoardState, m: Move) -> bool {
    is_pseudo_legal(s, m) && m.spec_piece() == Piece::Pawn
}

/// Every pseudo-legal move belongs to the generator of its piece; a queen
/// move belongs to the diagonal or the straight-line generator according to
/// the ray it travels.
pub proof fn lemma_pl_split(s: BoardState, m: Move)
    requires
        is_pseudo_legal(s, m),
    ensures
        pl_diag(s, m) || pl_line(s, m) || pl_knight(s, m) || pl_king(s, m) || pl_pawn(s, m),
{
    broadcast use crate::bits::group_bit64;

    crate::chess_move::lemma_move_squares(m);
}

/// Generator for diagonal moves (bishop and queen).
pub struct DiagonalMoveGenerator {}

impl DiagonalMoveGenerator {
    pub fn new() -> (r: Self) {
        DiagonalMoveGenerator {  }
    }

    /// The squares attacked diagonally by the bishops and queens of `color`.
    pub fn generate_attacks(&self, board: &BoardState, color: Color) -> (r: BitBoard)
        ensures
            r.value == crate::attacks::kind_attacks_below(
                Piece::Bishop,
                color,
                board.spec_kind_bb(color, Piece::Bishop) | board.spec_kind_bb(color, Piece::Queen),
                board.spec_occupied(),
                64,
            ),
    {
        let ci = color.index();
        let mask = board.pieces[ci][3].raw() | board.pieces[ci][1].raw();
        BitBoard::from(
            crate::attacks::kind_mask_attacks(Piece::Bishop, color, mask, board.all_pieces().raw()),
        )
    }

    /// Appends every pseudo-legal diagonal move of the side on move.
    pub fn generate_moves(&self, board: &BoardState, out: &mut Vec<Move>)
        requires
            board.wf_boards(),
        ensures
            final(out)@.len() >= old(out)@.len(),
            forall|i: int| 0 <= i < old(out)@.len() ==> final(out)@[i] == old(out)@[i],
            forall|m: Move| #[trigger]
                final(out)@.contains(m) <==> (old(out)@.contains(m) || pl_diag(*board, m)),
    {
        broadcast use crate::bits::group_bit64;

        let occ = board.all_pieces().raw();
        let ci = board.on_move().index();
        let mut from: u64 = 0;
        while from < 64
            invariant
                from <= 64,
                board.wf_boards(),
                ci == board.color_on_move.spec_index(),
                occ == board.spec_occupied(),
                out@.len() >= old(out)@.len(),
                forall|i: int| 0 <= i < old(out)@.len() ==> out@[i] == old(out)@[i],
                forall|m: Move| #[trigger]
                    out@.contains(m) <==> (old(out)@.contains(m) || (pl_diag(*board, m)
                        && m.spec_from() < from)),
            decreases 64 - from,
        {
            let is_b = board.pieces[ci][3].is_bit_set(from);
            let is_q = board.pieces[ci][1].is_bit_set(from);
            if is_b || is_q {
                let targets = crate::attacks::diag_attack_squares(from, occ);
                if is_b {
                    emit_step_moves(board, out, Piece::Bishop, from, targets);
                }
                if is_q {
                    emit_step_moves(board, out, Piece::Queen, from, targets);
                }
                proof {
                    lemma_square_facts(*board, from);
                    assert forall|m: Move|
                        pl_diag(*board, m) && m.spec_from() == from implies out@.contains(m) by {
                        assert(bit64(
                            board.spec_kind_bb(board.color_on_move, m.spec_piece()),
                            from,
                        ));
                        assert(step_move_at(*board, m, m.spec_piece(), from, targets));
                    }
                    assert forall|m: Move|
                        (step_move_at(*board, m, Piece::Bishop, from, targets) && is_b) || (
                        step_move_at(*board, m, Piece::Queen, from, targets)
                            && is_q) implies pl_diag(*board, m) && m.spec_from() == from by {
                        crate::chess_move::lemma_move_squares(m);
                        lemma_square_facts(*board, m.spec_to());
                        let c = board.color_on_move;
                        let dd = crate::attacks::diag_attacks_from(from, board.spec_occupied());
                        let ll = crate::attacks::line_attacks_from(from, board.spec_occupied());
                        if m.spec_piece() == Piece::Bishop {
                            assert(attack_of(Piece::Bishop, c, from, board.spec_occupied()) == dd);
                        } else {
                            assert(attack_of(Piece::Queen, c, from, board.spec_occupied()) == (ll
                                | dd));
                            crate::bits::lemma_bit64_or(ll, dd, m.spec_to());
                            assert(bit64(ll | dd, m.spec_to()));
                        }
                    }
                }
            } else {
                proof {
                    assert forall|m: Move| pl_diag(*board, m) implies m.spec_from() != from by {
                        if m.spec_from() == from {
                            assert(bit64(
                                board.spec_kind_bb(board.color_on_move, m.spec_piece()),
                                from,
                            ));
                        }
                    }
                }
            }
            from = from + 1;
        }
        proof {
            assert forall|m: Move| pl_diag(*board, m) implies m.spec_from() < 64 by {
                crate::chess_move::lemma_move_squares(m);
            }
        }
    }
}

/// Generator for straight-line moves (rook and queen).
pub struct LineMoveGenerator {}

impl LineMoveGenerator {
    pub fn new() -> (r: Self) {
        LineMoveGenerator {  }
    }

    /// The squares attacked along ranks and files by the rooks and queens of
    /// `color`.
    pub fn generate_attacks(&self, board: &BoardState, color: Color) -> (r: BitBoard)
        ensures
            r.value == crate::attacks::kind_attacks_below(
                Piece::Rook,
                color,
                board.spec_kind_bb(color, Piece::Rook) | board.spec_kind_bb(color, Piece::Queen),
                board.spec_occupied(),
                64,
            ),
    {
        let ci = color.index();
        let mask = board.pieces[ci][2].raw() | board.pieces[ci][1].raw();
        BitBoard::from(
            crate::attacks::kind_mask_attacks(Piece::Rook, color, mask, board.all_pieces().raw()),
        )
    }

    /// Appends every pseudo-legal straight-line move of the side on move.
    pub fn generate_moves(&self, board: &BoardState, out: &mut Vec<Move>)
        requires
            board.wf_boards(),
        ensures
            final(out)@.len() >= old(out)@.len(),
            forall|i: int| 0 <= i < old(out)@.len() ==> final(out)@[i] == old(out)@[i],
            forall|m: Move| #[trigger]
                final(out)@.contains(m) <==> (old(out)@.contains(m) || pl_line(*board, m)),
    {
        broadcast use crate::bits::group_bit64;

        let occ = board.all_pieces().raw();
        let ci = board.on_move().index();
        let mut from: u64 = 0;
        while from < 64
            invariant
                from <= 64,
                board.wf_boards(),
                ci == board.color_on_move.spec_index(),
                occ == board.spec_occupied(),
                out@.len() >= old(out)@.len(),
                forall|i: int| 0 <= i < old(out)@.len() ==> out@[i] == old(out)@[i],
                forall|m: Move| #[trigger]
                    out@.contains(m) <==> (old(out)@.contains(m) || (pl_line(*board, m)
                        && m.spec_from() < from)),
            decreases 64 - from,
        {
            let is_r = board.pieces[ci][2].is_bit_set(from);
            let is_q = board.pieces[ci][1].is_bit_set(from);
            if is_r || is_q {
                let targets = crate::attacks::line_attack_squares(from, occ);
                if is_r {
                    emit_step_moves(board, out, Piece::Rook, from, targets);
                }
                if is_q {
                    emit_step_moves(board, out, Piece::Queen, from, targets);
                }
                proof {
                    lemma_square_facts(*board, from);
                    assert forall|m: Move|
                        pl_line(*board, m) && m.spec_from() == from implies out@.contains(m) by {
                        assert(bit64(
                            board.spec_kind_bb(board.color_on_move, m.spec_piece()),
                            from,
                        ));
                        assert(step_move_at(*board, m, m.spec_piece(), from, targets));
                    }
                    assert forall|m: Move|
                        (step_move_at(*board, m, Piece::Rook, from, targets) && is_r) || (
                        step_move_at(*board, m, Piece::Queen, from, targets)
                            && is_q) implies pl_line(*board, m) && m.spec_from() == from by {
                        crate::chess_move::lemma_move_squares(m);
                        lemma_square_facts(*board, m.spec_to());
                        let c = board.color_on_move;
                        let dd = crate::attacks::diag_attacks_from(from, board.spec_occupied());
                        let ll = crate::attacks::line_attacks_from(from, board.spec_occupied());
                        if m.spec_piece() == Piece::Rook {
                            assert(attack_of(Piece::Rook, c, from, board.spec_occupied()) == ll);
                        } else {
                            assert(attack_of(Piece::Queen, c, from, board.spec_occupied()) == (ll
                                | dd));
                            crate::bits::lemma_bit64_or(ll, dd, m.spec_to());
                            assert(bit64(ll | dd, m.spec_to()));
                        }
                    }
                }
            } else {
                proof {
                    assert forall|m: Move| pl_line(*board, m) implies m.spec_from() != from by {
                        if m.spec_from() == from {
                            assert(bit64(
                                board.spec_kind_bb(board.color_on_move, m.spec_piece()),
                                from,
                            ));
                        }
                    }
                }
            }
            from = from + 1;
        }
        proof {
            assert forall|m: Move| pl_line(*board, m) implies m.spec_from() < 64 by {
                crate::chess_move::lemma_move_squares(m);
            }
        }
    }
}


/// The knight and king step components, and the castling component.
pub open spec fn pl_king_step(s: BoardState, m: Move) -> bool {
    pl_king(s, m) && (m.spec_type() == MoveType::Push || m.spec_type() == MoveType::Capture)
}

pub open spec fn pl_king_castle(s: BoardState, m: Move) -> bool {
    pl_king(s, m) && m.spec_type() == MoveType::Castling
}

/// Generator for knight jumps, with the per-square attack table.
pub struct KnightJumpMoveGenerator {
    pub cached_attacks: Vec<BitBoard>,
}

impl KnightJumpMoveGenerator {
    /// The table holds, for each square, the knight attacks from it.
    pub open spec fn wf(self) -> bool {
        &&& self.cached_attacks@.len() == 64
        &&& forall|i: int|
            0 <= i < 64 ==> #[trigger] self.cached_attacks@[i].value
                == crate::attacks::knight_attacks_of(1u64 << (i as u64))
    }

    pub fn new() -> (r: Self)
        ensures
            r.wf(),
    {
        let mut cache: Vec<BitBoard> = Vec::new();
        let mut i: u64 = 0;
        while i < 64
            invariant
                i <= 64,
                cache@.len() == i,
                forall|j: int|
                    0 <= j < i ==> #[trigger] cache@[j].value == crate::attacks::knight_attacks_of(
                        1u64 << (j as u64),
                    ),
            decreases 64 - i,
        {
            cache.push(BitBoard::from(crate::attacks::knight_attack_squares(1u64 << i)));
            i = i + 1;
        }
        KnightJumpMoveGenerator { cached_attacks: cache }
    }

    /// The squares attacked by the knights of `color`.
    pub fn generate_attacks(&self, board: &BoardState, color: Color) -> (r: BitBoard)
        ensures
            r.value == crate::attacks::kind_attacks_below(
                Piece::Knight,
                color,
                board.spec_kind_bb(color, Piece::Knight),
                board.spec_occupied(),
                64,
            ),
    {
        let ci = color.index();
        BitBoard::from(
            crate::attacks::kind_mask_attacks(
                Piece::Knight,
                color,
                board.pieces[ci][4].raw(),
                board.all_pieces().raw(),
            ),
        )
    }

    /// Appends every pseudo-legal knight move of the side on move.
    pub fn generate_moves(&self, board: &BoardState, out: &mut Vec<Move>)
        requires
            self.wf(),
            board.wf_boards(),
        ensures
            final(out)@.len() >= old(out)@.len(),
            forall|i: int| 0 <= i < old(out)@.len() ==> final(out)@[i] == old(out)@[i],
            forall|m: Move| #[trigger]
                final(out)@.contains(m) <==> (old(out)@.contains(m) || pl_knight(*board, m)),
    {
        broadcast use crate::bits::group_bit64;

        let ci = board.on_move().index();
        let mut from: u64 = 0;
        while from < 64
            invariant
                from <= 64,
                self.wf(),
                board.wf_boards(),
                ci == board.color_on_move.spec_index(),
                out@.len() >= old(out)@.len(),
                forall|i: int| 0 <= i < old(out)@.len() ==> out@[i] == old(out)@[i],
                forall|m: Move| #[trigger]
                    out@.contains(m) <==> (old(out)@.contains(m) || (pl_knight(*board, m)
                        && m.spec_from() < from)),
            decreases 64 - from,
        {
            if board.pieces[ci][4].is_bit_set(from) {
                let targets = self.cached_attacks[from as usize].raw();
                emit_step_moves(board, out, Piece::Knight, from, targets);
                proof {
                    lemma_square_facts(*board, from);
                    assert forall|m: Move|
                        pl_knight(*board, m) && m.spec_from() == from implies out@.contains(m) by {
                        assert(bit64(board.spec_kind_bb(board.color_on_move, Piece::Knight), from));
                        assert(step_move_at(*board, m, Piece::Knight, from, targets));
                    }
                    assert forall|m: Move|
                        step_move_at(*board, m, Piece::Knight, from, targets) implies pl_knight(
                        *board,
                        m,
                    ) && m.spec_from() == from by {
                        crate::chess_move::lemma_move_squares(m);
                        lemma_square_facts(*board, m.spec_to());
                        assert(attack_of(Piece::Knight, board.color_on_move, from,
                            board.spec_occupied()) == crate::attacks::knight_attacks_of(
                            1u64 << from,
                        ));
                    }
                }
            } else {
                proof {
                    assert forall|m: Move| pl_knight(*board, m) implies m.spec_from() != from by {
                        if m.spec_from() == from {
                            assert(bit64(
                                board.spec_kind_bb(board.color_on_move, Piece::Knight),
                                from,
                            ));
                        }
                    }
                }
            }
            from = from + 1;
        }
        proof {
            assert forall|m: Move| pl_knight(*board, m) implies m.spec_from() < 64 by {
                crate::chess_move::lemma_move_squares(m);
            }
        }
    }
}

/// Generator for king steps and castling, with the per-square attack table.
pub struct KingMoveGenerator {
    pub cached_attacks: Vec<BitBoard>,
}

impl KingMoveGenerator {
    /// The table holds, for each square, the king attacks from it.
    pub open spec fn wf(self) -> bool {
        &&& self.cached_attacks@.len() == 64
        &&& forall|i: int|
            0 <= i < 64 ==> #[trigger] self.cached_attacks@[i].value
                == crate::attacks::king_attacks_of(1u64 << (i as u64))
    }

    pub fn new() -> (r: Self)
        ensures
            r.wf(),
    {
        let mut cache: Vec<BitBoard> = Vec::new();
        let mut i: u64 = 0;
        while i < 64
            invariant
                i <= 64,
                cache@.len() == i,
                forall|j: int|
                    0 <= j < i ==> #[trigger] cache@[j].value == crate::attacks::king_attacks_of(
                        1u64 << (j as u64),
                    ),
            decreases 64 - i,
        {
            cache.push(BitBoard::from(crate::attacks::king_attack_squares(1u64 << i)));
            i = i + 1;
        }
        KingMoveGenerator { cached_attacks: cache }
    }

    /// The squares attacked by the king of `color`.
    pub fn generate_attacks(&self, board: &BoardState, color: Color) -> (r: BitBoard)
        ensures
            r.value == crate::attacks::kind_attacks_below(
                Piece::King,
                color,
                board.spec_kind_bb(color, Piece::King),
                board.spec_occupied(),
                64,
            ),
    {
        let ci = color.index();
        BitBoard::from(
            crate::attacks::kind_mask_attacks(
                Piece::King,
                color,
                board.pieces[ci][0].raw(),
                board.all_pieces().raw(),
            ),
        )
    }

    /// Appends every pseudo-legal king move of the side on move, castling
    /// included.
    pub fn generate_moves(&self, board: &BoardState, out: &mut Vec<Move>)
        requires
            self.wf(),
            board.wf_boards(),
        ensures
            final(out)@.len() >= old(out)@.len(),
            forall|i: int| 0 <= i < old(out)@.len() ==> final(out)@[i] == old(out)@[i],
            forall|m: Move| #[trigger]
                final(out)@.contains(m) <==> (old(out)@.contains(m) || pl_king(*board, m)),
    {
        broadcast use crate::bits::group_bit64;

        let ci = board.on_move().index();
        let c = board.on_move();
        let mut from: u64 = 0;
        while from < 64
            invariant
                from <= 64,
                self.wf(),
                board.wf_boards(),
                c == board.color_on_move,
                ci == board.color_on_move.spec_index(),
                out@.len() >= old(out)@.len(),
                forall|i: int| 0 <= i < old(out)@.len() ==> out@[i] == old(out)@[i],
                forall|m: Move| #[trigger]
                    out@.contains(m) <==> (old(out)@.contains(m) || (pl_king_step(*board, m)
                        && m.spec_from() < from)),
            decreases 64 - from,
        {
            if board.pieces[ci][0].is_bit_set(from) {
                let targets = self.cached_attacks[from as usize].raw();
                emit_step_moves(board, out, Piece::King, from, targets);
                proof {
                    lemma_square_facts(*board, from);
                    assert forall|m: Move|
                        pl_king_step(*board, m) && m.spec_from() == from implies out@.contains(
                        m,
                    ) by {
                        assert(bit64(board.spec_kind_bb(board.color_on_move, Piece::King), from));
                        assert(step_move_at(*board, m, Piece::King, from, targets));
                    }
                    assert forall|m: Move|
                        step_move_at(*board, m, Piece::King, from, targets) implies pl_king_step(
                        *board,
                        m,
                    ) && m.spec_from() == from by {
                        crate::chess_move::lemma_move_squares(m);
                        lemma_square_facts(*board, m.spec_to());
                        assert(attack_of(Piece::King, board.color_on_move, from,
                            board.spec_occupied()) == crate::attacks::king_attacks_of(
                            1u64 << from,
                        ));
                    }
                }
            } else {
                proof {
                    assert forall|m: Move| pl_king_step(*board, m) implies m.spec_from()
                        != from by {
                        if m.spec_from() == from {
                            assert(bit64(
                                board.spec_kind_bb(board.color_on_move, Piece::King),
                                from,
                            ));
                        }
                    }
                }
            }
            from = from + 1;
        }
        proof {
            assert forall|m: Move| pl_king_step(*board, m) implies m.spec_from() < 64 by {
                crate::chess_move::lemma_move_squares(m);
            }
        }
        self.emit_castling_moves(board, out);
        proof {
            assert forall|m: Move| pl_king(*board, m) implies (pl_king_step(*board, m)
                || pl_king_castle(*board, m)) by {}
        }
    }

    /// Appends the castling moves whose path is free and unattacked.
    fn emit_castling_moves(&self, board: &BoardState, out: &mut Vec<Move>)
        requires
            board.wf_boards(),
        ensures
            final(out)@.len() >= old(out)@.len(),
            forall|i: int| 0 <= i < old(out)@.len() ==> final(out)@[i] == old(out)@[i],
            forall|m: Move| #[trigger]
                final(out)@.contains(m) <==> (old(out)@.contains(m) || pl_king_castle(*board, m)),
    {
        broadcast use crate::bits::group_bit64;

        let c = board.on_move();
        let ci = c.index();
        let occ = board.all_pieces();
        let white = c.to_u64() == 0;
        let king_home: u64 = if white { 4 } else { 60 };
        if !board.pieces[ci][0].is_bit_set(king_home) {
            proof {
                assert forall|m: Move| !pl_king_castle(*board, m) by {
                    if pl_king_castle(*board, m) {
                        assert(bit64(board.spec_kind_bb(c, Piece::King), king_home));
                    }
                }
            }
            return ;
        }
        let enemy_attacks = crate::attacks::compute_attacks_of(board, c.inverse());
        let ghost out0 = out@;
        let kside = if white {
            board.castling.is_white_king_side_allowed() && !occ.is_bit_set(5) && !occ.is_bit_set(6)
                && board.pieces[ci][2].is_bit_set(7) && (enemy_attacks & ((1u64 << 4) | (1u64 << 5)
                | (1u64 << 6))) == 0
        } else {
            board.castling.is_black_king_side_allowed() && !occ.is_bit_set(61) && !occ.is_bit_set(
                62,
            ) && board.pieces[ci][2].is_bit_set(63) && (enemy_attacks & ((1u64 << 60) | (1u64 << 61)
                | (1u64 << 62))) == 0
        };
        let kto: u64 = if white { 6 } else { 62 };
        if kside {
            let mv = Move::new(MoveType::Castling, king_home, kto, Piece::King, c, Piece::Empty);
            out.push(mv);
            proof {
                assert forall|m: Move| #[trigger]
                    out@.contains(m) <==> (out0.contains(m) || m == mv) by {
                    vstd::seq_lib::lemma_seq_contains_after_push(out0, mv, m);
                }
                assert(pl_king_castle(*board, mv));
                assert forall|m: Move|
                    pl_king_castle(*board, m) && m.spec_to() == kto implies m == mv by {
                    crate::chess_move::lemma_canonical_eq(m, mv);
                }
            }
        } else {
            proof {
                assert forall|m: Move|
                    pl_king_castle(*board, m) implies m.spec_to() != kto by {}
            }
        }
        let ghost out1 = out@;
        let qside = if white {
            board.castling.is_white_queen_side_allowed() && !occ.is_bit_set(1) && !occ.is_bit_set(2)
                && !occ.is_bit_set(3) && board.pieces[ci][2].is_bit_set(0) && (enemy_attacks & ((
            1u64 << 2) | (1u64 << 3) | (1u64 << 4))) == 0
        } else {
            board.castling.is_black_queen_side_allowed() && !occ.is_bit_set(57) && !occ.is_bit_set(
                58,
            ) && !occ.is_bit_set(59) && board.pieces[ci][2].is_bit_set(56) && (enemy_attacks & ((
            1u64 << 58) | (1u64 << 59) | (1u64 << 60))) == 0
        };
        let qto: u64 = if white { 2 } else { 58 };
        if qside {
            let mv = Move::new(MoveType::Castling, king_home, qto, Piece::King, c, Piece::Empty);
            out.push(mv);
            proof {
                assert forall|m: Move| #[trigger]
                    out@.contains(m) <==> (out1.contains(m) || m == mv) by {
                    vstd::seq_lib::lemma_seq_contains_after_push(out1, mv, m);
                }
                assert(pl_king_castle(*board, mv));
                assert forall|m: Move|
                    pl_king_castle(*board, m) && m.spec_to() == qto implies m == mv by {
                    crate::chess_move::lemma_canonical_eq(m, mv);
                }
            }
        } else {
            proof {
                assert forall|m: Move|
                    pl_king_castle(*board, m) implies m.spec_to() != qto by {}
            }
        }
        proof {
            assert forall|m: Move|
                pl_king_castle(*board, m) implies (m.spec_to() == kto || m.spec_to() == qto) by {}
        }
    }
}


/// The quiet pawn component from one square: a single push, a double push,
/// or a promotion onto an empty square.
pub open spec fn pl_pawn_quiet_at(s: BoardState, m: Move, from: u64) -> bool {
    &&& pl_pawn(s, m)
    &&& m.spec_from() == from
    &&& (m.spec_type() == MoveType::Push || m.spec_type() == MoveType::PawnJump || (m.spec_type()
        == MoveType::Promotion && !bit64(s.spec_occupied(), m.spec_to())))
}

/// The striking pawn component from one square at one target: a capture, an
/// en-passant capture, or a promotion that captures.
pub open spec fn pl_pawn_target_at(s: BoardState, m: Move, from: u64, t: u64) -> bool {
    &&& pl_pawn(s, m)
    &&& m.spec_from() == from
    &&& m.spec_to() == t
    &&& (m.spec_type() == MoveType::Capture || m.spec_type() == MoveType::EnPassant || (
    m.spec_type() == MoveType::Promotion && bit64(s.spec_occupied(), t)))
}

/// Appends the four promotions of a pawn moving from `from` to `t`.
fn emit_promotions(board: &BoardState, out: &mut Vec<Move>, from: u64, t: u64, c: Color)
    requires
        from < 64,
        t < 64,
    ensures
        final(out)@.len() >= old(out)@.len(),
        forall|i: int| 0 <= i < old(out)@.len() ==> final(out)@[i] == old(out)@[i],
        forall|m: Move| #[trigger]
            final(out)@.contains(m) <==> (old(out)@.contains(m) || ((m == promo_move(
                from,
                t,
                c,
                Piece::Queen,
            ) || m == promo_move(from, t, c, Piece::Rook) || m == promo_move(
                from,
                t,
                c,
                Piece::Bishop,
            ) || m == promo_move(from, t, c, Piece::Knight)))),
{
    let g0 = Ghost(out@);
    let mq = Move::new(MoveType::Promotion, from, t, Piece::Pawn, c, Piece::Queen);
    out.push(mq);
    let g1 = Ghost(out@);
    let mr = Move::new(MoveType::Promotion, from, t, Piece::Pawn, c, Piece::Rook);
    out.push(mr);
    let g2 = Ghost(out@);
    let mb = Move::new(MoveType::Promotion, from, t, Piece::Pawn, c, Piece::Bishop);
    out.push(mb);
    let g3 = Ghost(out@);
    let mn = Move::new(MoveType::Promotion, from, t, Piece::Pawn, c, Piece::Knight);
    out.push(mn);
    proof {
        assert forall|m: Move| #[trigger] out@.contains(m) <==> (g0@.contains(m) || m == mq || m
            == mr || m == mb || m == mn) by {
            vstd::seq_lib::lemma_seq_contains_after_push(g0@, mq, m);
            vstd::seq_lib::lemma_seq_contains_after_push(g1@, mr, m);
            vstd::seq_lib::lemma_seq_contains_after_push(g2@, mb, m);
            vstd::seq_lib::lemma_seq_contains_after_push(g3@, mn, m);
        }
    }
}

/// The promotion of the pawn from `from` to `t` into `tp`, as a ghost value.
pub open spec fn promo_move(from: u64, t: u64, c: Color, tp: Piece) -> Move {
    crate::chess_move::spec_packed_move(MoveType::Promotion, from, t, Piece::Pawn, c, tp)
}


/// Appends the quiet pawn moves from `from`: the single push, the double
/// push, and the promotions onto an empty last-rank square.
fn emit_pawn_quiet(board: &BoardState, out: &mut Vec<Move>, from: u64)
    requires
        board.wf_boards(),
        from < 64,
        bit64(board.spec_kind_bb(board.color_on_move, Piece::Pawn), from),
    ensures
        final(out)@.len() >= old(out)@.len(),
        forall|i: int| 0 <= i < old(out)@.len() ==> final(out)@[i] == old(out)@[i],
        forall|m: Move| #[trigger]
            final(out)@.contains(m) <==> (old(out)@.contains(m) || pl_pawn_quiet_at(
                *board,
                m,
                from,
            )),
{
    broadcast use crate::bits::group_bit64;

    let c = board.on_move();
    let occ = board.all_pieces();
    let white = c.to_u64() == 0;
    proof {
        assert forall|m: Move| pl_pawn_quiet_at(*board, m, from) implies m.spec_to() < 64 by {
            crate::chess_move::lemma_move_squares(m);
        }
    }
    let can_step = if white {
        from < 56
    } else {
        from >= 8
    };
    if !can_step {
        proof {
            assert forall|m: Move| !pl_pawn_quiet_at(*board, m, from) by {
                if pl_pawn_quiet_at(*board, m, from) {
                    crate::chess_move::lemma_move_squares(m);
                }
            }
        }
        return ;
    }
    let t1: u64 = if white {
        from + 8
    } else {
        from - 8
    };
    if occ.is_bit_set(t1) {
        proof {
            assert forall|m: Move| !pl_pawn_quiet_at(*board, m, from) by {}
        }
        return ;
    }
    let promo = if white {
        t1 >= 56
    } else {
        t1 < 8
    };
    let ghost outq = out@;
    if promo {
        emit_promotions(board, out, from, t1, c);
        proof {
            crate::chess_move::lemma_packed_fields(
                MoveType::Promotion,
                from,
                t1,
                Piece::Pawn,
                c,
                Piece::Queen,
            );
            crate::chess_move::lemma_packed_fields(
                MoveType::Promotion,
                from,
                t1,
                Piece::Pawn,
                c,
                Piece::Rook,
            );
            crate::chess_move::lemma_packed_fields(
                MoveType::Promotion,
                from,
                t1,
                Piece::Pawn,
                c,
                Piece::Bishop,
            );
            crate::chess_move::lemma_packed_fields(
                MoveType::Promotion,
                from,
                t1,
                Piece::Pawn,
                c,
                Piece::Knight,
            );
            assert forall|m: Move| #[trigger]
                out@.contains(m) <==> (outq.contains(m) || pl_pawn_quiet_at(*board, m, from)) by {
                if pl_pawn_quiet_at(*board, m, from) {
                    crate::chess_move::lemma_move_squares(m);
                    if m.spec_type() == MoveType::Promotion {
                        if m.spec_target_piece() == Piece::Queen {
                            crate::chess_move::lemma_canonical_eq(
                                m,
                                promo_move(from, t1, c, Piece::Queen),
                            );
                        } else if m.spec_target_piece() == Piece::Rook {
                            crate::chess_move::lemma_canonical_eq(
                                m,
                                promo_move(from, t1, c, Piece::Rook),
                            );
                        } else if m.spec_target_piece() == Piece::Bishop {
                            crate::chess_move::lemma_canonical_eq(
                                m,
                                promo_move(from, t1, c, Piece::Bishop),
                            );
                        } else {
                            crate::chess_move::lemma_canonical_eq(
                                m,
                                promo_move(from, t1, c, Piece::Knight),
                            );
                        }
                    }
                }
                if out@.contains(m) && !outq.contains(m) {
                    assert(pl_pawn_quiet_at(*board, m, from));
                }
            }
        }
        return ;
    }
    // single push
    let mv = Move::new(MoveType::Push, from, t1, Piece::Pawn, c, Piece::Empty);
    out.push(mv);
    let ghost out1 = out@;
    proof {
        assert forall|m: Move| #[trigger] out@.contains(m) <==> (outq.contains(m) || m == mv) by {
            vstd::seq_lib::lemma_seq_contains_after_push(outq, mv, m);
        }
        assert(pl_pawn_quiet_at(*board, mv, from));
    }
    // double push from the starting rank
    let jump_ok = if white {
        8 <= from && from < 16 && !occ.is_bit_set(from + 16)
    } else {
        48 <= from && from < 56 && !occ.is_bit_set(from - 16)
    };
    if jump_ok {
        let t2: u64 = if white {
            from + 16
        } else {
            from - 16
        };
        let mj = Move::new(MoveType::PawnJump, from, t2, Piece::Pawn, c, Piece::Empty);
        out.push(mj);
        proof {
            assert forall|m: Move| #[trigger] out@.contains(m) <==> (out1.contains(m) || m
                == mj) by {
                vstd::seq_lib::lemma_seq_contains_after_push(out1, mj, m);
            }
            assert(pl_pawn_quiet_at(*board, mj, from));
        }
    }
    proof {
        assert forall|m: Move| #[trigger]
            out@.contains(m) <==> (outq.contains(m) || pl_pawn_quiet_at(*board, m, from)) by {
            if pl_pawn_quiet_at(*board, m, from) {
                crate::chess_move::lemma_move_squares(m);
                if m.spec_type() == MoveType::Push {
                    crate::chess_move::lemma_canonical_eq(m, mv);
                } else if m.spec_type() == MoveType::PawnJump {
                    if jump_ok {
                        let t2: u64 = if white {
                            (from + 16) as u64
                        } else {
                            (from - 16) as u64
                        };
                        crate::chess_move::lemma_packed_fields(
                            MoveType::PawnJump,
                            from,
                            t2,
                            Piece::Pawn,
                            c,
                            Piece::Empty,
                        );
                        crate::chess_move::lemma_canonical_eq(
                            m,
                            crate::chess_move::spec_packed_move(
                                MoveType::PawnJump,
                                from,
                                t2,
                                Piece::Pawn,
                                c,
                                Piece::Empty,
                            ),
                        );
                    }
                }
            }
        }
    }
}

/// Appends the striking pawn moves from `from`: plain captures, capturing
/// promotions, and the en-passant capture.
fn emit_pawn_targets(board: &BoardState, out: &mut Vec<Move>, from: u64)
    requires
        board.wf_boards(),
        from < 64,
        bit64(board.spec_kind_bb(board.color_on_move, Piece::Pawn), from),
    ensures
        final(out)@.len() >= old(out)@.len(),
        forall|i: int| 0 <= i < old(out)@.len() ==> final(out)@[i] == old(out)@[i],
        forall|m: Move| #[trigger]
            final(out)@.contains(m) <==> (old(out)@.contains(m) || (exists|t: u64|
                t < 64 && #[trigger] pl_pawn_target_at(*board, m, from, t))),
{
    broadcast use crate::bits::group_bit64;

    let c = board.on_move();
    let white = c.to_u64() == 0;
    let atk = crate::attacks::pawn_attack_squares(c, 1u64 << from);
    let mut t: u64 = 0;
    while t < 64
        invariant
            t <= 64,
            board.wf_boards(),
            from < 64,
            bit64(board.spec_kind_bb(board.color_on_move, Piece::Pawn), from),
            c == board.color_on_move,
            white == (c == Color::White),
            atk == pawn_attacks_of(c, 1u64 << from),
            out@.len() >= old(out)@.len(),
            forall|i: int| 0 <= i < old(out)@.len() ==> out@[i] == old(out)@[i],
            forall|m: Move| #[trigger]
                out@.contains(m) <==> (old(out)@.contains(m) || (exists|u: u64|
                    u < t && #[trigger] pl_pawn_target_at(*board, m, from, u))),
        decreases 64 - t,
    {
        let ghost pre = out@;
        if BitBoard::from(atk).is_bit_set(t) {
            proof {
                lemma_square_facts(*board, t);
            }
            match board.get_piece_at(t as u8) {
                Option::Some((k, col)) => {
                    let is_enemy = col.to_u64() != c.to_u64();
                    if is_enemy && !matches!(k, Piece::King) {
                        let last_rank = if white {
                            t >= 56
                        } else {
                            t < 8
                        };
                        if last_rank {
                            emit_promotions(board, out, from, t, c);
                            proof {
                                crate::chess_move::lemma_packed_fields(
                                    MoveType::Promotion,
                                    from,
                                    t,
                                    Piece::Pawn,
                                    c,
                                    Piece::Queen,
                                );
                                crate::chess_move::lemma_packed_fields(
                                    MoveType::Promotion,
                                    from,
                                    t,
                                    Piece::Pawn,
                                    c,
                                    Piece::Rook,
                                );
                                crate::chess_move::lemma_packed_fields(
                                    MoveType::Promotion,
                                    from,
                                    t,
                                    Piece::Pawn,
                                    c,
                                    Piece::Bishop,
                                );
                                crate::chess_move::lemma_packed_fields(
                                    MoveType::Promotion,
                                    from,
                                    t,
                                    Piece::Pawn,
                                    c,
                                    Piece::Knight,
                                );
                                assert(bit64(board.spec_kind_bb(col, k), t));
                                assert(bit64(board.spec_color_bb(col), t));
                                assert(bit64(board.spec_occupied(), t));
                                assert forall|m: Move|
                                    pl_pawn_target_at(*board, m, from, t) implies out@.contains(
                                    m,
                                ) by {
                                    if m.spec_target_piece() == Piece::Queen {
                                        crate::chess_move::lemma_canonical_eq(
                                            m,
                                            promo_move(from, t, c, Piece::Queen),
                                        );
                                    } else if m.spec_target_piece() == Piece::Rook {
                                        crate::chess_move::lemma_canonical_eq(
                                            m,
                                            promo_move(from, t, c, Piece::Rook),
                                        );
                                    } else if m.spec_target_piece() == Piece::Bishop {
                                        crate::chess_move::lemma_canonical_eq(
                                            m,
                                            promo_move(from, t, c, Piece::Bishop),
                                        );
                                    } else {
                                        crate::chess_move::lemma_canonical_eq(
                                            m,
                                            promo_move(from, t, c, Piece::Knight),
                                        );
                                    }
                                }
                                assert forall|m: Move|
                                    out@.contains(m) && !pre.contains(m) implies pl_pawn_target_at(
                                    *board,
                                    m,
                                    from,
                                    t,
                                ) by {}
                            }
                        } else {
                            let mv = Move::new(MoveType::Capture, from, t, Piece::Pawn, c, k);
                            out.push(mv);
                            proof {
                                assert forall|m: Move| #[trigger]
                                    out@.contains(m) <==> (pre.contains(m) || m == mv) by {
                                    vstd::seq_lib::lemma_seq_contains_after_push(pre, mv, m);
                                }
                                assert(bit64(board.spec_kind_bb(col, k), t));
                                assert(bit64(board.spec_color_bb(col), t));
                                assert(bit64(board.spec_occupied(), t));
                                assert(pl_pawn_target_at(*board, mv, from, t));
                                assert forall|m: Move|
                                    pl_pawn_target_at(*board, m, from, t) implies m == mv by {
                                    if m.spec_type() == MoveType::Capture {
                                        assert(bit64(
                                            board.spec_kind_bb(col, m.spec_target_piece()),
                                            t,
                                        ));
                                    }
                                    crate::chess_move::lemma_canonical_eq(m, mv);
                                }
                            }
                        }
                    } else {
                        proof {
                            assert forall|m: Move| !pl_pawn_target_at(*board, m, from, t) by {
                                if pl_pawn_target_at(*board, m, from, t) {
                                    let e = c.spec_inverse();
                                    let ec = e.spec_index() as int;
                                    let cc = c.spec_index() as int;
                                    if !is_enemy {
                                        assert(col == c);
                                        assert(bit64(board.pieces_for_color[cc].value, t));
                                        if m.spec_type() == MoveType::Capture {
                                            assert(bit64(
                                                board.spec_kind_bb(e, m.spec_target_piece()),
                                                t,
                                            ));
                                        }
                                        if m.spec_type() == MoveType::Promotion {
                                            assert(bit64(board.spec_color_bb(e), t));
                                        }
                                    } else {
                                        assert(col == e);
                                        assert(bit64(board.spec_kind_bb(e, Piece::King), t));
                                        if m.spec_type() == MoveType::Capture {
                                            assert(bit64(
                                                board.spec_kind_bb(e, m.spec_target_piece()),
                                                t,
                                            ));
                                        }
                                    }
                                }
                            }
                        }
                    }
                },
                Option::None => {
                    let mut ep_ok = false;
                    match board.en_passant_position {
                        Option::Some(sq) => {
                            if sq.as_usize() as u64 == t {
                                if white {
                                    if t >= 8 {
                                        ep_ok = board.pieces[1][5].is_bit_set(t - 8);
                                    }
                                } else {
                                    if t < 56 {
                                        ep_ok = board.pieces[0][5].is_bit_set(t + 8);
                                    }
                                }
                            }
                        },
                        Option::None => {},
                    }
                    if ep_ok {
                        let mv = Move::new(MoveType::EnPassant, from, t, Piece::Pawn, c, Piece::Empty);
                        out.push(mv);
                        proof {
                            assert forall|m: Move| #[trigger]
                                out@.contains(m) <==> (pre.contains(m) || m == mv) by {
                                vstd::seq_lib::lemma_seq_contains_after_push(pre, mv, m);
                            }
                            assert(!bit64(board.spec_occupied(), t));
                            assert(pl_pawn_target_at(*board, mv, from, t));
                            assert forall|m: Move|
                                pl_pawn_target_at(*board, m, from, t) implies m == mv by {
                                if m.spec_type() == MoveType::Capture {
                                    assert(bit64(
                                        board.spec_kind_bb(
                                            c.spec_inverse(),
                                            m.spec_target_piece(),
                                        ),
                                        t,
                                    ));
                                }
                                if m.spec_type() == MoveType::Promotion {
                                    assert(bit64(board.spec_color_bb(c.spec_inverse()), t));
                                }
                                crate::chess_move::lemma_canonical_eq(m, mv);
                            }
                        }
                    } else {
                        proof {
                            assert forall|m: Move| !pl_pawn_target_at(*board, m, from, t) by {
                                if pl_pawn_target_at(*board, m, from, t) {
                                    let e = c.spec_inverse();
                                    if m.spec_type() == MoveType::Capture {
                                        assert(bit64(
                                            board.spec_kind_bb(e, m.spec_target_piece()),
                                            t,
                                        ));
                                    }
                                    if m.spec_type() == MoveType::Promotion {
                                        assert(bit64(board.spec_color_bb(e), t));
                                    }
                                }
                            }
                        }
                    }
                },
            }
        } else {
            proof {
                assert forall|m: Move| !pl_pawn_target_at(*board, m, from, t) by {}
            }
        }
        proof {
            assert forall|m: Move| #[trigger]
                out@.contains(m) implies (old(out)@.contains(m) || (exists|u: u64|
                u < t + 1 && #[trigger] pl_pawn_target_at(*board, m, from, u))) by {
                if pre.contains(m) {
                    if !old(out)@.contains(m) {
                        let u = choose|u: u64| u < t && pl_pawn_target_at(*board, m, from, u);
                        assert(u < t + 1 && pl_pawn_target_at(*board, m, from, u));
                    }
                } else {
                    assert(pl_pawn_target_at(*board, m, from, t));
                }
            }
            assert forall|m: Move|
                (exists|u: u64| u < t + 1 && #[trigger] pl_pawn_target_at(*board, m, from, u))
                    implies out@.contains(m) by {
                let u = choose|u: u64| u < t + 1 && pl_pawn_target_at(*board, m, from, u);
                if u < t {
                    assert(exists|u2: u64| u2 < t && pl_pawn_target_at(*board, m, from, u2));
                    assert(pre.contains(m));
                } else {
                    assert(pl_pawn_target_at(*board, m, from, t));
                }
            }
        }
        t = t + 1;
    }
}


/// A pawn move from one square is either quiet or striking, and nothing else.
proof fn lemma_pawn_decompose(s: BoardState, m: Move, from: u64)
    requires
        from < 64,
    ensures
        (pl_pawn(s, m) && m.spec_from() == from) <==> (pl_pawn_quiet_at(s, m, from) || (exists|
            t: u64,
        |
            t < 64 && #[trigger] pl_pawn_target_at(s, m, from, t))),
{
    crate::chess_move::lemma_move_squares(m);
    if pl_pawn(s, m) && m.spec_from() == from {
        let t = m.spec_to();
        match m.spec_type() {
            MoveType::Capture => {
                assert(pl_pawn_target_at(s, m, from, t));
            },
            MoveType::EnPassant => {
                assert(pl_pawn_target_at(s, m, from, t));
            },
            MoveType::Promotion => {
                if bit64(s.spec_occupied(), t) {
                    assert(pl_pawn_target_at(s, m, from, t));
                } else {
                    assert(pl_pawn_quiet_at(s, m, from));
                }
            },
            _ => {},
        }
    }
}

/// Generator for pawn moves, with the per-color, per-square attack table.
pub struct PawnMoveGenerator {
    pub cached_attacks: Vec<Vec<BitBoard>>,
}

impl PawnMoveGenerator {
    /// The table holds, for each color and square, the pawn attacks from it.
    pub open spec fn wf(self) -> bool {
        &&& self.cached_attacks@.len() == 2
        &&& self.cached_attacks@[0]@.len() == 64
        &&& self.cached_attacks@[1]@.len() == 64
        &&& forall|i: int|
            0 <= i < 64 ==> #[trigger] self.cached_attacks@[0]@[i].value == pawn_attacks_of(
                Color::White,
                1u64 << (i as u64),
            )
        &&& forall|i: int|
            0 <= i < 64 ==> #[trigger] self.cached_attacks@[1]@[i].value == pawn_attacks_of(
                Color::Black,
                1u64 << (i as u64),
            )
    }

    pub fn new() -> (r: Self)
        ensures
            r.wf(),
    {
        let mut white: Vec<BitBoard> = Vec::new();
        let mut black: Vec<BitBoard> = Vec::new();
        let mut i: u64 = 0;
        while i < 64
            invariant
                i <= 64,
                white@.len() == i,
                black@.len() == i,
                forall|j: int|
                    0 <= j < i ==> #[trigger] white@[j].value == pawn_attacks_of(
                        Color::White,
                        1u64 << (j as u64),
                    ),
                forall|j: int|
                    0 <= j < i ==> #[trigger] black@[j].value == pawn_attacks_of(
                        Color::Black,
                        1u64 << (j as u64),
                    ),
            decreases 64 - i,
        {
            white.push(BitBoard::from(crate::attacks::pawn_attack_squares(Color::White, 1u64 << i)));
            black.push(BitBoard::from(crate::attacks::pawn_attack_squares(Color::Black, 1u64 << i)));
            i = i + 1;
        }
        let mut cache: Vec<Vec<BitBoard>> = Vec::new();
        cache.push(white);
        cache.push(black);
        PawnMoveGenerator { cached_attacks: cache }
    }

    /// The squares attacked by the pawns of `color`, as whole-board shifts.
    pub fn generate_attacks(&self, board: &BoardState, color: Color) -> (r: BitBoard)
        ensures
            r.value == pawn_attacks_of(color, board.spec_kind_bb(color, Piece::Pawn)),
    {
        let ci = color.index();
        BitBoard::from(crate::attacks::pawn_attack_squares(color, board.pieces[ci][5].raw()))
    }

    /// Appends every pseudo-legal pawn move of the side on move.
    pub fn generate_moves(&self, board: &BoardState, out: &mut Vec<Move>)
        requires
            board.wf_boards(),
        ensures
            final(out)@.len() >= old(out)@.len(),
            forall|i: int| 0 <= i < old(out)@.len() ==> final(out)@[i] == old(out)@[i],
            forall|m: Move| #[trigger]
                final(out)@.contains(m) <==> (old(out)@.contains(m) || pl_pawn(*board, m)),
    {
        broadcast use crate::bits::group_bit64;

        let ci = board.on_move().index();
        let mut from: u64 = 0;
        while from < 64
            invariant
                from <= 64,
                board.wf_boards(),
                ci == board.color_on_move.spec_index(),
                out@.len() >= old(out)@.len(),
                forall|i: int| 0 <= i < old(out)@.len() ==> out@[i] == old(out)@[i],
                forall|m: Move| #[trigger]
                    out@.contains(m) <==> (old(out)@.contains(m) || (pl_pawn(*board, m)
                        && m.spec_from() < from)),
            decreases 64 - from,
        {
            let ghost pre = out@;
            if board.pieces[ci][5].is_bit_set(from) {
                emit_pawn_quiet(board, out, from);
                emit_pawn_targets(board, out, from);
                proof {
                    assert forall|m: Move| #[trigger]
                        out@.contains(m) <==> (pre.contains(m) || (pl_pawn(*board, m)
                            && m.spec_from() == from)) by {
                        lemma_pawn_decompose(*board, m, from);
                    }
                }
            } else {
                proof {
                    assert forall|m: Move| pl_pawn(*board, m) implies m.spec_from() != from by {
                        if m.spec_from() == from {
                            assert(bit64(
                                board.spec_kind_bb(board.color_on_move, Piece::Pawn),
                                from,
                            ));
                        }
                    }
                }
            }
            from = from + 1;
        }
        proof {
            assert forall|m: Move| pl_pawn(*board, m) implies m.spec_from() < 64 by {
                crate::chess_move::lemma_move_squares(m);
            }
        }
    }
}

} // verus!
