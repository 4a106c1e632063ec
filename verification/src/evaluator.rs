//! Static evaluation: material, the bishop pair, a bonus for a castled king,
//! and a penalty per pawn for each neighboring file without a friendly pawn.
//! White's terms count positive, Black's negative. The mobility term of the
//! evaluation cancels between the two sides and is left out.

use vstd::prelude::*;
use crate::bits::bit64;
use crate::bits::popcount64;
use crate::bitboard::BitBoard;
use crate::bitboard::FILE_A;
use crate::board_state::BoardState;
use crate::color::Color;
use crate::chess_move::Move;
use crate::piece::Piece;

verus! {

pub const CASTLING_VALUE: i32 = 65;

pub const ISOLATED_PAWN_VALUE: i32 = 15;

pub const DOUBLE_BISHOP_VALUE: i32 = 45;

/// No pawn of the given board stands on file `f`.
pub open spec fn spec_file_empty(pawns: u64, f: int) -> bool {
    pawns & (FILE_A << f) == 0
}

/// How many neighboring files of the pawn on square `sq` hold no friendly
/// pawn: zero, one or two.
pub open spec fn spec_pawn_isolation(pawns: u64, sq: int) -> int {
    (if sq % 8 > 0 && spec_file_empty(pawns, sq % 8 - 1) {
        1int
    } else {
        0int
    }) + (if sq % 8 < 7 && spec_file_empty(pawns, sq % 8 + 1) {
        1int
    } else {
        0int
    })
}

/// The isolation count summed over the pawns on squares below `n`.
pub open spec fn spec_iso_below(pawns: u64, n: nat) -> int
    decreases n,
{
    if n == 0 {
        0
    } else {
        spec_iso_below(pawns, (n - 1) as nat) + (if bit64(pawns, (n - 1) as u64) {
            spec_pawn_isolation(pawns, n - 1)
        } else {
            0
        })
    }
}

/// The material of one side: piece counts weighted by the piece values; the
/// king does not contribute.
pub open spec fn spec_material(s: BoardState, c: Color) -> int {
    popcount64(s.spec_kind_bb(c, Piece::Queen)) as int * 900 + popcount64(
        s.spec_kind_bb(c, Piece::Rook),
    ) as int * 500 + popcount64(s.spec_kind_bb(c, Piece::Bishop)) as int * 330 + popcount64(
        s.spec_kind_bb(c, Piece::Knight),
    ) as int * 325 + popcount64(s.spec_kind_bb(c, Piece::Pawn)) as int * 100
}

/// A side counts as castled when both its castling rights are gone and its
/// king stands on the c- or g-file square of its back rank.
pub open spec fn spec_castled(s: BoardState, c: Color) -> bool {
    match c {
        Color::White => !s.castling.spec_white_king_side() && !s.castling.spec_white_queen_side()
            && s.spec_kind_bb(c, Piece::King) & ((1u64 << 2) | (1u64 << 6)) != 0,
        Color::Black => !s.castling.spec_black_king_side() && !s.castling.spec_black_queen_side()
            && s.spec_kind_bb(c, Piece::King) & ((1u64 << 58) | (1u64 << 62)) != 0,
    }
}

/// One side's full score.
pub open spec fn spec_side_score(s: BoardState, c: Color) -> int {
    spec_material(s, c) + (if popcount64(s.spec_kind_bb(c, Piece::Bishop)) >= 2 {
        45int
    } else {
        0int
    }) + (if spec_castled(s, c) {
        65int
    } else {
        0int
    }) - 15 * spec_iso_below(s.spec_kind_bb(c, Piece::Pawn), 64)
}

/// The static score of the position: White's terms minus Black's.
pub open spec fn spec_evaluate(s: BoardState) -> int {
    spec_side_score(s, Color::White) - spec_side_score(s, Color::Black)
}

proof fn lemma_iso_bound(pawns: u64, n: nat)
    ensures
        0 <= spec_iso_below(pawns, n) <= 2 * n,
    decreases n,
{
    if n > 0 {
        lemma_iso_bound(pawns, (n - 1) as nat);
    }
}

proof fn lemma_side_score_bounds(s: BoardState, c: Color)
    ensures
        -2000 <= spec_side_score(s, c) <= 150000,
{
    crate::bitboard::lemma_popcount64_le(s.spec_kind_bb(c, Piece::Queen));
    crate::bitboard::lemma_popcount64_le(s.spec_kind_bb(c, Piece::Rook));
    crate::bitboard::lemma_popcount64_le(s.spec_kind_bb(c, Piece::Bishop));
    crate::bitboard::lemma_popcount64_le(s.spec_kind_bb(c, Piece::Knight));
    crate::bitboard::lemma_popcount64_le(s.spec_kind_bb(c, Piece::Pawn));
    lemma_iso_bound(s.spec_kind_bb(c, Piece::Pawn), 64);
}

/// The static score is far inside the mate sentinels.
pub proof fn lemma_evaluate_bounds(s: BoardState)
    ensures
        -152000 <= spec_evaluate(s) <= 152000,
{
    lemma_side_score_bounds(s, Color::White);
    lemma_side_score_bounds(s, Color::Black);
}

#[derive(PartialEq, Eq, Structural, Clone, Copy, Debug)]
pub struct Evaluator {}

fn iso_count(pawns: u64) -> (r: u32)
    ensures
        r == spec_iso_below(pawns, 64),
        r <= 128,
{
    let mut sq: u64 = 0;
    let mut count: u32 = 0;
    while sq < 64
        invariant
            sq <= 64,
            count == spec_iso_below(pawns, sq as nat),
            count <= 2 * sq,
        decreases 64 - sq,
    {
        if BitBoard::from(pawns).is_bit_set(sq) {
            let file = sq % 8;
            if file > 0 && (pawns & (FILE_A << (file - 1))) == 0 {
                count = count + 1;
            }
            if file < 7 && (pawns & (FILE_A << (file + 1))) == 0 {
                count = count + 1;
            }
        }
        sq = sq + 1;
    }
    count
}

fn side_score(board: &BoardState, c: Color) -> (r: i32)
    ensures
        r == spec_side_score(*board, c),
        -2000 <= r <= 150000,
{
    let ci = c.index();
    proof {
        crate::bitboard::lemma_popcount64_le(board.pieces[ci as int][1].value);
        crate::bitboard::lemma_popcount64_le(board.pieces[ci as int][2].value);
        crate::bitboard::lemma_popcount64_le(board.pieces[ci as int][3].value);
        crate::bitboard::lemma_popcount64_le(board.pieces[ci as int][4].value);
        crate::bitboard::lemma_popcount64_le(board.pieces[ci as int][5].value);
    }
    let queens = board.pieces[ci][1].bit_count() as i32;
    let rooks = board.pieces[ci][2].bit_count() as i32;
    let bishops = board.pieces[ci][3].bit_count() as i32;
    let knights = board.pieces[ci][4].bit_count() as i32;
    let pawns_n = board.pieces[ci][5].bit_count() as i32;
    let material = queens * 900 + rooks * 500 + bishops * 330 + knights * 325 + pawns_n * 100;
    let pair = if bishops >= 2 {
        45
    } else {
        0
    };
    let king = board.pieces[ci][0].raw();
    let castled = match c {
        Color::White => !board.castling.is_white_king_side_allowed()
            && !board.castling.is_white_queen_side_allowed() && (king & ((1u64 << 2) | (1u64 << 6)))
            != 0,
        Color::Black => !board.castling.is_black_king_side_allowed()
            && !board.castling.is_black_queen_side_allowed() && (king & ((1u64 << 58) | (1u64
            << 62))) != 0,
    };
    let castle_bonus = if castled {
        65
    } else {
        0
    };
    let iso = iso_count(board.pieces[ci][5].raw()) as i32;
    material + pair + castle_bonus - 15 * iso
}

impl Evaluator {
    pub fn new() -> (r: Self) {
        Evaluator {  }
    }

    /// The static score of the position; the `legal_moves` and `depth`
    /// arguments are accepted for the search's calling shape and do not
    /// change the score.
    pub fn evaluate(&self, board: &BoardState, legal_moves: &Vec<Move>, depth: usize) -> (r: i32)
        ensures
            r == spec_evaluate(*board),
            -152000 <= r <= 152000,
    {
        let w = side_score(board, Color::White);
        let b = side_score(board, Color::Black);
        w - b
    }
}

} // verus!
