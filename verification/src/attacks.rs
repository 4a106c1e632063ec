//! Attack sets. A sliding attack is defined as the naive ray walk that stops
//! at, and includes, the first blocker; the executable functions are proved
//! to compute exactly that. Leaper attacks are unions of one- and two-step
//! shifts of the square's single-bit board.
//!
//! A precomputed table hashed by the masked occupancy would answer a sliding
//! query faster; walking the four rays directly is the form whose equality
//! to the blocker-walk definition is proved here, trading a constant factor
//! of speed for a contract with no table to trust.

use vstd::prelude::*;
use crate::bits::bit64;
use crate::bitboard::BitBoard;
use crate::bitboard::east_of;
use crate::bitboard::west_of;
use crate::bitboard::north_of;
use crate::bitboard::south_of;
use crate::bitboard::northeast_of;
use crate::bitboard::northwest_of;
use crate::bitboard::southeast_of;
use crate::bitboard::southwest_of;
use crate::bitboard::shift_xy;
use crate::board_state::BoardState;
use crate::color::Color;
use crate::piece::Piece;

verus! {

#[derive(PartialEq, Eq, Structural, Clone, Copy, Debug)]
pub enum Direction {
    North,
    NorthEast,
    East,
    SouthEast,
    South,
    SouthWest,
    West,
    NorthWest,
}

/// One step of `b` in direction `d`, with the file wrap masks.
pub open spec fn shift_once(d: Direction, b: u64) -> u64 {
    match d {
        Direction::North => north_of(b),
        Direction::NorthEast => northeast_of(b),
        Direction::East => east_of(b),
        Direction::SouthEast => southeast_of(b),
        Direction::South => south_of(b),
        Direction::SouthWest => southwest_of(b),
        Direction::West => west_of(b),
        Direction::NorthWest => northwest_of(b),
    }
}

proof fn lemma_shift_once_zero(d: Direction)
    ensures
        shift_once(d, 0) == 0,
{
    crate::bits::lemma_u64_basics(!crate::bitboard::FILE_A, 8, 0);
    crate::bits::lemma_u64_basics(!crate::bitboard::FILE_A, 9, 0);
    crate::bits::lemma_u64_basics(!crate::bitboard::FILE_A, 1, 0);
    crate::bits::lemma_u64_basics(!crate::bitboard::FILE_A, 7, 0);
    crate::bits::lemma_u64_basics(!crate::bitboard::FILE_H, 8, 0);
    crate::bits::lemma_u64_basics(!crate::bitboard::FILE_H, 9, 0);
    crate::bits::lemma_u64_basics(!crate::bitboard::FILE_H, 1, 0);
    crate::bits::lemma_u64_basics(!crate::bitboard::FILE_H, 7, 0);
}

/// The squares a ray from `b` in direction `d` reaches over occupancy `occ`:
/// walk square by square, stop at and include the first occupied square.
pub open spec fn ray(d: Direction, b: u64, occ: u64, fuel: nat) -> u64
    decreases fuel,
{
    if fuel == 0 {
        0
    } else {
        let n = shift_once(d, b);
        if n == 0 {
            0
        } else if n & occ != 0 {
            n
        } else {
            n | ray(d, n, occ, (fuel - 1) as nat)
        }
    }
}

/// Walks one ray and returns exactly the squares of the ray spec.
pub fn ray_attack(d: Direction, b: u64, occ: u64) -> (r: u64)
    ensures
        r == ray(d, b, occ, 8),
{
    let mut cur = b;
    let mut acc: u64 = 0;
    let mut i: u64 = 0;
    proof {
        crate::bits::lemma_u64_basics(ray(d, b, occ, 8), 0, 0);
    }
    while i < 8
        invariant
            i <= 8,
            ray(d, b, occ, 8) == acc | ray(d, cur, occ, (8 - i) as nat),
        decreases 8 - i,
    {
        let n = shift_step(d, cur);
        proof {
            lemma_shift_once_zero(d);
            if n != 0 && n & occ == 0 {
                crate::bits::lemma_u64_basics(acc, n, ray(d, n, occ, (7 - i) as nat));
            } else {
                crate::bits::lemma_u64_basics(acc, n, 0);
                crate::bits::lemma_u64_basics(acc | n, 0, 0);
            }
        }
        if n != 0 && n & occ == 0 {
            acc = acc | n;
            cur = n;
        } else {
            acc = acc | n;
            cur = 0;
        }
        i = i + 1;
    }
    proof {
        crate::bits::lemma_u64_basics(acc, 0, 0);
    }
    acc
}

/// One step of a board in direction `d`.
pub fn shift_step(d: Direction, b: u64) -> (r: u64)
    ensures
        r == shift_once(d, b),
{
    let bb = BitBoard::from(b);
    match d {
        Direction::North => bb.shifted_north().raw(),
        Direction::NorthEast => bb.shifted_northeast().raw(),
        Direction::East => bb.shifted_east().raw(),
        Direction::SouthEast => bb.shifted_southeast().raw(),
        Direction::South => bb.shifted_south().raw(),
        Direction::SouthWest => bb.shifted_southwest().raw(),
        Direction::West => bb.shifted_west().raw(),
        Direction::NorthWest => bb.shifted_northwest().raw(),
    }
}

/// Diagonal attacks from square `sq`: the four diagonal rays.
pub open spec fn diag_attacks_from(sq: u64, occ: u64) -> u64 {
    ray(Direction::NorthEast, 1u64 << sq, occ, 8) | ray(Direction::NorthWest, 1u64 << sq, occ, 8)
        | ray(Direction::SouthEast, 1u64 << sq, occ, 8) | ray(
        Direction::SouthWest,
        1u64 << sq,
        occ,
        8,
    )
}

/// Straight-line attacks from square `sq`: the four orthogonal rays.
pub open spec fn line_attacks_from(sq: u64, occ: u64) -> u64 {
    ray(Direction::North, 1u64 << sq, occ, 8) | ray(Direction::South, 1u64 << sq, occ, 8) | ray(
        Direction::East,
        1u64 << sq,
        occ,
        8,
    ) | ray(Direction::West, 1u64 << sq, occ, 8)
}

/// Knight attacks of every piece on `b` at once.
pub open spec fn knight_attacks_of(b: u64) -> u64 {
    shift_xy(b, 2, 1) | shift_xy(b, 2, -1) | shift_xy(b, 1, 2) | shift_xy(b, -1, 2) | shift_xy(
        b,
        -2,
        1,
    ) | shift_xy(b, -2, -1) | shift_xy(b, -1, -2) | shift_xy(b, 1, -2)
}

/// King attacks of every piece on `b` at once.
pub open spec fn king_attacks_of(b: u64) -> u64 {
    shift_xy(b, 1, -1) | shift_xy(b, 1, 0) | shift_xy(b, 1, 1) | shift_xy(b, 0, -1) | shift_xy(
        b,
        0,
        1,
    ) | shift_xy(b, -1, -1) | shift_xy(b, -1, 0) | shift_xy(b, -1, 1)
}

/// Pawn attacks of every pawn on `b`: the two forward diagonals of `c`.
pub open spec fn pawn_attacks_of(c: Color, b: u64) -> u64 {
    match c {
        Color::White => northeast_of(b) | northwest_of(b),
        Color::Black => southeast_of(b) | southwest_of(b),
    }
}

/// The squares attacked by a piece of kind `p` and color `c` standing on
/// `sq` over occupancy `occ`.
pub open spec fn attack_of(p: Piece, c: Color, sq: u64, occ: u64) -> u64 {
    match p {
        Piece::King => king_attacks_of(1u64 << sq),
        Piece::Queen => line_attacks_from(sq, occ) | diag_attacks_from(sq, occ),
        Piece::Rook => line_attacks_from(sq, occ),
        Piece::Bishop => diag_attacks_from(sq, occ),
        Piece::Knight => knight_attacks_of(1u64 << sq),
        Piece::Pawn => pawn_attacks_of(c, 1u64 << sq),
        Piece::Empty => 0,
    }
}

pub fn knight_attack_squares(b: u64) -> (r: u64)
    ensures
        r == knight_attacks_of(b),
{
    let bb = BitBoard::from(b);
    bb.shifted(2, 1).raw() | bb.shifted(2, -1).raw() | bb.shifted(1, 2).raw() | bb.shifted(
        -1,
        2,
    ).raw() | bb.shifted(-2, 1).raw() | bb.shifted(-2, -1).raw() | bb.shifted(-1, -2).raw()
        | bb.shifted(1, -2).raw()
}

pub fn king_attack_squares(b: u64) -> (r: u64)
    ensures
        r == king_attacks_of(b),
{
    let bb = BitBoard::from(b);
    bb.shifted(1, -1).raw() | bb.shifted(1, 0).raw() | bb.shifted(1, 1).raw() | bb.shifted(
        0,
        -1,
    ).raw() | bb.shifted(0, 1).raw() | bb.shifted(-1, -1).raw() | bb.shifted(-1, 0).raw()
        | bb.shifted(-1, 1).raw()
}

pub fn pawn_attack_squares(c: Color, b: u64) -> (r: u64)
    ensures
        r == pawn_attacks_of(c, b),
{
    let bb = BitBoard::from(b);
    match c {
        Color::White => bb.shifted_northeast().raw() | bb.shifted_northwest().raw(),
        Color::Black => bb.shifted_southeast().raw() | bb.shifted_southwest().raw(),
    }
}

/// Diagonal attacks from one square, by walking the four diagonal rays.
pub fn diag_attack_squares(sq: u64, occ: u64) -> (r: u64)
    requires
        sq < 64,
    ensures
        r == diag_attacks_from(sq, occ),
{
    let b = 1u64 << sq;
    ray_attack(Direction::NorthEast, b, occ) | ray_attack(Direction::NorthWest, b, occ)
        | ray_attack(Direction::SouthEast, b, occ) | ray_attack(Direction::SouthWest, b, occ)
}

/// Straight-line attacks from one square, by walking the four orthogonal rays.
pub fn line_attack_squares(sq: u64, occ: u64) -> (r: u64)
    requires
        sq < 64,
    ensures
        r == line_attacks_from(sq, occ),
{
    let b = 1u64 << sq;
    ray_attack(Direction::North, b, occ) | ray_attack(Direction::South, b, occ) | ray_attack(
        Direction::East,
        b,
        occ,
    ) | ray_attack(Direction::West, b, occ)
}

/// The squares attacked by a piece of kind `p` and color `c` on `sq`.
pub fn attack_squares(p: Piece, c: Color, sq: u64, occ: u64) -> (r: u64)
    requires
        sq < 64,
    ensures
        r == attack_of(p, c, sq, occ),
{
    match p {
        Piece::King => king_attack_squares(1u64 << sq),
        Piece::Queen => line_attack_squares(sq, occ) | diag_attack_squares(sq, occ),
        Piece::Rook => line_attack_squares(sq, occ),
        Piece::Bishop => diag_attack_squares(sq, occ),
        Piece::Knight => knight_attack_squares(1u64 << sq),
        Piece::Pawn => pawn_attack_squares(c, 1u64 << sq),
        Piece::Empty => 0,
    }
}

/// Attacks in the manner of kind `p` from every square of `mask` below `n`,
/// joined from the low squares up.
pub open spec fn kind_attacks_below(p: Piece, c: Color, mask: u64, occ: u64, n: nat) -> u64
    decreases n,
{
    if n == 0 {
        0
    } else {
        let rest = kind_attacks_below(p, c, mask, occ, (n - 1) as nat);
        if bit64(mask, (n - 1) as u64) {
            rest | attack_of(p, c, (n - 1) as u64, occ)
        } else {
            rest
        }
    }
}

/// Every square attacked by the pieces of color `c`: sliding attacks square
/// by square, pawn attacks as whole-board shifts.
pub open spec fn spec_attacks_of(s: BoardState, c: Color) -> u64 {
    kind_attacks_below(
        Piece::Rook,
        c,
        s.spec_kind_bb(c, Piece::Rook) | s.spec_kind_bb(c, Piece::Queen),
        s.spec_occupied(),
        64,
    ) | kind_attacks_below(
        Piece::Bishop,
        c,
        s.spec_kind_bb(c, Piece::Bishop) | s.spec_kind_bb(c, Piece::Queen),
        s.spec_occupied(),
        64,
    ) | pawn_attacks_of(c, s.spec_kind_bb(c, Piece::Pawn)) | kind_attacks_below(
        Piece::Knight,
        c,
        s.spec_kind_bb(c, Piece::Knight),
        s.spec_occupied(),
        64,
    ) | kind_attacks_below(Piece::King, c, s.spec_kind_bb(c, Piece::King), s.spec_occupied(), 64)
}

/// Which squares a pawn on `f` attacks: the two forward diagonals, wrapped
/// off at the board's edge files.
pub proof fn lemma_pawn_attack_bits(f: u64, t: u64)
    by (bit_vector)
    requires
        f < 64,
        t < 64,
    ensures
        bit64(northeast_of(1u64 << f) | northwest_of(1u64 << f), t) <==> ((t == f + 9 && t % 8 != 0)
            || (t == f + 7 && t % 8 != 7)),
        bit64(southeast_of(1u64 << f) | southwest_of(1u64 << f), t) <==> ((t + 7 == f && t % 8 != 0)
            || (t + 9 == f && t % 8 != 7)),
{
}

/// Computes every square attacked by the pieces of color `c`.
pub fn compute_attacks_of(s: &BoardState, c: Color) -> (r: u64)
    ensures
        r == spec_attacks_of(*s, c),
{
    let ci = c.index();
    let occ = s.all_pieces().raw();
    let rooks = s.pieces[ci][2].raw() | s.pieces[ci][1].raw();
    let bishops = s.pieces[ci][3].raw() | s.pieces[ci][1].raw();
    kind_mask_attacks(Piece::Rook, c, rooks, occ) | kind_mask_attacks(Piece::Bishop, c, bishops, occ)
        | pawn_attack_squares(c, s.pieces[ci][5].raw()) | kind_mask_attacks(
        Piece::Knight,
        c,
        s.pieces[ci][4].raw(),
        occ,
    ) | kind_mask_attacks(Piece::King, c, s.pieces[ci][0].raw(), occ)
}

/// Attacks in the manner of kind `p` from every square of `mask`.
pub fn kind_mask_attacks(p: Piece, c: Color, mask: u64, occ: u64) -> (r: u64)
    ensures
        r == kind_attacks_below(p, c, mask, occ, 64),
{
    let mut acc: u64 = 0;
    let mut sq: u64 = 0;
    while sq < 64
        invariant
            sq <= 64,
            acc == kind_attacks_below(p, c, mask, occ, sq as nat),
        decreases 64 - sq,
    {
        let present = BitBoard::from(mask).is_bit_set(sq);
        if present {
            acc = acc | attack_squares(p, c, sq, occ);
        }
        sq = sq + 1;
    }
    acc
}

} // verus!
