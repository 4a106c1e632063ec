//! The position: stacked bitboards per color and piece kind, side to move,
//! castling rights, en-passant target and move clocks. `make_move` produces a
//! new state and preserves the board invariants.

use vstd::prelude::*;
use crate::bits::bit64;
use crate::bits::bcount;
use crate::bits::single_bit64;
use crate::bits::popcount64;
use crate::bitboard::BitBoard;
use crate::castling::CastlingRight;
use crate::color::Color;
use crate::chess_move::Move;
use crate::move_type::MoveType;
use crate::piece::Piece;
use crate::square::Square;

verus! {

#[derive(Clone, Copy, Debug)]
pub struct BoardState {
    pub pieces_for_color: [BitBoard; 2],
    pub pieces: [[BitBoard; 6]; 2],
    pub half_move_clock: u16,
    pub ply: u16,
    pub score: i16,
    pub color_on_move: Color,
    pub castling: CastlingRight,
    pub en_passant_position: Option<Square>,
}

/// Union of the six per-kind boards of one color.
pub open spec fn union6(a: [BitBoard; 6]) -> u64 {
    a[0].value | a[1].value | a[2].value | a[3].value | a[4].value | a[5].value
}

impl BoardState {
    /// The board of all pieces of `c`.
    pub open spec fn spec_color_bb(self, c: Color) -> u64 {
        self.pieces_for_color[c.spec_index() as int].value
    }

    /// The board of the pieces of kind `p` and color `c`.
    pub open spec fn spec_kind_bb(self, c: Color, p: Piece) -> u64 {
        self.pieces[c.spec_index() as int][p.spec_index() as int].value
    }

    /// The board of all occupied squares.
    pub open spec fn spec_occupied(self) -> u64 {
        self.pieces_for_color[0].value | self.pieces_for_color[1].value
    }

    /// The kind of the piece of color `c` on square `sq`, if any,
    /// searched in kind order.
    pub open spec fn spec_find_kind(self, c: Color, sq: u64) -> Option<Piece> {
        if bit64(self.spec_kind_bb(c, Piece::King), sq) {
            Option::Some(Piece::King)
        } else if bit64(self.spec_kind_bb(c, Piece::Queen), sq) {
            Option::Some(Piece::Queen)
        } else if bit64(self.spec_kind_bb(c, Piece::Rook), sq) {
            Option::Some(Piece::Rook)
        } else if bit64(self.spec_kind_bb(c, Piece::Bishop), sq) {
            Option::Some(Piece::Bishop)
        } else if bit64(self.spec_kind_bb(c, Piece::Knight), sq) {
            Option::Some(Piece::Knight)
        } else if bit64(self.spec_kind_bb(c, Piece::Pawn), sq) {
            Option::Some(Piece::Pawn)
        } else {
            Option::None
        }
    }

    /// The piece and color on square `sq`, if any.
    pub open spec fn spec_piece_at(self, sq: u64) -> Option<(Piece, Color)> {
        if bit64(self.spec_color_bb(Color::White), sq) {
            match self.spec_find_kind(Color::White, sq) {
                Option::Some(p) => Option::Some((p, Color::White)),
                Option::None => Option::None,
            }
        } else if bit64(self.spec_color_bb(Color::Black), sq) {
            match self.spec_find_kind(Color::Black, sq) {
                Option::Some(p) => Option::Some((p, Color::Black)),
                Option::None => Option::None,
            }
        } else {
            Option::None
        }
    }

    /// The board invariants, stated square by square: no square is held by
    /// both colors, a color holds a square exactly when one of its kind
    /// boards does, no square is held by two kinds of one color, and the
    /// scalar fields are in range.
    pub open spec fn wf_boards(self) -> bool {
        &&& (forall|b: u64|
            b < 64 ==> !(#[trigger] bit64(self.pieces_for_color[0].value, b) && bit64(
                self.pieces_for_color[1].value,
                b,
            )))
        &&& (forall|c: int, b: u64|
            0 <= c < 2 && b < 64 ==> (#[trigger] bit64(self.pieces_for_color[c].value, b) <==> (
            bit64(self.pieces[c][0].value, b) || bit64(self.pieces[c][1].value, b) || bit64(
                self.pieces[c][2].value,
                b,
            ) || bit64(self.pieces[c][3].value, b) || bit64(self.pieces[c][4].value, b) || bit64(
                self.pieces[c][5].value,
                b,
            ))))
        &&& (forall|c: int, b: u64|
            0 <= c < 2 && b < 64 ==> bcount(#[trigger] bit64(self.pieces[c][0].value, b)) + bcount(
                bit64(self.pieces[c][1].value, b),
            ) + bcount(bit64(self.pieces[c][2].value, b)) + bcount(
                bit64(self.pieces[c][3].value, b),
            ) + bcount(bit64(self.pieces[c][4].value, b)) + bcount(
                bit64(self.pieces[c][5].value, b),
            ) <= 1)
        &&& match self.en_passant_position {
            Option::Some(sq) => sq.index < 64,
            Option::None => true,
        }
        &&& self.castling.spec_valid()
    }

    /// The two color boards of a well-formed position are disjoint.
    pub proof fn lemma_wf_colors_disjoint(self)
        requires
            self.wf_boards(),
        ensures
            self.pieces_for_color[0].value & self.pieces_for_color[1].value == 0,
    {
        broadcast use crate::bits::group_bit64;

        let x = self.pieces_for_color[0].value;
        let y = self.pieces_for_color[1].value;
        assert forall|b: u64| b < 64 implies (bit64(x & y, b) <==> bit64(0u64, b)) by {
            crate::bits::lemma_bit64_of_zero(b);
        }
        crate::bits::lemma_bit64_ext(x & y, 0);
    }

    /// The color board of a well-formed position is the union of its six
    /// kind boards.
    pub proof fn lemma_wf_color_union(self, c: int)
        requires
            self.wf_boards(),
            0 <= c < 2,
        ensures
            self.pieces_for_color[c].value == union6(self.pieces[c]),
    {
        broadcast use crate::bits::group_bit64;

        let x = self.pieces_for_color[c].value;
        let y = union6(self.pieces[c]);
        assert forall|b: u64| b < 64 implies (bit64(x, b) <==> bit64(y, b)) by {
            assert(bit64(x, b) <==> (bit64(self.pieces[c][0].value, b) || bit64(
                self.pieces[c][1].value,
                b,
            ) || bit64(self.pieces[c][2].value, b) || bit64(self.pieces[c][3].value, b) || bit64(
                self.pieces[c][4].value,
                b,
            ) || bit64(self.pieces[c][5].value, b)));
        }
        crate::bits::lemma_bit64_ext(x, y);
    }

    /// No square is held by both colors: the intersection of the two color
    /// boards has population count zero.
    pub proof fn lemma_no_square_shared(self)
        requires
            self.wf_boards(),
        ensures
            popcount64(self.pieces_for_color[0].value & self.pieces_for_color[1].value) == 0,
    {
        self.lemma_wf_colors_disjoint();
    }

    /// Each side with its lone king has exactly one king by population count.
    pub proof fn lemma_one_king_per_color(self)
        requires
            self.kings_ok(),
        ensures
            popcount64(self.spec_kind_bb(Color::White, Piece::King)) == 1,
            popcount64(self.spec_kind_bb(Color::Black, Piece::King)) == 1,
    {
        crate::bits::lemma_single_bit_popcount(self.spec_kind_bb(Color::White, Piece::King));
        crate::bits::lemma_single_bit_popcount(self.spec_kind_bb(Color::Black, Piece::King));
    }

    /// Exactly one king of each color.
    pub open spec fn kings_ok(self) -> bool {
        &&& single_bit64(self.spec_kind_bb(Color::White, Piece::King))
        &&& single_bit64(self.spec_kind_bb(Color::Black, Piece::King))
    }

    pub fn all_pieces(&self) -> (r: BitBoard)
        ensures
            r.value == self.spec_occupied(),
    {
        self.pieces_for_color[0].or(self.pieces_for_color[1])
    }

    /// The pieces of the side that is not on move.
    pub fn opposite_pieces(&self) -> (r: BitBoard)
        ensures
            r.value == self.spec_color_bb(self.color_on_move.spec_inverse()),
    {
        self.pieces_for_color[self.color_on_move.inverse().index()]
    }

    /// The squares the side on move may move to: everything but its own pieces.
    pub fn board_to_attack(&self) -> (r: BitBoard)
        ensures
            r.value == !self.spec_color_bb(self.color_on_move),
    {
        self.pieces_for_color[self.color_on_move.index()].inverted()
    }

    pub fn get_king(&self, color: Color) -> (r: BitBoard)
        ensures
            r.value == self.spec_kind_bb(color, Piece::King),
    {
        self.pieces[color.index()][0]
    }

    pub fn on_move(&self) -> (r: Color)
        ensures
            r == self.color_on_move,
    {
        self.color_on_move
    }

    fn find_piece_at_square_for_color(&self, color: Color, sqr: u8) -> (r: Option<Piece>)
        requires
            sqr < 64,
        ensures
            r == self.spec_find_kind(color, sqr as u64),
    {
        let ci = color.index();
        if self.pieces[ci][0].is_bit_set(sqr as u64) {
            Option::Some(Piece::King)
        } else if self.pieces[ci][1].is_bit_set(sqr as u64) {
            Option::Some(Piece::Queen)
        } else if self.pieces[ci][2].is_bit_set(sqr as u64) {
            Option::Some(Piece::Rook)
        } else if self.pieces[ci][3].is_bit_set(sqr as u64) {
            Option::Some(Piece::Bishop)
        } else if self.pieces[ci][4].is_bit_set(sqr as u64) {
            Option::Some(Piece::Knight)
        } else if self.pieces[ci][5].is_bit_set(sqr as u64) {
            Option::Some(Piece::Pawn)
        } else {
            Option::None
        }
    }

    fn find_piece_bb_at_sqr_for_color(&self, color: Color, sqr: u8) -> (r: Option<BitBoard>)
        requires
            sqr < 64,
        ensures
            match r {
                Option::Some(b) => self.spec_find_kind(color, sqr as u64) is Some && b.value
                    == self.spec_kind_bb(color, self.spec_find_kind(color, sqr as u64).unwrap()),
                Option::None => self.spec_find_kind(color, sqr as u64) is None,
            },
    {
        match self.find_piece_at_square_for_color(color, sqr) {
            Option::Some(p) => Option::Some(self.pieces[color.index()][p.index()]),
            Option::None => Option::None,
        }
    }

    pub fn get_piece_at(&self, sqr: u8) -> (r: Option<(Piece, Color)>)
        requires
            sqr < 64,
        ensures
            r == self.spec_piece_at(sqr as u64),
    {
        if self.pieces_for_color[0].is_bit_set(sqr as u64) {
            match self.find_piece_at_square_for_color(Color::White, sqr) {
                Option::Some(p) => Option::Some((p, Color::White)),
                Option::None => Option::None,
            }
        } else if self.pieces_for_color[1].is_bit_set(sqr as u64) {
            match self.find_piece_at_square_for_color(Color::Black, sqr) {
                Option::Some(p) => Option::Some((p, Color::Black)),
                Option::None => Option::None,
            }
        } else {
            Option::None
        }
    }

    /// Clears square `sqr`: the piece standing there leaves both its kind
    /// board and its color board, so a well-formed position stays well
    /// formed and every other square keeps its piece.
    pub fn remove_piece(&mut self, sqr: u8)
        requires
            sqr < 64,
        ensures
            forall|c2: int, p2: int|
                0 <= c2 < 2 && 0 <= p2 < 6 ==> #[trigger] final(self).pieces[c2][p2].value == (
                match old(self).spec_piece_at(sqr as u64) {
                    Option::Some((p, c)) => {
                        if c2 == c.spec_index() && p2 == p.spec_index() {
                            old(self).pieces[c2][p2].value & !(1u64 << (sqr as u64))
                        } else {
                            old(self).pieces[c2][p2].value
                        }
                    },
                    Option::None => old(self).pieces[c2][p2].value,
                }),
            forall|c2: int|
                0 <= c2 < 2 ==> #[trigger] final(self).pieces_for_color[c2].value == (match old(
                    self,
                ).spec_piece_at(sqr as u64) {
                    Option::Some((p, c)) => {
                        if c2 == c.spec_index() {
                            old(self).pieces_for_color[c2].value & !(1u64 << (sqr as u64))
                        } else {
                            old(self).pieces_for_color[c2].value
                        }
                    },
                    Option::None => old(self).pieces_for_color[c2].value,
                }),
            old(self).wf_boards() ==> final(self).wf_boards(),
            old(self).wf_boards() ==> final(self).spec_piece_at(sqr as u64) is None,
            old(self).wf_boards() ==> (forall|b: u64|
                b < 64 && b != sqr ==> final(self).spec_piece_at(b) == old(self).spec_piece_at(b)),
            final(self).half_move_clock == old(self).half_move_clock,
            final(self).ply == old(self).ply,
            final(self).score == old(self).score,
            final(self).color_on_move == old(self).color_on_move,
            final(self).castling == old(self).castling,
            final(self).en_passant_position == old(self).en_passant_position,
    {
        broadcast use crate::bits::group_bit64;

        let removed = self.get_piece_at(sqr);
        let ghost o = *old(self);
        let sq = sqr as u64;
        match removed {
            Option::Some((p, c)) => {
                let ci = c.index();
                let pi = p.index();
                let kind_bb = self.pieces[ci][pi].remove_bit(sq);
                self.pieces[ci][pi] = kind_bb;
                let col_bb = self.pieces_for_color[ci].remove_bit(sq);
                self.pieces_for_color[ci] = col_bb;
                proof {
                    if o.wf_boards() {
                        lemma_remove_piece_wf(o, *self, sq, p, c);
                    }
                }
            },
            Option::None => {},
        }
    }

    /// The full-move number of the position: the ply count rebuilt into the
    /// counter a position string carries, starting at one.
    pub fn full_moves(&self) -> (r: u16)
        ensures
            r == self.ply / 2 + 1,
    {
        self.ply / 2 + 1
    }
}

/// The from-to mask of the rook taking part in a castling move, keyed by the
/// king's destination square.
pub open spec fn spec_castling_rook_mask(t: u64) -> u64 {
    (1u64 << spec_castling_rook_corner(t)) | (1u64 << spec_castling_rook_to(t))
}

/// The square of the pawn removed by an en-passant capture: one rank behind
/// the destination from the mover's point of view.
pub open spec fn spec_ep_captured_square(m: Move) -> u64 {
    if m.spec_color() == Color::White {
        (m.spec_to() - 8) as u64
    } else {
        (m.spec_to() + 8) as u64
    }
}

impl BoardState {
    /// What a move needs from the position so that applying it keeps the
    /// boards well formed: the mover stands on the from-square, the
    /// destination is not its own, and each move kind finds what it updates.
    pub open spec fn spec_can_apply(self, m: Move) -> bool {
        let c = m.spec_color();
        let e = c.spec_inverse();
        let p = m.spec_piece();
        let f = m.spec_from();
        let t = m.spec_to();
        let tp = m.spec_target_piece();
        &&& m.spec_type() != MoveType::Invalid
        &&& c == self.color_on_move
        &&& p != Piece::Empty
        &&& f != t
        &&& bit64(self.spec_kind_bb(c, p), f)
        &&& !bit64(self.spec_color_bb(c), t)
        &&& match m.spec_type() {
            MoveType::Push => !bit64(self.spec_occupied(), t),
            MoveType::PawnJump => {
                &&& p == Piece::Pawn
                &&& !bit64(self.spec_occupied(), t)
                &&& (c == Color::White ==> t == f + 16)
                &&& (c == Color::Black ==> f == t + 16)
            },
            MoveType::Capture => {
                &&& tp != Piece::Empty
                &&& tp != Piece::King
                &&& bit64(self.spec_kind_bb(e, tp), t)
            },
            MoveType::Castling => {
                &&& p == Piece::King
                &&& (c == Color::White ==> f == 4 && (t == 2 || t == 6))
                &&& (c == Color::Black ==> f == 60 && (t == 58 || t == 62))
                &&& !bit64(self.spec_occupied(), t)
                &&& bit64(
                    self.spec_kind_bb(c, Piece::Rook),
                    spec_castling_rook_corner(t),
                )
                &&& !bit64(self.spec_occupied(), spec_castling_rook_to(t))
            },
            MoveType::EnPassant => {
                &&& p == Piece::Pawn
                &&& self.en_passant_position matches Option::Some(sq) && sq.index == t
                &&& !bit64(self.spec_occupied(), t)
                &&& (c == Color::White ==> t >= 8)
                &&& (c == Color::Black ==> t < 56)
                &&& bit64(self.spec_kind_bb(e, Piece::Pawn), spec_ep_captured_square(m))
            },
            MoveType::Promotion => {
                &&& p == Piece::Pawn
                &&& (tp == Piece::Queen || tp == Piece::Rook || tp == Piece::Bishop || tp
                    == Piece::Knight)
                &&& (c == Color::White ==> t >= 56)
                &&& (c == Color::Black ==> t < 8)
                &&& !bit64(self.spec_kind_bb(e, Piece::King), t)
            },
            MoveType::Invalid => false,
        }
    }

    /// The per-kind board after `m`, for color index `c` and kind index `p`.
    pub open spec fn spec_new_piece_bb(self, m: Move, c: int, p: int) -> u64 {
        let mc = m.spec_color().spec_index() as int;
        let ec = m.spec_color().spec_inverse().spec_index() as int;
        let mp = m.spec_piece().spec_index() as int;
        let f = m.spec_from();
        let t = m.spec_to();
        let ft = (1u64 << f) | (1u64 << t);
        let base = self.pieces[c][p].value;
        let moved = if c == mc && p == mp {
            base ^ ft
        } else {
            base
        };
        match m.spec_type() {
            MoveType::Capture => if c == ec && p == m.spec_target_piece().spec_index() as int {
                moved ^ (1u64 << t)
            } else {
                moved
            },
            MoveType::Castling => if c == mc && p == Piece::Rook.spec_index() as int {
                moved ^ spec_castling_rook_mask(t)
            } else {
                moved
            },
            MoveType::EnPassant => if c == ec && p == Piece::Pawn.spec_index() as int {
                moved ^ (1u64 << spec_ep_captured_square(m))
            } else {
                moved
            },
            MoveType::Promotion => {
                let after_pawn = if c == mc && p == Piece::Pawn.spec_index() as int {
                    moved & !(1u64 << t)
                } else {
                    moved
                };
                let after_promo = if c == mc && p == m.spec_target_piece().spec_index() as int {
                    after_pawn | (1u64 << t)
                } else {
                    after_pawn
                };
                if c == ec && self.spec_find_kind(m.spec_color().spec_inverse(), t)
                    == Option::Some(Piece::spec_from_u64(p as u64)) {
                    after_promo ^ (1u64 << t)
                } else {
                    after_promo
                }
            },
            _ => moved,
        }
    }

    /// The per-color board after `m`, for color index `c`.
    pub open spec fn spec_new_color_bb(self, m: Move, c: int) -> u64 {
        let mc = m.spec_color().spec_index() as int;
        let ec = m.spec_color().spec_inverse().spec_index() as int;
        let f = m.spec_from();
        let t = m.spec_to();
        let ft = (1u64 << f) | (1u64 << t);
        let base = self.pieces_for_color[c].value;
        let moved = if c == mc {
            base ^ ft
        } else {
            base
        };
        match m.spec_type() {
            MoveType::Capture => if c == ec {
                moved ^ (1u64 << t)
            } else {
                moved
            },
            MoveType::Castling => if c == mc {
                moved ^ spec_castling_rook_mask(t)
            } else {
                moved
            },
            MoveType::EnPassant => if c == ec {
                moved ^ (1u64 << spec_ep_captured_square(m))
            } else {
                moved
            },
            MoveType::Promotion => if c == ec && bit64(
                self.spec_color_bb(m.spec_color().spec_inverse()),
                t,
            ) {
                moved ^ (1u64 << t)
            } else {
                moved
            },
            _ => moved,
        }
    }

    /// Castling rights after `m`: a king move clears both bits of its color, a
    /// rook leaving its original square clears that side, and a capture on a
    /// rook's original square clears the opponent's corresponding side.
    pub open spec fn spec_new_castling(self, m: Move) -> CastlingRight {
        let c = m.spec_color();
        let e = c.spec_inverse();
        let p = m.spec_piece();
        let f = m.spec_from();
        let t = m.spec_to();
        let after_mover = if p == Piece::King {
            self.castling.spec_remove_king_side(c).spec_remove_queen_side(c)
        } else if p == Piece::Rook {
            if f == 0 && c == Color::White {
                self.castling.spec_remove_queen_side(Color::White)
            } else if f == 7 && c == Color::White {
                self.castling.spec_remove_king_side(Color::White)
            } else if f == 56 && c == Color::Black {
                self.castling.spec_remove_queen_side(Color::Black)
            } else if f == 63 && c == Color::Black {
                self.castling.spec_remove_king_side(Color::Black)
            } else {
                self.castling
            }
        } else {
            self.castling
        };
        let rook_captured = (m.spec_type() == MoveType::Capture && m.spec_target_piece()
            == Piece::Rook) || (m.spec_type() == MoveType::Promotion && self.spec_find_kind(e, t)
            == Option::Some(Piece::Rook));
        if rook_captured {
            if t == 0 && e == Color::White {
                after_mover.spec_remove_queen_side(Color::White)
            } else if t == 7 && e == Color::White {
                after_mover.spec_remove_king_side(Color::White)
            } else if t == 56 && e == Color::Black {
                after_mover.spec_remove_queen_side(Color::Black)
            } else if t == 63 && e == Color::Black {
                after_mover.spec_remove_king_side(Color::Black)
            } else {
                after_mover
            }
        } else {
            after_mover
        }
    }

    /// The en-passant target after `m`: set by a pawn jump, cleared otherwise.
    pub open spec fn spec_new_en_passant(m: Move) -> Option<Square> {
        if m.spec_type() == MoveType::PawnJump {
            if m.spec_color() == Color::White {
                Option::Some(Square { index: (m.spec_to() - 8) as usize })
            } else {
                Option::Some(Square { index: (m.spec_to() + 8) as usize })
            }
        } else {
            Option::None
        }
    }

    /// The halfmove clock after `m`: reset by pawn moves and captures.
    pub open spec fn spec_new_half_move_clock(self, m: Move) -> u16 {
        if m.spec_type() == MoveType::Capture || m.spec_type() == MoveType::EnPassant
            || m.spec_piece() == Piece::Pawn {
            0
        } else {
            (self.half_move_clock + 1) as u16
        }
    }
}

/// The original square of the rook that takes part in a castling move, keyed
/// by the king's destination square.
pub open spec fn spec_castling_rook_corner(t: u64) -> u64 {
    if t == 6 {
        7
    } else if t == 2 {
        0
    } else if t == 62 {
        63
    } else {
        56
    }
}

/// The destination square of that rook.
pub open spec fn spec_castling_rook_to(t: u64) -> u64 {
    if t == 6 {
        5
    } else if t == 2 {
        3
    } else if t == 62 {
        61
    } else {
        59
    }
}

impl BoardState {
    fn new_piece_entry(&self, m: Move, ci: usize, pi: usize) -> (r: BitBoard)
        requires
            ci < 2,
            pi < 6,
            self.spec_can_apply(m),
        ensures
            r.value == self.spec_new_piece_bb(m, ci as int, pi as int),
    {
        let mc = m.get_color().index();
        let ec = m.get_color().inverse().index();
        let mp = m.get_piece().index();
        let f = m.get_from().as_usize() as u64;
        let t = m.get_to().as_usize() as u64;
        let ft = (1u64 << f) | (1u64 << t);
        let base = self.pieces[ci][pi].value;
        let moved = if ci == mc && pi == mp {
            base ^ ft
        } else {
            base
        };
        match m.get_type() {
            MoveType::Capture => {
                if ci == ec && pi == m.get_target_piece().index() {
                    BitBoard { value: moved ^ (1u64 << t) }
                } else {
                    BitBoard { value: moved }
                }
            },
            MoveType::Castling => {
                if ci == mc && pi == 2 {
                    BitBoard { value: moved ^ castling_rook_mask(t) }
                } else {
                    BitBoard { value: moved }
                }
            },
            MoveType::EnPassant => {
                if ci == ec && pi == 5 {
                    let behind = if m.get_color().to_u64() == 0 {
                        t - 8
                    } else {
                        t + 8
                    };
                    BitBoard { value: moved ^ (1u64 << behind) }
                } else {
                    BitBoard { value: moved }
                }
            },
            MoveType::Promotion => {
                let after_pawn = if ci == mc && pi == 5 {
                    moved & !(1u64 << t)
                } else {
                    moved
                };
                let after_promo = if ci == mc && pi == m.get_target_piece().index() {
                    after_pawn | (1u64 << t)
                } else {
                    after_pawn
                };
                let captured = self.find_piece_at_square_for_color(m.get_color().inverse(), t as u8);
                let is_captured_kind = match captured {
                    Option::Some(k) => ci == ec && k.index() == pi,
                    Option::None => false,
                };
                if is_captured_kind {
                    BitBoard { value: after_promo ^ (1u64 << t) }
                } else {
                    BitBoard { value: after_promo }
                }
            },
            _ => BitBoard { value: moved },
        }
    }

    fn new_color_entry(&self, m: Move, ci: usize) -> (r: BitBoard)
        requires
            ci < 2,
            self.spec_can_apply(m),
        ensures
            r.value == self.spec_new_color_bb(m, ci as int),
    {
        let mc = m.get_color().index();
        let ec = m.get_color().inverse().index();
        let f = m.get_from().as_usize() as u64;
        let t = m.get_to().as_usize() as u64;
        let ft = (1u64 << f) | (1u64 << t);
        let base = self.pieces_for_color[ci].value;
        let moved = if ci == mc {
            base ^ ft
        } else {
            base
        };
        match m.get_type() {
            MoveType::Capture => {
                if ci == ec {
                    BitBoard { value: moved ^ (1u64 << t) }
                } else {
                    BitBoard { value: moved }
                }
            },
            MoveType::Castling => {
                if ci == mc {
                    BitBoard { value: moved ^ castling_rook_mask(t) }
                } else {
                    BitBoard { value: moved }
                }
            },
            MoveType::EnPassant => {
                if ci == ec {
                    let behind = if m.get_color().to_u64() == 0 {
                        t - 8
                    } else {
                        t + 8
                    };
                    BitBoard { value: moved ^ (1u64 << behind) }
                } else {
                    BitBoard { value: moved }
                }
            },
            MoveType::Promotion => {
                let enemy_here = self.pieces_for_color[ec].is_bit_set(t);
                if ci == ec && enemy_here {
                    BitBoard { value: moved ^ (1u64 << t) }
                } else {
                    BitBoard { value: moved }
                }
            },
            _ => BitBoard { value: moved },
        }
    }

    fn new_castling_rights(&self, m: Move) -> (r: CastlingRight)
        requires
            self.spec_can_apply(m),
        ensures
            r == self.spec_new_castling(m),
            self.castling.spec_valid() ==> r.spec_valid(),
    {
        let c = m.get_color();
        let e = c.inverse();
        let p = m.get_piece();
        let f = m.get_from().as_usize() as u64;
        let t = m.get_to().as_usize() as u64;
        let after_mover = if matches!(p, Piece::King) {
            self.castling.remove_king_side_castle(c).remove_queen_side_castle(c)
        } else if matches!(p, Piece::Rook) {
            if f == 0 && c.to_u64() == 0 {
                self.castling.remove_queen_side_castle(Color::White)
            } else if f == 7 && c.to_u64() == 0 {
                self.castling.remove_king_side_castle(Color::White)
            } else if f == 56 && c.to_u64() == 1 {
                self.castling.remove_queen_side_castle(Color::Black)
            } else if f == 63 && c.to_u64() == 1 {
                self.castling.remove_king_side_castle(Color::Black)
            } else {
                self.castling
            }
        } else {
            self.castling
        };
        let rook_captured = (matches!(m.get_type(), MoveType::Capture) && matches!(
            m.get_target_piece(),
            Piece::Rook,
        )) || (matches!(m.get_type(), MoveType::Promotion) && {
            let k = self.find_piece_at_square_for_color(e, t as u8);
            matches!(k, Option::Some(Piece::Rook))
        });
        if rook_captured {
            if t == 0 && e.to_u64() == 0 {
                after_mover.remove_queen_side_castle(Color::White)
            } else if t == 7 && e.to_u64() == 0 {
                after_mover.remove_king_side_castle(Color::White)
            } else if t == 56 && e.to_u64() == 1 {
                after_mover.remove_queen_side_castle(Color::Black)
            } else if t == 63 && e.to_u64() == 1 {
                after_mover.remove_king_side_castle(Color::Black)
            } else {
                after_mover
            }
        } else {
            after_mover
        }
    }

    /// The state after playing `m`: boards updated per move kind, rights and
    /// clocks updated, the side to move flipped and the ply advanced.
    pub fn make_move(&self, m: Move) -> (r: BoardState)
        requires
            self.wf_boards(),
            self.spec_can_apply(m),
            self.ply < 0xffff,
            self.half_move_clock < 0xffff,
        ensures
            forall|c: int, p: int|
                0 <= c < 2 && 0 <= p < 6 ==> #[trigger] r.pieces[c][p].value
                    == self.spec_new_piece_bb(m, c, p),
            forall|c: int|
                0 <= c < 2 ==> #[trigger] r.pieces_for_color[c].value == self.spec_new_color_bb(
                    m,
                    c,
                ),
            r.color_on_move == self.color_on_move.spec_inverse(),
            r.ply == self.ply + 1,
            r.castling == self.spec_new_castling(m),
            r.en_passant_position == BoardState::spec_new_en_passant(m),
            r.half_move_clock == self.spec_new_half_move_clock(m),
            r.score == self.score,
            r.wf_boards(),
            self.kings_ok() ==> r.kings_ok(),
            r == spec_make_move(*self, m),
    {
        let pieces = [
            [
                self.new_piece_entry(m, 0, 0),
                self.new_piece_entry(m, 0, 1),
                self.new_piece_entry(m, 0, 2),
                self.new_piece_entry(m, 0, 3),
                self.new_piece_entry(m, 0, 4),
                self.new_piece_entry(m, 0, 5),
            ],
            [
                self.new_piece_entry(m, 1, 0),
                self.new_piece_entry(m, 1, 1),
                self.new_piece_entry(m, 1, 2),
                self.new_piece_entry(m, 1, 3),
                self.new_piece_entry(m, 1, 4),
                self.new_piece_entry(m, 1, 5),
            ],
        ];
        let pieces_for_color = [self.new_color_entry(m, 0), self.new_color_entry(m, 1)];
        let castling = self.new_castling_rights(m);
        let en_passant_position = if matches!(m.get_type(), MoveType::PawnJump) {
            proof {
                crate::chess_move::lemma_move_squares(m);
            }
            let t = m.get_to().as_usize() as u64;
            if m.get_color().to_u64() == 0 {
                Option::Some(Square::new(t - 8))
            } else {
                Option::Some(Square::new(t + 8))
            }
        } else {
            Option::None
        };
        let half_move_clock = if matches!(m.get_type(), MoveType::Capture) || matches!(
            m.get_type(),
            MoveType::EnPassant,
        ) || matches!(m.get_piece(), Piece::Pawn) {
            0
        } else {
            self.half_move_clock + 1
        };
        let r = BoardState {
            pieces,
            pieces_for_color,
            half_move_clock,
            ply: self.ply + 1,
            score: self.score,
            color_on_move: self.color_on_move.inverse(),
            castling,
            en_passant_position,
        };
        proof {
            lemma_make_move_wf(*self, m);
            if self.kings_ok() {
                lemma_make_move_kings(*self, m);
            }
            broadcast use vstd::array::group_array_axioms;

            let sm = spec_make_move(*self, m);
            assert(r.pieces_for_color =~= sm.pieces_for_color);
            assert(r.pieces[0] =~= sm.pieces[0]);
            assert(r.pieces[1] =~= sm.pieces[1]);
            assert(r.pieces =~= sm.pieces);
            assert(r == sm);
        }
        r
    }
}

/// One color's boards after xoring a per-slot mask into each kind board and
/// the union of the masks into the color board: the color board stays the
/// union of the kind boards and no square gains two kinds, provided each
/// square is touched by at most one mask and a mask that clears an occupied
/// square clears the kind that held it.
proof fn lemma_color_update(
    a0: u64,
    a1: u64,
    a2: u64,
    a3: u64,
    a4: u64,
    a5: u64,
    cb: u64,
    m0: u64,
    m1: u64,
    m2: u64,
    m3: u64,
    m4: u64,
    m5: u64,
    cm: u64,
)
    requires
        forall|b: u64|
            b < 64 ==> (#[trigger] bit64(cb, b) <==> (bit64(a0, b) || bit64(a1, b) || bit64(a2, b)
                || bit64(a3, b) || bit64(a4, b) || bit64(a5, b))),
        forall|b: u64|
            b < 64 ==> bcount(#[trigger] bit64(a0, b)) + bcount(bit64(a1, b)) + bcount(
                bit64(a2, b),
            ) + bcount(bit64(a3, b)) + bcount(bit64(a4, b)) + bcount(bit64(a5, b)) <= 1,
        forall|b: u64|
            b < 64 ==> bcount(#[trigger] bit64(m0, b)) + bcount(bit64(m1, b)) + bcount(
                bit64(m2, b),
            ) + bcount(bit64(m3, b)) + bcount(bit64(m4, b)) + bcount(bit64(m5, b)) <= 1,
        forall|b: u64|
            b < 64 ==> (#[trigger] bit64(cm, b) <==> (bit64(m0, b) || bit64(m1, b) || bit64(m2, b)
                || bit64(m3, b) || bit64(m4, b) || bit64(m5, b))),
        forall|b: u64|
            b < 64 ==> {
                &&& ((#[trigger] bit64(m0, b) && bit64(cb, b)) ==> bit64(a0, b))
                &&& ((bit64(m1, b) && bit64(cb, b)) ==> bit64(a1, b))
                &&& ((bit64(m2, b) && bit64(cb, b)) ==> bit64(a2, b))
                &&& ((bit64(m3, b) && bit64(cb, b)) ==> bit64(a3, b))
                &&& ((bit64(m4, b) && bit64(cb, b)) ==> bit64(a4, b))
                &&& ((bit64(m5, b) && bit64(cb, b)) ==> bit64(a5, b))
            },
    ensures
        forall|b: u64|
            b < 64 ==> (#[trigger] bit64(cb ^ cm, b) <==> (bit64(a0 ^ m0, b) || bit64(a1 ^ m1, b)
                || bit64(a2 ^ m2, b) || bit64(a3 ^ m3, b) || bit64(a4 ^ m4, b) || bit64(
                a5 ^ m5,
                b,
            ))),
        forall|b: u64|
            b < 64 ==> bcount(#[trigger] bit64(a0 ^ m0, b)) + bcount(bit64(a1 ^ m1, b)) + bcount(
                bit64(a2 ^ m2, b),
            ) + bcount(bit64(a3 ^ m3, b)) + bcount(bit64(a4 ^ m4, b)) + bcount(bit64(a5 ^ m5, b))
                <= 1,
{
    broadcast use crate::bits::group_bit64;

    assert forall|b: u64| b < 64 implies (#[trigger] bit64(cb ^ cm, b) <==> (bit64(a0 ^ m0, b)
        || bit64(a1 ^ m1, b) || bit64(a2 ^ m2, b) || bit64(a3 ^ m3, b) || bit64(a4 ^ m4, b)
        || bit64(a5 ^ m5, b))) by {
        assert(bit64(cb, b) <==> (bit64(a0, b) || bit64(a1, b) || bit64(a2, b) || bit64(a3, b)
            || bit64(a4, b) || bit64(a5, b)));
    }
    assert forall|b: u64| b < 64 implies bcount(#[trigger] bit64(a0 ^ m0, b)) + bcount(
        bit64(a1 ^ m1, b),
    ) + bcount(bit64(a2 ^ m2, b)) + bcount(bit64(a3 ^ m3, b)) + bcount(bit64(a4 ^ m4, b)) + bcount(
        bit64(a5 ^ m5, b),
    ) <= 1 by {
        assert(bit64(cb, b) <==> (bit64(a0, b) || bit64(a1, b) || bit64(a2, b) || bit64(a3, b)
            || bit64(a4, b) || bit64(a5, b)));
    }
}

/// Each side keeps exactly one king: only a king move touches a king board,
/// and it carries the lone king bit from the from-square to the to-square.
pub proof fn lemma_make_move_kings(s: BoardState, m: Move)
    requires
        s.wf_boards(),
        s.spec_can_apply(m),
        s.kings_ok(),
    ensures
        single_bit64(s.spec_new_piece_bb(m, 0, 0)),
        single_bit64(s.spec_new_piece_bb(m, 1, 0)),
{
    broadcast use crate::bits::group_bit64;

    crate::chess_move::lemma_move_squares(m);
    let mc = m.spec_color().spec_index() as int;
    let ec = m.spec_color().spec_inverse().spec_index() as int;
    let mp = m.spec_piece().spec_index() as int;
    let f = m.spec_from();
    let t = m.spec_to();
    let ft = (1u64 << f) | (1u64 << t);
    assert(mc != ec && 0 <= mc < 2 && 0 <= ec < 2 && 0 <= mp < 6);
    if m.spec_type() == MoveType::Promotion && s.spec_find_kind(m.spec_color().spec_inverse(), t)
        is Some {
        assert(s.spec_find_kind(m.spec_color().spec_inverse(), t) != Option::Some(Piece::King));
    }
    assert(s.spec_new_piece_bb(m, ec, 0) == s.pieces[ec][0].value);
    if mp == 0 {
        let kb = s.pieces[mc][0].value;
        crate::bits::lemma_single_bit_at(kb, f);
        crate::bits::lemma_single_bit_moved(f, t);
        crate::bits::lemma_shl1_single(t);
        assert(s.spec_new_piece_bb(m, mc, 0) == kb ^ ft);
    } else {
        assert(s.spec_new_piece_bb(m, mc, 0) == s.pieces[mc][0].value);
    }
}


/// The state `make_move` produces, as a value.
pub open spec fn spec_make_move(s: BoardState, m: Move) -> BoardState {
    BoardState {
        pieces_for_color: [
            BitBoard { value: s.spec_new_color_bb(m, 0) },
            BitBoard { value: s.spec_new_color_bb(m, 1) },
        ],
        pieces: [
            [
                BitBoard { value: s.spec_new_piece_bb(m, 0, 0) },
                BitBoard { value: s.spec_new_piece_bb(m, 0, 1) },
                BitBoard { value: s.spec_new_piece_bb(m, 0, 2) },
                BitBoard { value: s.spec_new_piece_bb(m, 0, 3) },
                BitBoard { value: s.spec_new_piece_bb(m, 0, 4) },
                BitBoard { value: s.spec_new_piece_bb(m, 0, 5) },
            ],
            [
                BitBoard { value: s.spec_new_piece_bb(m, 1, 0) },
                BitBoard { value: s.spec_new_piece_bb(m, 1, 1) },
                BitBoard { value: s.spec_new_piece_bb(m, 1, 2) },
                BitBoard { value: s.spec_new_piece_bb(m, 1, 3) },
                BitBoard { value: s.spec_new_piece_bb(m, 1, 4) },
                BitBoard { value: s.spec_new_piece_bb(m, 1, 5) },
            ],
        ],
        half_move_clock: s.spec_new_half_move_clock(m),
        ply: (s.ply + 1) as u16,
        score: s.score,
        color_on_move: s.color_on_move.spec_inverse(),
        castling: s.spec_new_castling(m),
        en_passant_position: BoardState::spec_new_en_passant(m),
    }
}

/// The shape of a well-formed update: the new color boards are square-disjoint,
/// each is the union of the new kind boards, and no square holds two kinds.
pub open spec fn wf_update_ok(s: BoardState, m: Move) -> bool {
    &&& (forall|b: u64|
        b < 64 ==> !(#[trigger] bit64(s.spec_new_color_bb(m, 0), b) && bit64(
            s.spec_new_color_bb(m, 1),
            b,
        )))
    &&& (forall|c: int, b: u64|
        0 <= c < 2 && b < 64 ==> (#[trigger] bit64(s.spec_new_color_bb(m, c), b) <==> (bit64(
            s.spec_new_piece_bb(m, c, 0),
            b,
        ) || bit64(s.spec_new_piece_bb(m, c, 1), b) || bit64(s.spec_new_piece_bb(m, c, 2), b)
            || bit64(s.spec_new_piece_bb(m, c, 3), b) || bit64(s.spec_new_piece_bb(m, c, 4), b)
            || bit64(s.spec_new_piece_bb(m, c, 5), b))))
    &&& (forall|c: int, b: u64|
        0 <= c < 2 && b < 64 ==> bcount(#[trigger] bit64(s.spec_new_piece_bb(m, c, 0), b)) + bcount(
            bit64(s.spec_new_piece_bb(m, c, 1), b),
        ) + bcount(bit64(s.spec_new_piece_bb(m, c, 2), b)) + bcount(
            bit64(s.spec_new_piece_bb(m, c, 3), b),
        ) + bcount(bit64(s.spec_new_piece_bb(m, c, 4), b)) + bcount(
            bit64(s.spec_new_piece_bb(m, c, 5), b),
        ) <= 1)
}

/// Applying a move that the position admits keeps the boards well formed.
pub proof fn lemma_make_move_wf(s: BoardState, m: Move)
    requires
        s.wf_boards(),
        s.spec_can_apply(m),
    ensures
        wf_update_ok(s, m),
{
    match m.spec_type() {
        MoveType::Capture => lemma_wf_capture(s, m),
        MoveType::Castling => lemma_wf_castling(s, m),
        MoveType::EnPassant => lemma_wf_en_passant(s, m),
        MoveType::Promotion => lemma_wf_promotion(s, m),
        MoveType::Push => lemma_wf_quiet(s, m),
        MoveType::PawnJump => lemma_wf_quiet(s, m),
        MoveType::Invalid => {},
    }
}

proof fn lemma_wf_quiet(s: BoardState, m: Move)
    requires
        s.wf_boards(),
        s.spec_can_apply(m),
        m.spec_type() == MoveType::Push || m.spec_type() == MoveType::PawnJump,
    ensures
        wf_update_ok(s, m),
{
    broadcast use crate::bits::group_bit64;

    crate::chess_move::lemma_move_squares(m);
    let mc = m.spec_color().spec_index() as int;
    let ec = m.spec_color().spec_inverse().spec_index() as int;
    let mp = m.spec_piece().spec_index() as int;
    let f = m.spec_from();
    let t = m.spec_to();
    let ft = (1u64 << f) | (1u64 << t);
    assert(mc != ec && 0 <= mc < 2 && 0 <= ec < 2 && 0 <= mp < 6);
    let am0 = s.pieces[mc][0].value;
    let am1 = s.pieces[mc][1].value;
    let am2 = s.pieces[mc][2].value;
    let am3 = s.pieces[mc][3].value;
    let am4 = s.pieces[mc][4].value;
    let am5 = s.pieces[mc][5].value;
    let cbm = s.pieces_for_color[mc].value;
    let ae0 = s.pieces[ec][0].value;
    let ae1 = s.pieces[ec][1].value;
    let ae2 = s.pieces[ec][2].value;
    let ae3 = s.pieces[ec][3].value;
    let ae4 = s.pieces[ec][4].value;
    let ae5 = s.pieces[ec][5].value;
    let cbe = s.pieces_for_color[ec].value;
    let mm0 = if mp == 0 { ft } else { 0u64 };
    let mm1 = if mp == 1 { ft } else { 0u64 };
    let mm2 = if mp == 2 { ft } else { 0u64 };
    let mm3 = if mp == 3 { ft } else { 0u64 };
    let mm4 = if mp == 4 { ft } else { 0u64 };
    let mm5 = if mp == 5 { ft } else { 0u64 };
    assert(s.spec_new_piece_bb(m, mc, 0) == am0 ^ mm0);
    assert(s.spec_new_piece_bb(m, mc, 1) == am1 ^ mm1);
    assert(s.spec_new_piece_bb(m, mc, 2) == am2 ^ mm2);
    assert(s.spec_new_piece_bb(m, mc, 3) == am3 ^ mm3);
    assert(s.spec_new_piece_bb(m, mc, 4) == am4 ^ mm4);
    assert(s.spec_new_piece_bb(m, mc, 5) == am5 ^ mm5);
    assert(s.spec_new_color_bb(m, mc) == cbm ^ ft);
    lemma_color_update(am0, am1, am2, am3, am4, am5, cbm, mm0, mm1, mm2, mm3, mm4, mm5, ft);
    assert(s.spec_new_piece_bb(m, ec, 0) == ae0 ^ 0u64);
    assert(s.spec_new_piece_bb(m, ec, 1) == ae1 ^ 0u64);
    assert(s.spec_new_piece_bb(m, ec, 2) == ae2 ^ 0u64);
    assert(s.spec_new_piece_bb(m, ec, 3) == ae3 ^ 0u64);
    assert(s.spec_new_piece_bb(m, ec, 4) == ae4 ^ 0u64);
    assert(s.spec_new_piece_bb(m, ec, 5) == ae5 ^ 0u64);
    assert(s.spec_new_color_bb(m, ec) == cbe ^ 0u64);
    lemma_color_update(ae0, ae1, ae2, ae3, ae4, ae5, cbe, 0, 0, 0, 0, 0, 0, 0);
    assert forall|b: u64| b < 64 implies !(#[trigger] bit64(s.spec_new_color_bb(m, 0), b) && bit64(
        s.spec_new_color_bb(m, 1),
        b,
    )) by {
        assert(bit64(cbm, b) <==> (bit64(am0, b) || bit64(am1, b) || bit64(am2, b) || bit64(
            am3,
            b,
        ) || bit64(am4, b) || bit64(am5, b)));
        assert(bit64(cbe, b) <==> (bit64(ae0, b) || bit64(ae1, b) || bit64(ae2, b) || bit64(
            ae3,
            b,
        ) || bit64(ae4, b) || bit64(ae5, b)));
        assert(!(bit64(cbm, b) && bit64(cbe, b)));
    }
}

proof fn lemma_wf_capture(s: BoardState, m: Move)
    requires
        s.wf_boards(),
        s.spec_can_apply(m),
        m.spec_type() == MoveType::Capture,
    ensures
        wf_update_ok(s, m),
{
    broadcast use crate::bits::group_bit64;

    crate::chess_move::lemma_move_squares(m);
    let mc = m.spec_color().spec_index() as int;
    let ec = m.spec_color().spec_inverse().spec_index() as int;
    let mp = m.spec_piece().spec_index() as int;
    let f = m.spec_from();
    let t = m.spec_to();
    let ft = (1u64 << f) | (1u64 << t);
    assert(mc != ec && 0 <= mc < 2 && 0 <= ec < 2 && 0 <= mp < 6);
    let am0 = s.pieces[mc][0].value;
    let am1 = s.pieces[mc][1].value;
    let am2 = s.pieces[mc][2].value;
    let am3 = s.pieces[mc][3].value;
    let am4 = s.pieces[mc][4].value;
    let am5 = s.pieces[mc][5].value;
    let cbm = s.pieces_for_color[mc].value;
    let ae0 = s.pieces[ec][0].value;
    let ae1 = s.pieces[ec][1].value;
    let ae2 = s.pieces[ec][2].value;
    let ae3 = s.pieces[ec][3].value;
    let ae4 = s.pieces[ec][4].value;
    let ae5 = s.pieces[ec][5].value;
    let cbe = s.pieces_for_color[ec].value;
    let mm0 = if mp == 0 { ft } else { 0u64 };
    let mm1 = if mp == 1 { ft } else { 0u64 };
    let mm2 = if mp == 2 { ft } else { 0u64 };
    let mm3 = if mp == 3 { ft } else { 0u64 };
    let mm4 = if mp == 4 { ft } else { 0u64 };
    let mm5 = if mp == 5 { ft } else { 0u64 };
    assert(s.spec_new_piece_bb(m, mc, 0) == am0 ^ mm0);
    assert(s.spec_new_piece_bb(m, mc, 1) == am1 ^ mm1);
    assert(s.spec_new_piece_bb(m, mc, 2) == am2 ^ mm2);
    assert(s.spec_new_piece_bb(m, mc, 3) == am3 ^ mm3);
    assert(s.spec_new_piece_bb(m, mc, 4) == am4 ^ mm4);
    assert(s.spec_new_piece_bb(m, mc, 5) == am5 ^ mm5);
    assert(s.spec_new_color_bb(m, mc) == cbm ^ ft);
    lemma_color_update(am0, am1, am2, am3, am4, am5, cbm, mm0, mm1, mm2, mm3, mm4, mm5, ft);
    let tpi = m.spec_target_piece().spec_index() as int;
    assert(1 <= tpi < 6);
    let em0 = 0u64;
    let em1 = if tpi == 1 { 1u64 << t } else { 0u64 };
    let em2 = if tpi == 2 { 1u64 << t } else { 0u64 };
    let em3 = if tpi == 3 { 1u64 << t } else { 0u64 };
    let em4 = if tpi == 4 { 1u64 << t } else { 0u64 };
    let em5 = if tpi == 5 { 1u64 << t } else { 0u64 };
    assert(s.spec_new_piece_bb(m, ec, 0) == ae0 ^ em0);
    assert(s.spec_new_piece_bb(m, ec, 1) == ae1 ^ em1);
    assert(s.spec_new_piece_bb(m, ec, 2) == ae2 ^ em2);
    assert(s.spec_new_piece_bb(m, ec, 3) == ae3 ^ em3);
    assert(s.spec_new_piece_bb(m, ec, 4) == ae4 ^ em4);
    assert(s.spec_new_piece_bb(m, ec, 5) == ae5 ^ em5);
    assert(s.spec_new_color_bb(m, ec) == cbe ^ (1u64 << t));
    lemma_color_update(ae0, ae1, ae2, ae3, ae4, ae5, cbe, em0, em1, em2, em3, em4, em5, (1u64 << t));
    assert forall|b: u64| b < 64 implies !(#[trigger] bit64(s.spec_new_color_bb(m, 0), b) && bit64(
        s.spec_new_color_bb(m, 1),
        b,
    )) by {
        assert(bit64(cbm, b) <==> (bit64(am0, b) || bit64(am1, b) || bit64(am2, b) || bit64(
            am3,
            b,
        ) || bit64(am4, b) || bit64(am5, b)));
        assert(bit64(cbe, b) <==> (bit64(ae0, b) || bit64(ae1, b) || bit64(ae2, b) || bit64(
            ae3,
            b,
        ) || bit64(ae4, b) || bit64(ae5, b)));
        assert(!(bit64(cbm, b) && bit64(cbe, b)));
    }
}

proof fn lemma_wf_en_passant(s: BoardState, m: Move)
    requires
        s.wf_boards(),
        s.spec_can_apply(m),
        m.spec_type() == MoveType::EnPassant,
    ensures
        wf_update_ok(s, m),
{
    broadcast use crate::bits::group_bit64;

    crate::chess_move::lemma_move_squares(m);
    let mc = m.spec_color().spec_index() as int;
    let ec = m.spec_color().spec_inverse().spec_index() as int;
    let mp = m.spec_piece().spec_index() as int;
    let f = m.spec_from();
    let t = m.spec_to();
    let ft = (1u64 << f) | (1u64 << t);
    assert(mc != ec && 0 <= mc < 2 && 0 <= ec < 2 && 0 <= mp < 6);
    let am0 = s.pieces[mc][0].value;
    let am1 = s.pieces[mc][1].value;
    let am2 = s.pieces[mc][2].value;
    let am3 = s.pieces[mc][3].value;
    let am4 = s.pieces[mc][4].value;
    let am5 = s.pieces[mc][5].value;
    let cbm = s.pieces_for_color[mc].value;
    let ae0 = s.pieces[ec][0].value;
    let ae1 = s.pieces[ec][1].value;
    let ae2 = s.pieces[ec][2].value;
    let ae3 = s.pieces[ec][3].value;
    let ae4 = s.pieces[ec][4].value;
    let ae5 = s.pieces[ec][5].value;
    let cbe = s.pieces_for_color[ec].value;
    let bh = spec_ep_captured_square(m);
    assert(mp == 5);
    assert(bit64(cbm, f));
    assert(bit64(cbe, bh));
    assert(bh < 64 && bh != t);
    assert(bh != f);
    let mm0 = if mp == 0 { ft } else { 0u64 };
    let mm1 = if mp == 1 { ft } else { 0u64 };
    let mm2 = if mp == 2 { ft } else { 0u64 };
    let mm3 = if mp == 3 { ft } else { 0u64 };
    let mm4 = if mp == 4 { ft } else { 0u64 };
    let mm5 = if mp == 5 { ft } else { 0u64 };
    assert(s.spec_new_piece_bb(m, mc, 0) == am0 ^ mm0);
    assert(s.spec_new_piece_bb(m, mc, 1) == am1 ^ mm1);
    assert(s.spec_new_piece_bb(m, mc, 2) == am2 ^ mm2);
    assert(s.spec_new_piece_bb(m, mc, 3) == am3 ^ mm3);
    assert(s.spec_new_piece_bb(m, mc, 4) == am4 ^ mm4);
    assert(s.spec_new_piece_bb(m, mc, 5) == am5 ^ mm5);
    assert(s.spec_new_color_bb(m, mc) == cbm ^ ft);
    lemma_color_update(am0, am1, am2, am3, am4, am5, cbm, mm0, mm1, mm2, mm3, mm4, mm5, ft);
    assert(s.spec_new_piece_bb(m, ec, 0) == ae0 ^ 0u64);
    assert(s.spec_new_piece_bb(m, ec, 1) == ae1 ^ 0u64);
    assert(s.spec_new_piece_bb(m, ec, 2) == ae2 ^ 0u64);
    assert(s.spec_new_piece_bb(m, ec, 3) == ae3 ^ 0u64);
    assert(s.spec_new_piece_bb(m, ec, 4) == ae4 ^ 0u64);
    assert(s.spec_new_piece_bb(m, ec, 5) == ae5 ^ (1u64 << bh));
    assert(s.spec_new_color_bb(m, ec) == cbe ^ (1u64 << bh));
    lemma_color_update(ae0, ae1, ae2, ae3, ae4, ae5, cbe, 0, 0, 0, 0, 0, (1u64 << bh), (1u64 << bh));
    assert forall|b: u64| b < 64 implies !(#[trigger] bit64(s.spec_new_color_bb(m, 0), b) && bit64(
        s.spec_new_color_bb(m, 1),
        b,
    )) by {
        assert(bit64(cbm, b) <==> (bit64(am0, b) || bit64(am1, b) || bit64(am2, b) || bit64(
            am3,
            b,
        ) || bit64(am4, b) || bit64(am5, b)));
        assert(bit64(cbe, b) <==> (bit64(ae0, b) || bit64(ae1, b) || bit64(ae2, b) || bit64(
            ae3,
            b,
        ) || bit64(ae4, b) || bit64(ae5, b)));
        assert(!(bit64(cbm, b) && bit64(cbe, b)));
    }
}

proof fn lemma_wf_castling(s: BoardState, m: Move)
    requires
        s.wf_boards(),
        s.spec_can_apply(m),
        m.spec_type() == MoveType::Castling,
    ensures
        wf_update_ok(s, m),
{
    broadcast use crate::bits::group_bit64;

    crate::chess_move::lemma_move_squares(m);
    let mc = m.spec_color().spec_index() as int;
    let ec = m.spec_color().spec_inverse().spec_index() as int;
    let mp = m.spec_piece().spec_index() as int;
    let f = m.spec_from();
    let t = m.spec_to();
    let ft = (1u64 << f) | (1u64 << t);
    assert(mc != ec && 0 <= mc < 2 && 0 <= ec < 2 && 0 <= mp < 6);
    let am0 = s.pieces[mc][0].value;
    let am1 = s.pieces[mc][1].value;
    let am2 = s.pieces[mc][2].value;
    let am3 = s.pieces[mc][3].value;
    let am4 = s.pieces[mc][4].value;
    let am5 = s.pieces[mc][5].value;
    let cbm = s.pieces_for_color[mc].value;
    let ae0 = s.pieces[ec][0].value;
    let ae1 = s.pieces[ec][1].value;
    let ae2 = s.pieces[ec][2].value;
    let ae3 = s.pieces[ec][3].value;
    let ae4 = s.pieces[ec][4].value;
    let ae5 = s.pieces[ec][5].value;
    let cbe = s.pieces_for_color[ec].value;
    let rm = spec_castling_rook_mask(t);
    let corner = spec_castling_rook_corner(t);
    let rto = spec_castling_rook_to(t);
    assert(mp == 0);
    crate::bits::lemma_pair_masks_disjoint(f, t, corner, rto);
    crate::bits::lemma_xor_disjoint_chain(cbm, ft, rm);
    assert(s.spec_new_piece_bb(m, mc, 0) == am0 ^ ft);
    assert(s.spec_new_piece_bb(m, mc, 1) == am1 ^ 0u64);
    assert(s.spec_new_piece_bb(m, mc, 2) == am2 ^ rm);
    assert(s.spec_new_piece_bb(m, mc, 3) == am3 ^ 0u64);
    assert(s.spec_new_piece_bb(m, mc, 4) == am4 ^ 0u64);
    assert(s.spec_new_piece_bb(m, mc, 5) == am5 ^ 0u64);
    assert(s.spec_new_color_bb(m, mc) == cbm ^ (ft | rm));
    lemma_color_update(am0, am1, am2, am3, am4, am5, cbm, ft, 0, rm, 0, 0, 0, (ft | rm));
    assert(s.spec_new_piece_bb(m, ec, 0) == ae0 ^ 0u64);
    assert(s.spec_new_piece_bb(m, ec, 1) == ae1 ^ 0u64);
    assert(s.spec_new_piece_bb(m, ec, 2) == ae2 ^ 0u64);
    assert(s.spec_new_piece_bb(m, ec, 3) == ae3 ^ 0u64);
    assert(s.spec_new_piece_bb(m, ec, 4) == ae4 ^ 0u64);
    assert(s.spec_new_piece_bb(m, ec, 5) == ae5 ^ 0u64);
    assert(s.spec_new_color_bb(m, ec) == cbe ^ 0u64);
    lemma_color_update(ae0, ae1, ae2, ae3, ae4, ae5, cbe, 0, 0, 0, 0, 0, 0, 0);
    assert forall|b: u64| b < 64 implies !(#[trigger] bit64(s.spec_new_color_bb(m, 0), b) && bit64(
        s.spec_new_color_bb(m, 1),
        b,
    )) by {
        assert(bit64(cbm, b) <==> (bit64(am0, b) || bit64(am1, b) || bit64(am2, b) || bit64(
            am3,
            b,
        ) || bit64(am4, b) || bit64(am5, b)));
        assert(bit64(cbe, b) <==> (bit64(ae0, b) || bit64(ae1, b) || bit64(ae2, b) || bit64(
            ae3,
            b,
        ) || bit64(ae4, b) || bit64(ae5, b)));
        assert(!(bit64(cbm, b) && bit64(cbe, b)));
    }
}

proof fn lemma_wf_promotion(s: BoardState, m: Move)
    requires
        s.wf_boards(),
        s.spec_can_apply(m),
        m.spec_type() == MoveType::Promotion,
    ensures
        wf_update_ok(s, m),
{
    broadcast use crate::bits::group_bit64;

    crate::chess_move::lemma_move_squares(m);
    let mc = m.spec_color().spec_index() as int;
    let ec = m.spec_color().spec_inverse().spec_index() as int;
    let mp = m.spec_piece().spec_index() as int;
    let f = m.spec_from();
    let t = m.spec_to();
    let ft = (1u64 << f) | (1u64 << t);
    assert(mc != ec && 0 <= mc < 2 && 0 <= ec < 2 && 0 <= mp < 6);
    let am0 = s.pieces[mc][0].value;
    let am1 = s.pieces[mc][1].value;
    let am2 = s.pieces[mc][2].value;
    let am3 = s.pieces[mc][3].value;
    let am4 = s.pieces[mc][4].value;
    let am5 = s.pieces[mc][5].value;
    let cbm = s.pieces_for_color[mc].value;
    let ae0 = s.pieces[ec][0].value;
    let ae1 = s.pieces[ec][1].value;
    let ae2 = s.pieces[ec][2].value;
    let ae3 = s.pieces[ec][3].value;
    let ae4 = s.pieces[ec][4].value;
    let ae5 = s.pieces[ec][5].value;
    let cbe = s.pieces_for_color[ec].value;
    let tpi = m.spec_target_piece().spec_index() as int;
    assert(1 <= tpi < 5);
    let mm0 = 0u64;
    let mm1 = if tpi == 1 { 1u64 << t } else { 0u64 };
    let mm2 = if tpi == 2 { 1u64 << t } else { 0u64 };
    let mm3 = if tpi == 3 { 1u64 << t } else { 0u64 };
    let mm4 = if tpi == 4 { 1u64 << t } else { 0u64 };
    let mm5 = 1u64 << f;
    assert(!bit64(am5, t) && !bit64(am1, t) && !bit64(am2, t) && !bit64(am3, t) && !bit64(am4, t));
    crate::bits::lemma_move_then_clear(am5, f, t);
    assert(s.spec_new_piece_bb(m, mc, 5) == am5 ^ mm5);
    if tpi == 1 {
        crate::bits::lemma_set_absent_bit(am1, t);
    } else if tpi == 2 {
        crate::bits::lemma_set_absent_bit(am2, t);
    } else if tpi == 3 {
        crate::bits::lemma_set_absent_bit(am3, t);
    } else {
        crate::bits::lemma_set_absent_bit(am4, t);
    }
    assert(s.spec_new_piece_bb(m, mc, 0) == am0 ^ mm0);
    assert(s.spec_new_piece_bb(m, mc, 1) == am1 ^ mm1);
    assert(s.spec_new_piece_bb(m, mc, 2) == am2 ^ mm2);
    assert(s.spec_new_piece_bb(m, mc, 3) == am3 ^ mm3);
    assert(s.spec_new_piece_bb(m, mc, 4) == am4 ^ mm4);
    assert(s.spec_new_color_bb(m, mc) == cbm ^ ft);
    lemma_color_update(am0, am1, am2, am3, am4, am5, cbm, mm0, mm1, mm2, mm3, mm4, mm5, ft);
    let captured = s.spec_find_kind(m.spec_color().spec_inverse(), t);
    let ecm: u64 = if bit64(cbe, t) { 1u64 << t } else { 0u64 };
    let ki = if captured is Some { captured.unwrap().spec_index() as int } else { 6int };
    assert(bit64(cbe, t) <==> captured is Some);
    let em0 = if ki == 0 { 1u64 << t } else { 0u64 };
    let em1 = if ki == 1 { 1u64 << t } else { 0u64 };
    let em2 = if ki == 2 { 1u64 << t } else { 0u64 };
    let em3 = if ki == 3 { 1u64 << t } else { 0u64 };
    let em4 = if ki == 4 { 1u64 << t } else { 0u64 };
    let em5 = if ki == 5 { 1u64 << t } else { 0u64 };
    assert(s.spec_new_piece_bb(m, ec, 0) == ae0 ^ em0);
    assert(s.spec_new_piece_bb(m, ec, 1) == ae1 ^ em1);
    assert(s.spec_new_piece_bb(m, ec, 2) == ae2 ^ em2);
    assert(s.spec_new_piece_bb(m, ec, 3) == ae3 ^ em3);
    assert(s.spec_new_piece_bb(m, ec, 4) == ae4 ^ em4);
    assert(s.spec_new_piece_bb(m, ec, 5) == ae5 ^ em5);
    assert(s.spec_new_color_bb(m, ec) == cbe ^ ecm);
    lemma_color_update(ae0, ae1, ae2, ae3, ae4, ae5, cbe, em0, em1, em2, em3, em4, em5, ecm);
    assert forall|b: u64| b < 64 implies !(#[trigger] bit64(s.spec_new_color_bb(m, 0), b) && bit64(
        s.spec_new_color_bb(m, 1),
        b,
    )) by {
        assert(bit64(cbm, b) <==> (bit64(am0, b) || bit64(am1, b) || bit64(am2, b) || bit64(
            am3,
            b,
        ) || bit64(am4, b) || bit64(am5, b)));
        assert(bit64(cbe, b) <==> (bit64(ae0, b) || bit64(ae1, b) || bit64(ae2, b) || bit64(
            ae3,
            b,
        ) || bit64(ae4, b) || bit64(ae5, b)));
        assert(!(bit64(cbm, b) && bit64(cbe, b)));
    }
}


/// Clearing one occupied square on both the occupant's kind board and its
/// color board keeps the boards well formed, empties that square, and leaves
/// every other square's piece unchanged.
proof fn lemma_remove_piece_wf(o: BoardState, f: BoardState, sq: u64, p: Piece, c: Color)
    requires
        o.wf_boards(),
        sq < 64,
        o.spec_piece_at(sq) == Option::Some((p, c)),
        forall|c2: int, p2: int|
            0 <= c2 < 2 && 0 <= p2 < 6 ==> #[trigger] f.pieces[c2][p2].value == (if c2
                == c.spec_index() && p2 == p.spec_index() {
                o.pieces[c2][p2].value & !(1u64 << sq)
            } else {
                o.pieces[c2][p2].value
            }),
        forall|c2: int|
            0 <= c2 < 2 ==> #[trigger] f.pieces_for_color[c2].value == (if c2 == c.spec_index() {
                o.pieces_for_color[c2].value & !(1u64 << sq)
            } else {
                o.pieces_for_color[c2].value
            }),
        f.castling == o.castling,
        f.en_passant_position == o.en_passant_position,
    ensures
        f.wf_boards(),
        f.spec_piece_at(sq) is None,
        forall|b: u64| b < 64 && b != sq ==> f.spec_piece_at(b) == o.spec_piece_at(b),
{
    broadcast use crate::bits::group_bit64;

    let ci = c.spec_index() as int;
    let pi = p.spec_index() as int;
    assert(0 <= ci < 2 && 0 <= pi < 6);
    assert(bit64(o.pieces_for_color[ci].value, sq));
    assert(bit64(o.pieces[ci][pi].value, sq));
    assert forall|c2: int, p2: int, b: u64|
        0 <= c2 < 2 && 0 <= p2 < 6 && b < 64 implies (#[trigger] bit64(f.pieces[c2][p2].value, b)
        <==> (bit64(o.pieces[c2][p2].value, b) && !(c2 == ci && p2 == pi && b == sq))) by {
        if c2 == ci && p2 == pi {
            crate::bits::lemma_bit64_and(o.pieces[c2][p2].value, !(1u64 << sq), b);
            crate::bits::lemma_bit64_not(1u64 << sq, b);
            crate::bits::lemma_bit64_single(sq, b);
        }
    }
    assert forall|c2: int, b: u64|
        0 <= c2 < 2 && b < 64 implies (#[trigger] bit64(f.pieces_for_color[c2].value, b) <==> (
        bit64(o.pieces_for_color[c2].value, b) && !(c2 == ci && b == sq))) by {
        if c2 == ci {
            crate::bits::lemma_bit64_and(o.pieces_for_color[c2].value, !(1u64 << sq), b);
            crate::bits::lemma_bit64_not(1u64 << sq, b);
            crate::bits::lemma_bit64_single(sq, b);
        }
    }
    assert forall|b: u64| b < 64 implies !(bit64(f.pieces_for_color[0].value, b) && bit64(
        f.pieces_for_color[1].value,
        b,
    )) by {}
    assert forall|c2: int, b: u64| 0 <= c2 < 2 && b < 64 implies (#[trigger] bit64(
        f.pieces_for_color[c2].value,
        b,
    ) <==> (bit64(f.pieces[c2][0].value, b) || bit64(f.pieces[c2][1].value, b) || bit64(
        f.pieces[c2][2].value,
        b,
    ) || bit64(f.pieces[c2][3].value, b) || bit64(f.pieces[c2][4].value, b) || bit64(
        f.pieces[c2][5].value,
        b,
    ))) by {
        assert(bit64(o.pieces_for_color[c2].value, b) <==> (bit64(o.pieces[c2][0].value, b)
            || bit64(o.pieces[c2][1].value, b) || bit64(o.pieces[c2][2].value, b) || bit64(
            o.pieces[c2][3].value,
            b,
        ) || bit64(o.pieces[c2][4].value, b) || bit64(o.pieces[c2][5].value, b)));
        if c2 == ci && b == sq {
            assert(bcount(bit64(o.pieces[c2][0].value, b)) + bcount(bit64(o.pieces[c2][1].value, b))
                + bcount(bit64(o.pieces[c2][2].value, b)) + bcount(bit64(o.pieces[c2][3].value, b))
                + bcount(bit64(o.pieces[c2][4].value, b)) + bcount(bit64(o.pieces[c2][5].value, b))
                <= 1);
        }
    }
    assert forall|c2: int, b: u64| 0 <= c2 < 2 && b < 64 implies bcount(#[trigger] bit64(
        f.pieces[c2][0].value,
        b,
    )) + bcount(bit64(f.pieces[c2][1].value, b)) + bcount(bit64(f.pieces[c2][2].value, b)) + bcount(
        bit64(f.pieces[c2][3].value, b),
    ) + bcount(bit64(f.pieces[c2][4].value, b)) + bcount(bit64(f.pieces[c2][5].value, b)) <= 1 by {
        assert(bcount(bit64(o.pieces[c2][0].value, b)) + bcount(bit64(o.pieces[c2][1].value, b))
            + bcount(bit64(o.pieces[c2][2].value, b)) + bcount(bit64(o.pieces[c2][3].value, b))
            + bcount(bit64(o.pieces[c2][4].value, b)) + bcount(bit64(o.pieces[c2][5].value, b))
            <= 1);
    }
    assert(!bit64(f.pieces_for_color[0].value, sq) && !bit64(f.pieces_for_color[1].value, sq));
    assert forall|b: u64| b < 64 && b != sq implies f.spec_piece_at(b) == o.spec_piece_at(b) by {
        assert(bit64(f.pieces_for_color[0].value, b) == bit64(o.pieces_for_color[0].value, b));
        assert(bit64(f.pieces_for_color[1].value, b) == bit64(o.pieces_for_color[1].value, b));
        assert forall|c2: int, p2: int| 0 <= c2 < 2 && 0 <= p2 < 6 implies #[trigger] bit64(
            f.pieces[c2][p2].value,
            b,
        ) == bit64(o.pieces[c2][p2].value, b) by {}
        assert(bit64(f.pieces[0][0].value, b) == bit64(o.pieces[0][0].value, b) && bit64(
            f.pieces[0][1].value,
            b,
        ) == bit64(o.pieces[0][1].value, b) && bit64(f.pieces[0][2].value, b) == bit64(
            o.pieces[0][2].value,
            b,
        ) && bit64(f.pieces[0][3].value, b) == bit64(o.pieces[0][3].value, b) && bit64(
            f.pieces[0][4].value,
            b,
        ) == bit64(o.pieces[0][4].value, b) && bit64(f.pieces[0][5].value, b) == bit64(
            o.pieces[0][5].value,
            b,
        ));
        assert(bit64(f.pieces[1][0].value, b) == bit64(o.pieces[1][0].value, b) && bit64(
            f.pieces[1][1].value,
            b,
        ) == bit64(o.pieces[1][1].value, b) && bit64(f.pieces[1][2].value, b) == bit64(
            o.pieces[1][2].value,
            b,
        ) && bit64(f.pieces[1][3].value, b) == bit64(o.pieces[1][3].value, b) && bit64(
            f.pieces[1][4].value,
            b,
        ) == bit64(o.pieces[1][4].value, b) && bit64(f.pieces[1][5].value, b) == bit64(
            o.pieces[1][5].value,
            b,
        ));
    }
}

proof fn lemma_start_position_bits()
    by (bit_vector)
    ensures
        forall|b: u64|
            b < 64 ==> !(#[trigger] bit64(0x000000000000ffffu64, b) && bit64(
                0xffff000000000000u64,
                b,
            )),
        forall|b: u64|
            b < 64 ==> (#[trigger] bit64(0x000000000000ffffu64, b) <==> (bit64(0x10u64, b) || bit64(
                0x08u64,
                b,
            ) || bit64(0x81u64, b) || bit64(0x24u64, b) || bit64(0x42u64, b) || bit64(
                0xff00u64,
                b,
            ))),
        forall|b: u64|
            b < 64 ==> (#[trigger] bit64(0xffff000000000000u64, b) <==> (bit64(
                0x1000000000000000u64,
                b,
            ) || bit64(0x0800000000000000u64, b) || bit64(0x8100000000000000u64, b) || bit64(
                0x2400000000000000u64,
                b,
            ) || bit64(0x4200000000000000u64, b) || bit64(0x00ff000000000000u64, b))),
        forall|b: u64|
            b < 64 ==> bcount(#[trigger] bit64(0x10u64, b)) + bcount(bit64(0x08u64, b)) + bcount(
                bit64(0x81u64, b),
            ) + bcount(bit64(0x24u64, b)) + bcount(bit64(0x42u64, b)) + bcount(bit64(0xff00u64, b))
                <= 1,
        forall|b: u64|
            b < 64 ==> bcount(#[trigger] bit64(0x1000000000000000u64, b)) + bcount(
                bit64(0x0800000000000000u64, b),
            ) + bcount(bit64(0x8100000000000000u64, b)) + bcount(bit64(0x2400000000000000u64, b))
                + bcount(bit64(0x4200000000000000u64, b)) + bcount(
                bit64(0x00ff000000000000u64, b),
            ) <= 1,
        single_bit64(0x10u64),
        single_bit64(0x1000000000000000u64),
{
}

impl Default for BoardState {
    /// The standard starting position: White to move, all castling rights,
    /// no en-passant target, clocks at zero.
    fn default() -> (r: BoardState)
        ensures
            r.wf_boards(),
            r.kings_ok(),
            r.color_on_move == Color::White,
            r.castling.value == crate::castling::ALL_CASTLING,
            r.en_passant_position is None,
            r.half_move_clock == 0,
            r.ply == 0,
            forall|c: Color, p: Piece|
                p != Piece::Empty ==> #[trigger] r.spec_kind_bb(c, p)
                    == Piece::spec_default_bitboard_for_color_and_type(c, p),
            forall|c: Color| #[trigger]
                r.spec_color_bb(c) == Piece::spec_default_bitboard_for_color(c),
    {
        let r = BoardState {
            pieces_for_color: [
                Piece::default_bitboard_for_color(Color::White),
                Piece::default_bitboard_for_color(Color::Black),
            ],
            pieces: [
                [
                    Piece::default_bitboard_for_color_and_type(Color::White, Piece::King),
                    Piece::default_bitboard_for_color_and_type(Color::White, Piece::Queen),
                    Piece::default_bitboard_for_color_and_type(Color::White, Piece::Rook),
                    Piece::default_bitboard_for_color_and_type(Color::White, Piece::Bishop),
                    Piece::default_bitboard_for_color_and_type(Color::White, Piece::Knight),
                    Piece::default_bitboard_for_color_and_type(Color::White, Piece::Pawn),
                ],
                [
                    Piece::default_bitboard_for_color_and_type(Color::Black, Piece::King),
                    Piece::default_bitboard_for_color_and_type(Color::Black, Piece::Queen),
                    Piece::default_bitboard_for_color_and_type(Color::Black, Piece::Rook),
                    Piece::default_bitboard_for_color_and_type(Color::Black, Piece::Bishop),
                    Piece::default_bitboard_for_color_and_type(Color::Black, Piece::Knight),
                    Piece::default_bitboard_for_color_and_type(Color::Black, Piece::Pawn),
                ],
            ],
            half_move_clock: 0,
            ply: 0,
            score: 0,
            color_on_move: Color::White,
            castling: CastlingRight::default(),
            en_passant_position: Option::None,
        };
        proof {
            lemma_start_position_bits();
        }
        r
    }
}

fn castling_rook_mask(t: u64) -> (r: u64)
    ensures
        r == spec_castling_rook_mask(t),
{
    if t == 6 {
        (1u64 << 7) | (1u64 << 5)
    } else if t == 2 {
        (1u64 << 0) | (1u64 << 3)
    } else if t == 62 {
        (1u64 << 63) | (1u64 << 61)
    } else {
        (1u64 << 56) | (1u64 << 59)
    }
}

} // verus!
