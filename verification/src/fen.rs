//! The Forsyth-Edwards codec: parse a six-field position string into a
//! `BoardState`, and emit one back. The parser is specified by a functional
//! parser over the byte sequence; parsing succeeds exactly when that parser
//! does, and the parsed state carries exactly its fields.

use vstd::prelude::*;
use vstd::string::StrSliceExecFns;
use vstd::string::StringExecFns;
use vstd::string::StringSliceAdditionalSpecFns;
use crate::bits::bit64;
use crate::bitboard::BitBoard;
use crate::board_state::BoardState;
use crate::castling::CastlingRight;
use crate::color::Color;
use crate::error::GameError;
use crate::piece::Piece;
use crate::square::Square;

verus! {

/// What a well-formed position string denotes: the piece on each square, the
/// side to move, the castling rights, the en-passant target and the clocks.
pub struct FenData {
    pub board: Seq<Option<(Piece, Color)>>,
    pub side: Color,
    pub castling: CastlingRight,
    pub ep: Option<Square>,
    pub halfmove: u16,
    pub fullmove: u16,
}

/// The piece letter denoted by byte `ch`, if any.
pub open spec fn spec_piece_of_byte(ch: u8) -> Option<(Piece, Color)> {
    if ch == 75 {  // K
        Option::Some((Piece::King, Color::White))
    } else if ch == 81 {  // Q
        Option::Some((Piece::Queen, Color::White))
    } else if ch == 82 {  // R
        Option::Some((Piece::Rook, Color::White))
    } else if ch == 66 {  // B
        Option::Some((Piece::Bishop, Color::White))
    } else if ch == 78 {  // N
        Option::Some((Piece::Knight, Color::White))
    } else if ch == 80 {  // P
        Option::Some((Piece::Pawn, Color::White))
    } else if ch == 107 {  // k
        Option::Some((Piece::King, Color::Black))
    } else if ch == 113 {  // q
        Option::Some((Piece::Queen, Color::Black))
    } else if ch == 114 {  // r
        Option::Some((Piece::Rook, Color::Black))
    } else if ch == 98 {  // b
        Option::Some((Piece::Bishop, Color::Black))
    } else if ch == 110 {  // n
        Option::Some((Piece::Knight, Color::Black))
    } else if ch == 112 {  // p
        Option::Some((Piece::Pawn, Color::Black))
    } else {
        Option::None
    }
}

/// Parses the placement field: ranks 8 down to 1 separated by `/`, files a to
/// h, digits for runs of empty squares. `r` and `f` are the rank and file the
/// scan stands on; `acc` is the board gathered so far.
pub open spec fn spec_parse_placement(
    s: Seq<u8>,
    i: int,
    r: int,
    f: int,
    acc: Seq<Option<(Piece, Color)>>,
) -> Option<(Seq<Option<(Piece, Color)>>, int)>
    decreases s.len() - i,
{
    if r == 0 && f == 8 {
        Option::Some((acc, i))
    } else if i < 0 || i >= s.len() {
        Option::None
    } else {
        let ch = s[i];
        if ch == 47 {  // '/'
            if f == 8 && r > 0 {
                spec_parse_placement(s, i + 1, r - 1, 0, acc)
            } else {
                Option::None
            }
        } else if 49 <= ch <= 56 {  // '1'..'8'
            let d = (ch - 48) as int;
            if f + d <= 8 {
                spec_parse_placement(s, i + 1, r, f + d, acc)
            } else {
                Option::None
            }
        } else {
            match spec_piece_of_byte(ch) {
                Option::Some(pc) => if f < 8 {
                    spec_parse_placement(s, i + 1, r, f + 1, acc.update(r * 8 + f, Option::Some(pc)))
                } else {
                    Option::None
                },
                Option::None => Option::None,
            }
        }
    }
}

/// Parses the castling field: `-`, or a subset of `KQkq` in that order.
pub open spec fn spec_parse_castling(s: Seq<u8>, i: int) -> Option<(CastlingRight, int)> {
    if i >= s.len() {
        Option::None
    } else if s[i] == 45 {  // '-'
        Option::Some((CastlingRight { value: 0 }, i + 1))
    } else {
        let wk: int = if i < s.len() && s[i] == 75 {
            1
        } else {
            0
        };
        let wq: int = if i + wk < s.len() && s[i + wk] == 81 {
            1
        } else {
            0
        };
        let bk: int = if i + wk + wq < s.len() && s[i + wk + wq] == 107 {
            1
        } else {
            0
        };
        let bq: int = if i + wk + wq + bk < s.len() && s[i + wk + wq + bk] == 113 {
            1
        } else {
            0
        };
        if wk + wq + bk + bq == 0 {
            Option::None
        } else {
            Option::Some(
                (
                    CastlingRight {
                        value: ((wk + wq * 2 + bk * 4 + bq * 8) as u8),
                    },
                    i + wk + wq + bk + bq,
                ),
            )
        }
    }
}

/// Parses the en-passant field: `-`, or a file letter and a rank digit.
pub open spec fn spec_parse_ep(s: Seq<u8>, i: int) -> Option<(Option<Square>, int)> {
    if i >= s.len() {
        Option::None
    } else if s[i] == 45 {  // '-'
        Option::Some((Option::None, i + 1))
    } else if i + 1 < s.len() {
        match (Square::spec_file_of_char(s[i] as char), Square::spec_rank_of_char(
            s[i + 1] as char,
        )) {
            (Option::Some(file), Option::Some(rank)) => Option::Some(
                (Option::Some(Square { index: (file + rank * 8) as usize }), i + 2),
            ),
            _ => Option::None,
        }
    } else {
        Option::None
    }
}

/// Parses a run of decimal digits already begun with value `acc`.
pub open spec fn spec_parse_digits(s: Seq<u8>, i: int, acc: int) -> Option<(int, int)>
    decreases s.len() - i,
{
    if i < 0 || i >= s.len() || !(48 <= s[i] <= 57) {
        Option::Some((acc, i))
    } else {
        let v = acc * 10 + (s[i] - 48);
        if v > 0xffff {
            Option::None
        } else {
            spec_parse_digits(s, i + 1, v)
        }
    }
}

/// Parses a decimal number of at least one digit that fits in sixteen bits.
pub open spec fn spec_parse_u16(s: Seq<u8>, i: int) -> Option<(int, int)> {
    if 0 <= i < s.len() && 48 <= s[i] <= 57 {
        spec_parse_digits(s, i, 0)
    } else {
        Option::None
    }
}

/// The empty board: no piece anywhere.
pub open spec fn spec_empty_board() -> Seq<Option<(Piece, Color)>> {
    Seq::new(64, |i: int| Option::None)
}

/// The functional parser of a whole position string: six space-separated
/// fields, nothing after the last. Yields what the string denotes, or
/// nothing if it is malformed or a counter is out of range.
pub open spec fn spec_parse_fen(s: Seq<u8>) -> Option<FenData> {
    match spec_parse_placement(s, 0, 7, 0, spec_empty_board()) {
        Option::None => Option::None,
        Option::Some((board, i1)) => {
            if !(i1 + 1 < s.len() && s[i1] == 32) {
                Option::None
            } else {
                let side = if s[i1 + 1] == 119 {
                    Option::Some(Color::White)
                } else if s[i1 + 1] == 98 {
                    Option::Some(Color::Black)
                } else {
                    Option::None
                };
                match side {
                    Option::None => Option::None,
                    Option::Some(side) => {
                        let i2 = i1 + 2;
                        if !(i2 < s.len() && s[i2] == 32) {
                            Option::None
                        } else {
                            match spec_parse_castling(s, i2 + 1) {
                                Option::None => Option::None,
                                Option::Some((castling, i3)) => {
                                    if !(i3 < s.len() && s[i3] == 32) {
                                        Option::None
                                    } else {
                                        match spec_parse_ep(s, i3 + 1) {
                                            Option::None => Option::None,
                                            Option::Some((ep, i4)) => {
                                                if !(i4 < s.len() && s[i4] == 32) {
                                                    Option::None
                                                } else {
                                                    match spec_parse_u16(s, i4 + 1) {
                                                        Option::None => Option::None,
                                                        Option::Some((hm, i5)) => {
                                                            if !(i5 < s.len() && s[i5] == 32 && hm
                                                                < 0xffff) {
                                                                Option::None
                                                            } else {
                                                                match spec_parse_u16(s, i5 + 1) {
                                                                    Option::None => Option::None,
                                                                    Option::Some((fm, i6)) => {
                                                                        if i6 == s.len() && 1 <= fm
                                                                            <= 0x7fff {
                                                                            Option::Some(
                                                                                FenData {
                                                                                    board,
                                                                                    side,
                                                                                    castling,
                                                                                    ep,
                                                                                    halfmove: hm as u16,
                                                                                    fullmove: fm as u16,
                                                                                },
                                                                            )
                                                                        } else {
                                                                            Option::None
                                                                        }
                                                                    },
                                                                }
                                                            }
                                                        },
                                                    }
                                                }
                                            },
                                        }
                                    }
                                },
                            }
                        }
                    },
                }
            }
        },
    }
}


/// The state a parse yields carries exactly the parsed fields.
pub open spec fn spec_fen_state_ok(st: BoardState, f: FenData) -> bool {
    &&& st.wf_boards()
    &&& (forall|sq: u64| sq < 64 ==> st.spec_piece_at(sq) == f.board[sq as int])
    &&& st.color_on_move == f.side
    &&& st.castling == f.castling
    &&& st.en_passant_position == f.ep
    &&& st.half_move_clock == f.halfmove
    &&& st.half_move_clock < 0xffff
    &&& st.ply == 2 * ((f.fullmove - 1) as u16) + (if f.side == Color::Black {
        1u16
    } else {
        0u16
    })
    &&& st.ply < 0xffff
    &&& st.score == 0
}

/// Squares at rank `r`, file `f` and beyond have not been scanned yet when
/// the placement cursor stands there.
pub open spec fn spec_scanned(b: int, r: int, f: int) -> bool {
    b / 8 > r || (b / 8 == r && b % 8 < f)
}

fn parse_castling_exec(bytes: &Vec<u8>, i: usize) -> (r: Option<(CastlingRight, usize)>)
    requires
        i <= bytes@.len(),
    ensures
        (r is Some) == (spec_parse_castling(bytes@, i as int) is Some),
        r matches Option::Some((cr, j)) ==> spec_parse_castling(bytes@, i as int)
            == Option::Some((cr, j as int)) && j <= bytes@.len(),
{
    let n = bytes.len();
    if i >= n {
        return Option::None;
    }
    if bytes[i] == 45 {
        return Option::Some((CastlingRight::from_raw(0), i + 1));
    }
    let mut j = i;
    let mut v: u8 = 0;
    if j < n && bytes[j] == 75 {
        v = v | 1;
        j = j + 1;
    }
    if j < n && bytes[j] == 81 {
        v = v | 2;
        j = j + 1;
    }
    if j < n && bytes[j] == 107 {
        v = v | 4;
        j = j + 1;
    }
    if j < n && bytes[j] == 113 {
        v = v | 8;
        j = j + 1;
    }
    if j == i {
        return Option::None;
    }
    proof {
        assert(1u8 | 2 == 3 && 1u8 | 4 == 5 && 1u8 | 8 == 9 && 2u8 | 4 == 6 && 2u8 | 8 == 10
            && 4u8 | 8 == 12 && 3u8 | 4 == 7 && 3u8 | 8 == 11 && 5u8 | 8 == 13 && 6u8 | 8 == 14
            && 7u8 | 8 == 15 && 0u8 | 1 == 1 && 0u8 | 2 == 2 && 0u8 | 4 == 4 && 0u8 | 8 == 8)
            by (bit_vector);
    }
    Option::Some((CastlingRight::from_raw(v), j))
}

fn parse_ep_exec(bytes: &Vec<u8>, i: usize) -> (r: Option<(Option<Square>, usize)>)
    requires
        i <= bytes@.len(),
    ensures
        (r is Some) == (spec_parse_ep(bytes@, i as int) is Some),
        r matches Option::Some((ep, j)) ==> spec_parse_ep(bytes@, i as int) == Option::Some(
            (ep, j as int),
        ) && j <= bytes@.len(),
{
    let n = bytes.len();
    if i >= n {
        return Option::None;
    }
    if bytes[i] == 45 {
        return Option::Some((Option::None, i + 1));
    }
    if i + 1 >= n {
        return Option::None;
    }
    let fc = bytes[i] as char;
    let rc = bytes[i + 1] as char;
    match (Square::file_of_char(fc), Square::rank_of_char(rc)) {
        (Option::Some(file), Option::Some(rank)) => Option::Some(
            (Option::Some(Square::from_usize(file + rank * 8)), i + 2),
        ),
        _ => Option::None,
    }
}

fn parse_u16_exec(bytes: &Vec<u8>, i: usize) -> (r: Option<(u16, usize)>)
    requires
        i <= bytes@.len(),
    ensures
        (r is Some) == (spec_parse_u16(bytes@, i as int) is Some),
        r matches Option::Some((v, j)) ==> spec_parse_u16(bytes@, i as int) == Option::Some(
            (v as int, j as int),
        ) && j <= bytes@.len(),
{
    let n = bytes.len();
    if i >= n || !(48 <= bytes[i] && bytes[i] <= 57) {
        return Option::None;
    }
    let mut j = i;
    let mut acc: u32 = 0;
    while j < n && 48 <= bytes[j] && bytes[j] <= 57
        invariant
            i <= j <= n,
            n == bytes@.len(),
            acc <= 0xffff,
            spec_parse_digits(bytes@, i as int, 0) == spec_parse_digits(
                bytes@,
                j as int,
                acc as int,
            ),
        decreases n - j,
    {
        let d = (bytes[j] - 48) as u32;
        let v = acc * 10 + d;
        if v > 0xffff {
            return Option::None;
        }
        acc = v;
        j = j + 1;
    }
    Option::Some((acc as u16, j))
}

impl BoardState {
    /// Parses a position string. Succeeds exactly when the functional parser
    /// does, and the state returned is well formed and carries exactly the
    /// parsed fields; the ply count is rebuilt from the full-move number.
    pub fn from_fen(fen: &str) -> (r: Result<BoardState, GameError>)
        ensures
            (r is Ok) == (spec_parse_fen(fen.spec_bytes()) is Some),
            r matches Ok(st) ==> spec_fen_state_ok(st, spec_parse_fen(fen.spec_bytes()).unwrap()),
    {
        let bytes = fen.as_bytes_vec();
        BoardState::parse_fen_bytes(&bytes)
    }

    /// The byte-level parser behind `from_fen`.
    pub fn parse_fen_bytes(bytes: &Vec<u8>) -> (r: Result<BoardState, GameError>)
        ensures
            (r is Ok) == (spec_parse_fen(bytes@) is Some),
            r matches Ok(st) ==> spec_fen_state_ok(st, spec_parse_fen(bytes@).unwrap()),
    {
        broadcast use crate::bits::group_bit64;
        broadcast use vstd::array::group_array_axioms;

        let n = bytes.len();
        let mut kinds = [0u64, 0, 0, 0, 0, 0, 0, 0, 0, 0, 0, 0];
        let mut cols = [0u64, 0];
        let ghost mut acc = spec_empty_board();
        let mut i: usize = 0;
        let mut r: u64 = 7;
        let mut f: u64 = 0;
        while !(r == 0 && f == 8)
            invariant
                n == bytes@.len(),
                i <= n,
                r <= 7,
                f <= 8,
                acc.len() == 64,
                spec_parse_placement(bytes@, 0, 7, 0, spec_empty_board()) == spec_parse_placement(
                    bytes@,
                    i as int,
                    r as int,
                    f as int,
                    acc,
                ),
                forall|b: u64, x: int|
                    b < 64 && 0 <= x < 12 ==> (#[trigger] bit64(kinds[x], b) <==> acc[b as int]
                        == Option::Some(
                        (
                            Piece::spec_from_u64((x % 6) as u64),
                            Color::spec_from_u64((x / 6) as u64),
                        ),
                    )),
                forall|b: u64, ci: int|
                    b < 64 && 0 <= ci < 2 ==> (#[trigger] bit64(cols[ci], b) <==> (acc[b as int]
                        is Some && acc[b as int].unwrap().1 == Color::spec_from_u64(ci as u64))),
                forall|b: int|
                    0 <= b < 64 && (#[trigger] acc[b]) is Some ==> spec_scanned(
                        b,
                        r as int,
                        f as int,
                    ),
                forall|b: int|
                    0 <= b < 64 && (#[trigger] acc[b]) is Some ==> acc[b].unwrap().0 != Piece::Empty
                        && acc[b].unwrap().0.spec_index() < 6,
            decreases r * 16 + 8 - f,
        {
            if i >= n {
                return Result::Err(
                    GameError::FenFormatError(
                        String::from_str("invalid FEN format: piece placement ends early"),
                    ),
                );
            }
            let ch = bytes[i];
            if ch == 47 {
                if f == 8 && r > 0 {
                    r = r - 1;
                    f = 0;
                    i = i + 1;
                } else {
                    return Result::Err(
                        GameError::FenFormatError(
                            String::from_str("invalid FEN format: misplaced rank separator"),
                        ),
                    );
                }
            } else if 49 <= ch && ch <= 56 {
                let d = (ch - 48) as u64;
                if f + d <= 8 {
                    f = f + d;
                    i = i + 1;
                } else {
                    return Result::Err(
                        GameError::FenFormatError(
                            String::from_str("invalid FEN format: rank is too long"),
                        ),
                    );
                }
            } else {
                let pc = piece_of_byte(ch);
                match pc {
                    Option::Some((p, c)) => {
                        if f < 8 {
                            let sq = r * 8 + f;
                            let ci = c.index();
                            let pi = p.index();
                            let idx = ci * 6 + pi;
                            let bit = 1u64 << sq;
                            proof {
                                assert(sq / 8 == r && sq % 8 == f) by (nonlinear_arith)
                                    requires
                                        sq == r * 8 + f && 0 <= f < 8 && 0 <= r <= 7,
                                ;
                                assert(!spec_scanned(sq as int, r as int, f as int));
                                assert(acc[sq as int] is None);
                            }
                            let ghost kinds0 = kinds;
                            let ghost cols0 = cols;
                            let ghost acc0 = acc;
                            kinds[idx] = kinds[idx] | bit;
                            cols[ci] = cols[ci] | bit;
                            proof {
                                acc = acc.update(sq as int, Option::Some((p, c)));
                                assert(idx % 6 == pi && idx / 6 == ci);
                                assert forall|b: u64, x: int|
                                    b < 64 && 0 <= x < 12 implies (#[trigger] bit64(kinds[x], b)
                                    <==> acc[b as int] == Option::Some(
                                    (
                                        Piece::spec_from_u64((x % 6) as u64),
                                        Color::spec_from_u64((x / 6) as u64),
                                    ),
                                )) by {
                                    crate::bits::lemma_bit64_or(kinds0[idx as int], bit, b);
                                    crate::bits::lemma_bit64_single(sq, b);
                                    if x == idx {
                                        assert(kinds[x] == kinds0[idx as int] | bit);
                                    } else {
                                        assert(kinds[x] == kinds0[x]);
                                    }
                                }
                                assert forall|b: u64, c2: int|
                                    b < 64 && 0 <= c2 < 2 implies (#[trigger] bit64(cols[c2], b)
                                    <==> (acc[b as int] is Some && acc[b as int].unwrap().1
                                    == Color::spec_from_u64(c2 as u64))) by {
                                    crate::bits::lemma_bit64_or(cols0[ci as int], bit, b);
                                    crate::bits::lemma_bit64_single(sq, b);
                                    if c2 == ci {
                                        assert(cols[c2] == cols0[ci as int] | bit);
                                    } else {
                                        assert(cols[c2] == cols0[c2]);
                                    }
                                }
                                assert forall|b: int|
                                    0 <= b < 64 && acc[b] is Some implies spec_scanned(
                                    b,
                                    r as int,
                                    f as int + 1,
                                ) by {
                                    if b != sq {
                                        assert(acc0[b] == acc[b]);
                                        assert(spec_scanned(b, r as int, f as int));
                                    } else {
                                        assert(b / 8 == r && b % 8 == f);
                                    }
                                }
                            }
                            f = f + 1;
                            i = i + 1;
                        } else {
                            return Result::Err(
                                GameError::FenFormatError(
                                    String::from_str("invalid FEN format: rank is too long"),
                                ),
                            );
                        }
                    },
                    Option::None => {
                        return Result::Err(
                            GameError::FenFormatError(
                                String::from_str("invalid FEN format: invalid placement character"),
                            ),
                        );
                    },
                }
            }
        }
        // side to move
        if !(i < n && bytes[i] == 32 && i + 1 < n) {
            return Result::Err(
                GameError::FenFormatError(String::from_str("invalid FEN format: fields missing")),
            );
        }
        let side = if bytes[i + 1] == 119 {
            Color::White
        } else if bytes[i + 1] == 98 {
            Color::Black
        } else {
            return Result::Err(
                GameError::FenFormatError(
                    String::from_str("invalid FEN format: active color can either be 'w' or 'b'"),
                ),
            );
        };
        let i2 = i + 2;
        if !(i2 < n && bytes[i2] == 32) {
            return Result::Err(
                GameError::FenFormatError(String::from_str("invalid FEN format: fields missing")),
            );
        }
        let castling = match parse_castling_exec(bytes, i2 + 1) {
            Option::Some(cj) => cj,
            Option::None => {
                return Result::Err(
                    GameError::FenFormatError(
                        String::from_str("invalid FEN format: invalid castling rights value"),
                    ),
                );
            },
        };
        let i3 = castling.1;
        if !(i3 < n && bytes[i3] == 32) {
            return Result::Err(
                GameError::FenFormatError(String::from_str("invalid FEN format: fields missing")),
            );
        }
        let ep = match parse_ep_exec(bytes, i3 + 1) {
            Option::Some(ej) => ej,
            Option::None => {
                return Result::Err(
                    GameError::FenFormatError(
                        String::from_str("invalid FEN format: invalid en passant target"),
                    ),
                );
            },
        };
        let i4 = ep.1;
        if !(i4 < n && bytes[i4] == 32) {
            return Result::Err(
                GameError::FenFormatError(String::from_str("invalid FEN format: fields missing")),
            );
        }
        let hm = match parse_u16_exec(bytes, i4 + 1) {
            Option::Some(hj) => hj,
            Option::None => {
                return Result::Err(
                    GameError::FenFormatError(
                        String::from_str("invalid FEN format: invalid half move clock"),
                    ),
                );
            },
        };
        let i5 = hm.1;
        if !(i5 < n && bytes[i5] == 32 && hm.0 < 0xffff) {
            return Result::Err(
                GameError::FenFormatError(
                    String::from_str("invalid FEN format: invalid half move clock"),
                ),
            );
        }
        let fm = match parse_u16_exec(bytes, i5 + 1) {
            Option::Some(fj) => fj,
            Option::None => {
                return Result::Err(
                    GameError::FenFormatError(
                        String::from_str("invalid FEN format: invalid full move number"),
                    ),
                );
            },
        };
        let i6 = fm.1;
        if !(i6 == n && 1 <= fm.0 && fm.0 <= 0x7fff) {
            return Result::Err(
                GameError::FenFormatError(
                    String::from_str("invalid FEN format: invalid full move number"),
                ),
            );
        }
        let ply: u16 = 2 * (fm.0 - 1) + (if matches!(side, Color::Black) {
            1
        } else {
            0
        });
        let st = BoardState {
            pieces_for_color: [BitBoard::from(cols[0]), BitBoard::from(cols[1])],
            pieces: [
                [
                    BitBoard::from(kinds[0]),
                    BitBoard::from(kinds[1]),
                    BitBoard::from(kinds[2]),
                    BitBoard::from(kinds[3]),
                    BitBoard::from(kinds[4]),
                    BitBoard::from(kinds[5]),
                ],
                [
                    BitBoard::from(kinds[6]),
                    BitBoard::from(kinds[7]),
                    BitBoard::from(kinds[8]),
                    BitBoard::from(kinds[9]),
                    BitBoard::from(kinds[10]),
                    BitBoard::from(kinds[11]),
                ],
            ],
            half_move_clock: hm.0,
            ply,
            score: 0,
            color_on_move: side,
            castling: castling.0,
            en_passant_position: ep.0,
        };
        proof {
            assert(spec_parse_placement(bytes@, 0, 7, 0, spec_empty_board()) == Option::Some(
                (acc, i as int),
            ));
            let fd = spec_parse_fen(bytes@).unwrap();
            assert(fd.board == acc);
            lemma_parsed_state(st, kinds, cols, acc);
        }
        Result::Ok(st)
    }
}

/// The piece letter denoted by byte `ch`, if any.
fn piece_of_byte(ch: u8) -> (r: Option<(Piece, Color)>)
    ensures
        r == spec_piece_of_byte(ch),
{
    if ch == 75 {
        Option::Some((Piece::King, Color::White))
    } else if ch == 81 {
        Option::Some((Piece::Queen, Color::White))
    } else if ch == 82 {
        Option::Some((Piece::Rook, Color::White))
    } else if ch == 66 {
        Option::Some((Piece::Bishop, Color::White))
    } else if ch == 78 {
        Option::Some((Piece::Knight, Color::White))
    } else if ch == 80 {
        Option::Some((Piece::Pawn, Color::White))
    } else if ch == 107 {
        Option::Some((Piece::King, Color::Black))
    } else if ch == 113 {
        Option::Some((Piece::Queen, Color::Black))
    } else if ch == 114 {
        Option::Some((Piece::Rook, Color::Black))
    } else if ch == 98 {
        Option::Some((Piece::Bishop, Color::Black))
    } else if ch == 110 {
        Option::Some((Piece::Knight, Color::Black))
    } else if ch == 112 {
        Option::Some((Piece::Pawn, Color::Black))
    } else {
        Option::None
    }
}


/// A state whose boards carry exactly the parsed placement is well formed and
/// reads back that placement square by square.
proof fn lemma_parsed_state(
    st: BoardState,
    kinds: [u64; 12],
    cols: [u64; 2],
    acc: Seq<Option<(Piece, Color)>>,
)
    requires
        acc.len() == 64,
        forall|b: u64, x: int|
            b < 64 && 0 <= x < 12 ==> (#[trigger] bit64(kinds[x], b) <==> acc[b as int]
                == Option::Some(
                (Piece::spec_from_u64((x % 6) as u64), Color::spec_from_u64((x / 6) as u64)),
            )),
        forall|b: u64, ci: int|
            b < 64 && 0 <= ci < 2 ==> (#[trigger] bit64(cols[ci], b) <==> (acc[b as int] is Some
                && acc[b as int].unwrap().1 == Color::spec_from_u64(ci as u64))),
        forall|b: int|
            0 <= b < 64 && (#[trigger] acc[b]) is Some ==> acc[b].unwrap().0 != Piece::Empty
                && acc[b].unwrap().0.spec_index() < 6,
        st.pieces_for_color[0].value == cols[0],
        st.pieces_for_color[1].value == cols[1],
        st.pieces[0][0].value == kinds[0],
        st.pieces[0][1].value == kinds[1],
        st.pieces[0][2].value == kinds[2],
        st.pieces[0][3].value == kinds[3],
        st.pieces[0][4].value == kinds[4],
        st.pieces[0][5].value == kinds[5],
        st.pieces[1][0].value == kinds[6],
        st.pieces[1][1].value == kinds[7],
        st.pieces[1][2].value == kinds[8],
        st.pieces[1][3].value == kinds[9],
        st.pieces[1][4].value == kinds[10],
        st.pieces[1][5].value == kinds[11],
        st.castling.spec_valid(),
        match st.en_passant_position {
            Option::Some(sq) => sq.index < 64,
            Option::None => true,
        },
    ensures
        st.wf_boards(),
        forall|sq: u64| sq < 64 ==> st.spec_piece_at(sq) == acc[sq as int],
{
    assert forall|b: u64| b < 64 implies !(#[trigger] bit64(st.pieces_for_color[0].value, b)
        && bit64(st.pieces_for_color[1].value, b)) by {
        let bi = b as int;
        assert(bit64(cols[0], b) <==> (acc[bi] is Some && acc[bi].unwrap().1
            == Color::spec_from_u64(0)));
        assert(bit64(cols[1], b) <==> (acc[bi] is Some && acc[bi].unwrap().1
            == Color::spec_from_u64(1)));
        assert forall|x: int| 0 <= x < 12 implies (#[trigger] bit64(kinds[x], b) <==> acc[bi]
            == Option::Some(
            (Piece::spec_from_u64((x % 6) as u64), Color::spec_from_u64((x / 6) as u64)),
        )) by {}
        if acc[bi] is Some {
            let pp = acc[bi].unwrap().0;
            let cc = acc[bi].unwrap().1;
            let pidx = pp.spec_index() as int;
            let cidx = cc.spec_index() as int;
            assert(pp == Piece::spec_from_u64(pidx as u64));
            assert(cc == Color::spec_from_u64(cidx as u64));
            assert((cidx * 6 + pidx) % 6 == pidx && (cidx * 6 + pidx) / 6 == cidx);
            assert(bit64(kinds[cidx * 6 + pidx], b));
            assert(bit64(cols[cidx], b));
        }
    }
    assert forall|c: int, b: u64| 0 <= c < 2 && b < 64 implies (#[trigger] bit64(
        st.pieces_for_color[c].value,
        b,
    ) <==> (bit64(st.pieces[c][0].value, b) || bit64(st.pieces[c][1].value, b) || bit64(
        st.pieces[c][2].value,
        b,
    ) || bit64(st.pieces[c][3].value, b) || bit64(st.pieces[c][4].value, b) || bit64(
        st.pieces[c][5].value,
        b,
    ))) by {
        let bi = b as int;
        assert(bit64(cols[0], b) <==> (acc[bi] is Some && acc[bi].unwrap().1
            == Color::spec_from_u64(0)));
        assert(bit64(cols[1], b) <==> (acc[bi] is Some && acc[bi].unwrap().1
            == Color::spec_from_u64(1)));
        assert forall|x: int| 0 <= x < 12 implies (#[trigger] bit64(kinds[x], b) <==> acc[bi]
            == Option::Some(
            (Piece::spec_from_u64((x % 6) as u64), Color::spec_from_u64((x / 6) as u64)),
        )) by {}
        if acc[bi] is Some {
            let pp = acc[bi].unwrap().0;
            let cc = acc[bi].unwrap().1;
            let pidx = pp.spec_index() as int;
            let cidx = cc.spec_index() as int;
            assert(pp == Piece::spec_from_u64(pidx as u64));
            assert(cc == Color::spec_from_u64(cidx as u64));
            assert((cidx * 6 + pidx) % 6 == pidx && (cidx * 6 + pidx) / 6 == cidx);
            assert(bit64(kinds[cidx * 6 + pidx], b));
            assert(bit64(cols[cidx], b));
        }
    }
    assert forall|c: int, b: u64| 0 <= c < 2 && b < 64 implies crate::bits::bcount(
        #[trigger] bit64(st.pieces[c][0].value, b),
    ) + crate::bits::bcount(bit64(st.pieces[c][1].value, b)) + crate::bits::bcount(
        bit64(st.pieces[c][2].value, b),
    ) + crate::bits::bcount(bit64(st.pieces[c][3].value, b)) + crate::bits::bcount(
        bit64(st.pieces[c][4].value, b),
    ) + crate::bits::bcount(bit64(st.pieces[c][5].value, b)) <= 1 by {
        let bi = b as int;
        assert(bit64(cols[0], b) <==> (acc[bi] is Some && acc[bi].unwrap().1
            == Color::spec_from_u64(0)));
        assert(bit64(cols[1], b) <==> (acc[bi] is Some && acc[bi].unwrap().1
            == Color::spec_from_u64(1)));
        assert forall|x: int| 0 <= x < 12 implies (#[trigger] bit64(kinds[x], b) <==> acc[bi]
            == Option::Some(
            (Piece::spec_from_u64((x % 6) as u64), Color::spec_from_u64((x / 6) as u64)),
        )) by {}
        if acc[bi] is Some {
            let pp = acc[bi].unwrap().0;
            let cc = acc[bi].unwrap().1;
            let pidx = pp.spec_index() as int;
            let cidx = cc.spec_index() as int;
            assert(pp == Piece::spec_from_u64(pidx as u64));
            assert(cc == Color::spec_from_u64(cidx as u64));
            assert((cidx * 6 + pidx) % 6 == pidx && (cidx * 6 + pidx) / 6 == cidx);
            assert(bit64(kinds[cidx * 6 + pidx], b));
            assert(bit64(cols[cidx], b));
        }
    }
    assert forall|sq: u64| sq < 64 implies st.spec_piece_at(sq) == acc[sq as int] by {
        let b = sq;
        let bi = b as int;
        assert(bit64(cols[0], b) <==> (acc[bi] is Some && acc[bi].unwrap().1
            == Color::spec_from_u64(0)));
        assert(bit64(cols[1], b) <==> (acc[bi] is Some && acc[bi].unwrap().1
            == Color::spec_from_u64(1)));
        assert forall|x: int| 0 <= x < 12 implies (#[trigger] bit64(kinds[x], b) <==> acc[bi]
            == Option::Some(
            (Piece::spec_from_u64((x % 6) as u64), Color::spec_from_u64((x / 6) as u64)),
        )) by {}
        if acc[bi] is Some {
            let pp = acc[bi].unwrap().0;
            let cc = acc[bi].unwrap().1;
            let pidx = pp.spec_index() as int;
            let cidx = cc.spec_index() as int;
            assert(pp == Piece::spec_from_u64(pidx as u64));
            assert(cc == Color::spec_from_u64(cidx as u64));
            assert((cidx * 6 + pidx) % 6 == pidx && (cidx * 6 + pidx) / 6 == cidx);
            assert(bit64(kinds[cidx * 6 + pidx], b));
            assert(bit64(cols[cidx], b));
        }
    }
}


/// The placement letter of a piece, as a byte.
pub open spec fn spec_piece_byte(p: Piece, c: Color) -> u8 {
    match c {
        Color::White => match p {
            Piece::King => 75,
            Piece::Queen => 81,
            Piece::Rook => 82,
            Piece::Bishop => 66,
            Piece::Knight => 78,
            Piece::Pawn => 80,
            Piece::Empty => 95,
        },
        Color::Black => match p {
            Piece::King => 107,
            Piece::Queen => 113,
            Piece::Rook => 114,
            Piece::Bishop => 98,
            Piece::Knight => 110,
            Piece::Pawn => 112,
            Piece::Empty => 95,
        },
    }
}

/// One emitted rank, from file `f` on, with `run` empty squares pending.
pub open spec fn spec_emit_rank(st: BoardState, r: int, f: int, run: int) -> Seq<u8>
    decreases 8 - f,
{
    if f < 0 || f >= 8 {
        if run > 0 {
            seq![(48 + run) as u8]
        } else {
            Seq::empty()
        }
    } else {
        match st.spec_piece_at((r * 8 + f) as u64) {
            Option::Some(pc) => (if run > 0 {
                seq![(48 + run) as u8]
            } else {
                Seq::empty()
            }) + seq![spec_piece_byte(pc.0, pc.1)] + spec_emit_rank(st, r, f + 1, 0),
            Option::None => spec_emit_rank(st, r, f + 1, run + 1),
        }
    }
}

/// The emitted ranks from `r` down to the first, separated by `/`.
pub open spec fn spec_emit_ranks(st: BoardState, r: int) -> Seq<u8>
    decreases r,
{
    if r <= 0 {
        spec_emit_rank(st, 0, 0, 0)
    } else {
        spec_emit_rank(st, r, 0, 0) + seq![47u8] + spec_emit_ranks(st, r - 1)
    }
}

/// A number in decimal, most significant digit first.
pub open spec fn spec_dec(n: int) -> Seq<u8>
    decreases n,
{
    if n < 10 {
        seq![(48 + n) as u8]
    } else {
        spec_dec(n / 10) + seq![(48 + n % 10) as u8]
    }
}

/// The emitted castling field: `KQkq` filtered to the rights present, or `-`.
pub open spec fn spec_castling_bytes(cr: CastlingRight) -> Seq<u8> {
    if !cr.spec_white_king_side() && !cr.spec_white_queen_side() && !cr.spec_black_king_side()
        && !cr.spec_black_queen_side() {
        seq![45u8]
    } else {
        (if cr.spec_white_king_side() {
            seq![75u8]
        } else {
            Seq::empty()
        }) + (if cr.spec_white_queen_side() {
            seq![81u8]
        } else {
            Seq::empty()
        }) + (if cr.spec_black_king_side() {
            seq![107u8]
        } else {
            Seq::empty()
        }) + (if cr.spec_black_queen_side() {
            seq![113u8]
        } else {
            Seq::empty()
        })
    }
}

/// The emitted en-passant field: the square in algebraic notation, or `-`.
pub open spec fn spec_ep_bytes(ep: Option<Square>) -> Seq<u8> {
    match ep {
        Option::None => seq![45u8],
        Option::Some(sq) => seq![
            (97 + (sq.index % 8)) as u8,
            (49 + (sq.index / 8)) as u8,
        ],
    }
}

/// The whole emitted position string: placement, side, castling, en passant,
/// halfmove clock, and the full-move number rebuilt from the ply count.
pub open spec fn spec_fen_bytes(st: BoardState) -> Seq<u8> {
    spec_emit_ranks(st, 7) + seq![32u8] + seq![st.color_on_move.spec_to_char() as u8] + seq![32u8]
        + spec_castling_bytes(st.castling) + seq![32u8] + spec_ep_bytes(st.en_passant_position)
        + seq![32u8] + spec_dec(st.half_move_clock as int) + seq![32u8] + spec_dec(
        st.ply as int / 2 + 1,
    )
}

/// All emitted bytes are printable seven-bit characters.
pub open spec fn all_ascii(s: Seq<u8>) -> bool {
    forall|i: int| 0 <= i < s.len() ==> s[i] < 128
}

fn emit_rank_rec(st: &BoardState, r: u64, f: u64, run: u64, out: &mut Vec<u8>)
    requires
        r < 8,
        f <= 8,
        run <= f,
    ensures
        final(out)@ == old(out)@ + spec_emit_rank(*st, r as int, f as int, run as int),
        all_ascii(old(out)@) ==> all_ascii(final(out)@),
    decreases 8 - f,
{
    let ghost pre = out@;
    if f >= 8 {
        if run > 0 {
            out.push((48 + run) as u8);
        }
        proof {
            assert(out@ =~= pre + spec_emit_rank(*st, r as int, f as int, run as int));
        }
    } else {
        let sq = (r * 8 + f) as u8;
        match st.get_piece_at(sq) {
            Option::Some((p, c)) => {
                if run > 0 {
                    out.push((48 + run) as u8);
                }
                out.push(piece_byte(p, c));
                let ghost mid = out@;
                proof {
                    assert(mid =~= pre + (if run > 0 {
                        seq![(48 + run) as u8]
                    } else {
                        Seq::<u8>::empty()
                    }) + seq![spec_piece_byte(p, c)]);
                }
                emit_rank_rec(st, r, f + 1, 0, out);
                proof {
                    assert(out@ =~= pre + spec_emit_rank(*st, r as int, f as int, run as int));
                }
            },
            Option::None => {
                emit_rank_rec(st, r, f + 1, run + 1, out);
            },
        }
    }
}

fn emit_ranks_rec(st: &BoardState, r: u64, out: &mut Vec<u8>)
    requires
        r < 8,
    ensures
        final(out)@ == old(out)@ + spec_emit_ranks(*st, r as int),
        all_ascii(old(out)@) ==> all_ascii(final(out)@),
    decreases r,
{
    let ghost pre = out@;
    emit_rank_rec(st, r, 0, 0, out);
    if r > 0 {
        out.push(47);
        emit_ranks_rec(st, r - 1, out);
        proof {
            assert(out@ =~= pre + spec_emit_ranks(*st, r as int));
        }
    }
}

fn push_decimal(n: u16, out: &mut Vec<u8>)
    ensures
        final(out)@ == old(out)@ + spec_dec(n as int),
        all_ascii(old(out)@) ==> all_ascii(final(out)@),
    decreases n,
{
    let ghost pre = out@;
    if n < 10 {
        out.push(48 + (n as u8));
        proof {
            assert(out@ =~= pre + spec_dec(n as int));
        }
    } else {
        push_decimal(n / 10, out);
        out.push(48 + ((n % 10) as u8));
        proof {
            assert(out@ =~= pre + spec_dec(n as int));
        }
    }
}

fn piece_byte(p: Piece, c: Color) -> (r: u8)
    ensures
        r == spec_piece_byte(p, c),
{
    match c {
        Color::White => match p {
            Piece::King => 75,
            Piece::Queen => 81,
            Piece::Rook => 82,
            Piece::Bishop => 66,
            Piece::Knight => 78,
            Piece::Pawn => 80,
            Piece::Empty => 95,
        },
        Color::Black => match p {
            Piece::King => 107,
            Piece::Queen => 113,
            Piece::Rook => 114,
            Piece::Bishop => 98,
            Piece::Knight => 110,
            Piece::Pawn => 112,
            Piece::Empty => 95,
        },
    }
}

/// Relies on String::from_utf8: bytes below 128 are valid UTF-8 and decode
/// one byte to one character of the same value.
#[verifier::external_body]
fn ascii_string(bytes: &Vec<u8>) -> (r: String)
    requires
        all_ascii(bytes@),
    ensures
        r@.len() == bytes@.len(),
        forall|i: int| 0 <= i < bytes@.len() ==> r@[i] == bytes@[i] as char,
{
    String::from_utf8(bytes.clone()).unwrap_or_default()
}

impl BoardState {
    /// The emitted position string, byte for byte as the emitter spec says.
    #[verifier::rlimit(60)]
    pub fn to_fen_bytes(&self) -> (r: Vec<u8>)
        requires
            match self.en_passant_position {
                Option::Some(sq) => sq.index < 64,
                Option::None => true,
            },
        ensures
            r@ == spec_fen_bytes(*self),
            all_ascii(r@),
    {
        let ghost whole = spec_fen_bytes(*self);
        let mut out: Vec<u8> = Vec::new();
        proof {
            assert(all_ascii(out@));
        }
        emit_ranks_rec(self, 7, &mut out);
        out.push(32);
        out.push(self.color_on_move.to_char() as u8);
        out.push(32);
        let cr = self.castling;
        if !cr.is_white_king_side_allowed() && !cr.is_white_queen_side_allowed()
            && !cr.is_black_king_side_allowed() && !cr.is_black_queen_side_allowed() {
            out.push(45);
        } else {
            if cr.is_white_king_side_allowed() {
                out.push(75);
            }
            if cr.is_white_queen_side_allowed() {
                out.push(81);
            }
            if cr.is_black_king_side_allowed() {
                out.push(107);
            }
            if cr.is_black_queen_side_allowed() {
                out.push(113);
            }
        }
        proof {
            assert(out@ =~= spec_emit_ranks(*self, 7) + seq![32u8] + seq![
                self.color_on_move.spec_to_char() as u8,
            ] + seq![32u8] + spec_castling_bytes(self.castling));
        }
        out.push(32);
        match self.en_passant_position {
            Option::Some(sq) => {
                let file = sq.as_usize() % 8;
                let rank = sq.as_usize() / 8;
                proof {
                    assert(rank < 8 && file < 8);
                }
                out.push(97 + (file as u8));
                out.push(49 + (rank as u8));
            },
            Option::None => {
                out.push(45);
            },
        }
        out.push(32);
        let ghost head = spec_emit_ranks(*self, 7) + seq![32u8] + seq![
            self.color_on_move.spec_to_char() as u8,
        ] + seq![32u8] + spec_castling_bytes(self.castling) + seq![32u8] + spec_ep_bytes(
            self.en_passant_position,
        ) + seq![32u8];
        proof {
            assert(out@ =~= head);
        }
        push_decimal(self.half_move_clock, &mut out);
        out.push(32);
        push_decimal(self.ply / 2 + 1, &mut out);
        proof {
            assert(out@ =~= whole);
        }
        out
    }

    /// The emitted position string.
    pub fn to_fen(&self) -> (r: String)
        requires
            match self.en_passant_position {
                Option::Some(sq) => sq.index < 64,
                Option::None => true,
            },
        ensures
            r@.len() == spec_fen_bytes(*self).len(),
            forall|i: int|
                0 <= i < spec_fen_bytes(*self).len() ==> r@[i] == spec_fen_bytes(*self)[i] as char,
    {
        let bytes = self.to_fen_bytes();
        ascii_string(&bytes)
    }

    /// Says what is wrong with a position string, or nothing when the
    /// functional parser accepts it.
    pub fn validate_fen(fen: &str) -> (r: Option<String>)
        ensures
            (r is None) == (spec_parse_fen(fen.spec_bytes()) is Some),
    {
        let bytes = fen.as_bytes_vec();
        match BoardState::parse_fen_bytes(&bytes) {
            Result::Ok(_) => Option::None,
            Result::Err(e) => Option::Some(e.message()),
        }
    }
}


/// Ten to the `k`.
pub open spec fn pow10(k: nat) -> int
    decreases k,
{
    if k == 0 {
        1
    } else {
        10 * pow10((k - 1) as nat)
    }
}

/// An emitted number is at least one byte long, and every byte is a digit.
pub proof fn lemma_dec_digits(n: int)
    requires
        0 <= n,
    ensures
        spec_dec(n).len() >= 1,
        forall|k: int| 0 <= k < spec_dec(n).len() ==> 48 <= #[trigger] spec_dec(n)[k] <= 57,
    decreases n,
{
    if n >= 10 {
        lemma_dec_digits(n / 10);
        assert forall|k: int| 0 <= k < spec_dec(n).len() implies 48 <= #[trigger] spec_dec(n)[k]
            <= 57 by {
            if k < spec_dec(n / 10).len() {
                assert(spec_dec(n)[k] == spec_dec(n / 10)[k]);
            } else {
                assert(spec_dec(n)[k] == (48 + n % 10) as u8);
            }
        }
    }
}

/// Reading the emitted digits of `n` multiplies the accumulator by their
/// count in tens and adds `n`: the digit parser walks exactly past them.
proof fn lemma_parse_dec_steps(s: Seq<u8>, i: int, acc: int, n: int)
    requires
        0 <= n,
        0 <= acc,
        0 <= i,
        i + spec_dec(n).len() <= s.len(),
        forall|k: int| 0 <= k < spec_dec(n).len() ==> s[i + k] == #[trigger] spec_dec(n)[k],
        acc * pow10(spec_dec(n).len() as nat) + n <= 0xffff,
    ensures
        spec_parse_digits(s, i, acc) == spec_parse_digits(
            s,
            i + spec_dec(n).len(),
            acc * pow10(spec_dec(n).len() as nat) + n,
        ),
    decreases n,
{
    lemma_dec_digits(n);
    if n < 10 {
        assert(spec_dec(n) == seq![(48 + n) as u8]);
        assert(spec_dec(n)[0] == (48 + n) as u8);
        assert(s[i + 0] == spec_dec(n)[0]);
        assert(s[i] == (48 + n) as u8);
        assert(pow10(0) == 1);
        assert(pow10(1) == 10);
        assert(acc * 10 + n <= 0xffff);
        assert(s[i] - 48 == n);
        assert(spec_parse_digits(s, i, acc) == spec_parse_digits(s, i + 1, acc * 10 + n));
    } else {
        let h = n / 10;
        let d = n % 10;
        lemma_dec_digits(h);
        let hl = spec_dec(h).len() as int;
        assert(spec_dec(n) == spec_dec(h) + seq![(48 + d) as u8]);
        assert(spec_dec(n).len() == hl + 1);
        assert forall|k: int| 0 <= k < hl implies s[i + k] == #[trigger] spec_dec(h)[k] by {
            assert(spec_dec(n)[k] == spec_dec(h)[k]);
        }
        assert(pow10(spec_dec(n).len() as nat) == 10 * pow10(hl as nat));
        assert(pow10(hl as nat) >= 1) by {
            lemma_pow10_pos(hl as nat);
        }
        assert((acc * pow10(hl as nat) + h) * 10 + d == acc * (10 * pow10(hl as nat)) + n)
            by (nonlinear_arith)
            requires
                h == n / 10 && d == n % 10 && n >= 10,
        ;
        lemma_parse_dec_steps(s, i, acc, h);
        let mid = acc * pow10(hl as nat) + h;
        assert(s[i + hl] == (48 + d) as u8) by {
            assert(spec_dec(n)[hl] == (48 + d) as u8);
        }
        assert(spec_parse_digits(s, i + hl, mid) == spec_parse_digits(s, i + hl + 1, mid * 10 + d));
    }
}

/// The en-passant field the emitter writes parses back to the same target.
pub proof fn lemma_ep_parses_back(s: Seq<u8>, i: int, ep: Option<Square>)
    requires
        0 <= i,
        match ep {
            Option::Some(sq) => sq.index < 64,
            Option::None => true,
        },
        i + spec_ep_bytes(ep).len() <= s.len(),
        forall|k: int| 0 <= k < spec_ep_bytes(ep).len() ==> s[i + k] == #[trigger] spec_ep_bytes(
            ep,
        )[k],
    ensures
        spec_parse_ep(s, i) == Option::Some((ep, i + spec_ep_bytes(ep).len())),
{
    match ep {
        Option::None => {
            assert(s[i + 0] == spec_ep_bytes(ep)[0]);
        },
        Option::Some(sq) => {
            let f = sq.index % 8;
            let r = sq.index / 8;
            assert(s[i + 0] == spec_ep_bytes(ep)[0]);
            assert(s[i + 1] == spec_ep_bytes(ep)[1]);
            assert(s[i] == (97 + f) as u8);
            assert(s[i + 1] == (49 + r) as u8);
            assert(Square::spec_file_of_char(((97 + f) as u8) as char) == Option::Some(f as usize));
            assert(Square::spec_rank_of_char(((49 + r) as u8) as char) == Option::Some(r as usize));
            assert(f + r * 8 == sq.index);
        },
    }
}

/// The castling field the emitter writes parses back to the same rights,
/// provided the next byte is not one of the remaining right letters.
pub proof fn lemma_castling_parses_back(s: Seq<u8>, i: int, cr: CastlingRight)
    requires
        0 <= i,
        cr.spec_valid(),
        i + spec_castling_bytes(cr).len() <= s.len(),
        forall|k: int| 0 <= k < spec_castling_bytes(cr).len() ==> s[i + k]
            == #[trigger] spec_castling_bytes(cr)[k],
        i + spec_castling_bytes(cr).len() == s.len() || (s[i + spec_castling_bytes(cr).len()] != 75
            && s[i + spec_castling_bytes(cr).len()] != 81 && s[i + spec_castling_bytes(cr).len()]
            != 107 && s[i + spec_castling_bytes(cr).len()] != 113),
    ensures
        spec_parse_castling(s, i) == Option::Some((cr, i + spec_castling_bytes(cr).len())),
{
    let v = cr.value;
    let wk = cr.spec_white_king_side();
    let wq = cr.spec_white_queen_side();
    let bk = cr.spec_black_king_side();
    let bq = cr.spec_black_queen_side();
    assert(v == (if wk {
        1int
    } else {
        0int
    }) + (if wq {
        2int
    } else {
        0int
    }) + (if bk {
        4int
    } else {
        0int
    }) + (if bq {
        8int
    } else {
        0int
    })) by (bit_vector)
        requires
            v < 16 && wk == (v & 0x01u8 != 0) && wq == (v & 0x02u8 != 0) && bk == (v & 0x04u8 != 0)
                && bq == (v & 0x08u8 != 0),
    ;
    let bytes = spec_castling_bytes(cr);
    assert forall|k: int| 0 <= k < bytes.len() implies s[i + k] == bytes[k] by {}
    if !wk && !wq && !bk && !bq {
        assert(bytes =~= seq![45u8]);
        assert(s[i + 0] == bytes[0]);
    } else {
        assert(s[i + 0] == bytes[0]);
        if bytes.len() >= 2 {
            assert(s[i + 1] == bytes[1]);
        }
        if bytes.len() >= 3 {
            assert(s[i + 2] == bytes[2]);
        }
        if bytes.len() >= 4 {
            assert(s[i + 3] == bytes[3]);
        }
    }
}

proof fn lemma_pow10_pos(k: nat)
    ensures
        pow10(k) >= 1,
    decreases k,
{
    if k > 0 {
        lemma_pow10_pos((k - 1) as nat);
    }
}

/// The number field the emitter writes parses back to the same number, and
/// the parser stops right after it: the clock fields of an emitted position
/// string round-trip.
pub proof fn lemma_dec_parses_back(s: Seq<u8>, i: int, n: int)
    requires
        0 <= n <= 0xffff,
        0 <= i,
        i + spec_dec(n).len() <= s.len(),
        forall|k: int| 0 <= k < spec_dec(n).len() ==> s[i + k] == #[trigger] spec_dec(n)[k],
        i + spec_dec(n).len() == s.len() || !(48 <= s[i + spec_dec(n).len()] <= 57),
    ensures
        spec_parse_u16(s, i) == Option::Some((n, i + spec_dec(n).len())),
{
    lemma_dec_digits(n);
    assert(48 <= s[i] <= 57) by {
        assert(s[i] == spec_dec(n)[0]);
    }
    lemma_parse_dec_steps(s, i, 0, n);
    assert(0 * pow10(spec_dec(n).len() as nat) + n == n) by (nonlinear_arith);
    assert(spec_parse_digits(s, i + spec_dec(n).len(), n) == Option::Some(
        (n, i + spec_dec(n).len()),
    ));
}


/// The board `acc` with the pieces standing on rank `r` from file `f` on
/// written in: what parsing an emitted rank gathers.
pub open spec fn spec_fill_rank(
    st: BoardState,
    acc: Seq<Option<(Piece, Color)>>,
    r: int,
    f: int,
) -> Seq<Option<(Piece, Color)>>
    decreases 8 - f,
{
    if f < 0 || f >= 8 {
        acc
    } else {
        match st.spec_piece_at((r * 8 + f) as u64) {
            Option::Some(pc) => spec_fill_rank(
                st,
                acc.update(r * 8 + f, Option::Some(pc)),
                r,
                f + 1,
            ),
            Option::None => spec_fill_rank(st, acc, r, f + 1),
        }
    }
}

/// The board `acc` with the pieces of ranks `r` down to the first written in.
pub open spec fn spec_fill_ranks(
    st: BoardState,
    acc: Seq<Option<(Piece, Color)>>,
    r: int,
) -> Seq<Option<(Piece, Color)>>
    decreases r,
{
    if r <= 0 {
        spec_fill_rank(st, acc, 0, 0)
    } else {
        spec_fill_ranks(st, spec_fill_rank(st, acc, r, 0), r - 1)
    }
}

/// The placement letter of a real piece reads back as that piece.
proof fn lemma_piece_byte_inverse(p: Piece, c: Color)
    requires
        p != Piece::Empty,
    ensures
        spec_piece_of_byte(spec_piece_byte(p, c)) == Option::Some((p, c)),
{
}

/// Filling a rank changes exactly the occupied squares of that rank at or
/// past the starting file.
proof fn lemma_fill_rank_at(
    st: BoardState,
    acc: Seq<Option<(Piece, Color)>>,
    r: int,
    f: int,
    b: int,
)
    requires
        0 <= r < 8,
        0 <= f <= 8,
        acc.len() == 64,
        0 <= b < 64,
    ensures
        spec_fill_rank(st, acc, r, f).len() == 64,
        spec_fill_rank(st, acc, r, f)[b] == (if b / 8 == r && b % 8 >= f && st.spec_piece_at(
            b as u64,
        ) is Some {
            st.spec_piece_at(b as u64)
        } else {
            acc[b]
        }),
    decreases 8 - f,
{
    if f < 8 {
        let sq = r * 8 + f;
        assert(0 <= sq < 64 && sq / 8 == r && sq % 8 == f) by (nonlinear_arith)
            requires
                sq == r * 8 + f && 0 <= r < 8 && 0 <= f < 8,
        ;
        assert(b == sq <==> (b / 8 == r && b % 8 == f)) by (nonlinear_arith)
            requires
                sq == r * 8 + f && 0 <= r < 8 && 0 <= f < 8 && 0 <= b < 64 && sq / 8 == r && sq % 8
                    == f && b == (b / 8) * 8 + b % 8,
        ;
        match st.spec_piece_at((r * 8 + f) as u64) {
            Option::Some(pc) => {
                lemma_fill_rank_at(st, acc.update(sq, Option::Some(pc)), r, f + 1, b);
            },
            Option::None => {
                lemma_fill_rank_at(st, acc, r, f + 1, b);
            },
        }
    }
}

/// Filling ranks `r` down to the first changes exactly the occupied squares
/// of those ranks.
proof fn lemma_fill_ranks_at(st: BoardState, acc: Seq<Option<(Piece, Color)>>, r: int, b: int)
    requires
        0 <= r < 8,
        acc.len() == 64,
        0 <= b < 64,
    ensures
        spec_fill_ranks(st, acc, r).len() == 64,
        spec_fill_ranks(st, acc, r)[b] == (if b / 8 <= r && st.spec_piece_at(b as u64) is Some {
            st.spec_piece_at(b as u64)
        } else {
            acc[b]
        }),
    decreases r,
{
    if r <= 0 {
        lemma_fill_rank_at(st, acc, 0, 0, b);
    } else {
        lemma_fill_rank_at(st, acc, r, 0, b);
        lemma_fill_ranks_at(st, spec_fill_rank(st, acc, r, 0), r - 1, b);
    }
}


/// Parsing the emitted remainder of one rank carries the parser from the
/// matching cursor to the rank's end and gathers exactly the rank's pieces.
proof fn lemma_parse_emit_rank(
    st: BoardState,
    s: Seq<u8>,
    i: int,
    r: int,
    f: int,
    run: int,
    acc: Seq<Option<(Piece, Color)>>,
)
    requires
        0 <= r < 8,
        0 <= run <= f <= 8,
        0 <= i,
        i + spec_emit_rank(st, r, f, run).len() <= s.len(),
        forall|k: int|
            0 <= k < spec_emit_rank(st, r, f, run).len() ==> s[i + k] == #[trigger] spec_emit_rank(
                st,
                r,
                f,
                run,
            )[k],
    ensures
        spec_parse_placement(s, i, r, f - run, acc) == spec_parse_placement(
            s,
            i + spec_emit_rank(st, r, f, run).len(),
            r,
            8,
            spec_fill_rank(st, acc, r, f),
        ),
    decreases 8 - f,
{
    let emitted = spec_emit_rank(st, r, f, run);
    if f >= 8 {
        if run > 0 {
            assert(emitted == seq![(48 + run) as u8]);
            assert(s[i + 0] == emitted[0]);
            assert(49 <= s[i] <= 56);
            assert(spec_parse_placement(s, i, r, f - run, acc) == spec_parse_placement(
                s,
                i + 1,
                r,
                8,
                acc,
            ));
        }
    } else {
        match st.spec_piece_at((r * 8 + f) as u64) {
            Option::None => {
                assert(emitted == spec_emit_rank(st, r, f + 1, run + 1));
                lemma_parse_emit_rank(st, s, i, r, f + 1, run + 1, acc);
            },
            Option::Some(pc) => {
                let head: Seq<u8> = (if run > 0 {
                    seq![(48 + run) as u8]
                } else {
                    Seq::<u8>::empty()
                }) + seq![spec_piece_byte(pc.0, pc.1)];
                let rest = spec_emit_rank(st, r, f + 1, 0);
                assert(emitted == (if run > 0 {
                    seq![(48 + run) as u8]
                } else {
                    Seq::<u8>::empty()
                }) + seq![spec_piece_byte(pc.0, pc.1)] + rest);
                let hl = head.len();
                assert(emitted.len() == hl + rest.len());
                assert forall|k: int| 0 <= k < rest.len() implies s[(i + hl) + k] == #[trigger]
                rest[k] by {
                    assert(s[i + (hl + k)] == emitted[hl + k]);
                    assert(emitted[hl + k] == rest[k]);
                }
                // the piece letter stands right before the rest and reads back
                assert(pc.0 != Piece::Empty);
                lemma_piece_byte_inverse(pc.0, pc.1);
                if run > 0 {
                    assert(s[i + 0] == emitted[0]);
                    assert(emitted[0] == (48 + run) as u8);
                    assert(49 <= s[i] <= 56);
                    assert(spec_parse_placement(s, i, r, f - run, acc) == spec_parse_placement(
                        s,
                        i + 1,
                        r,
                        f,
                        acc,
                    ));
                    assert(s[i + 1] == emitted[1]);
                    assert(emitted[1] == spec_piece_byte(pc.0, pc.1));
                    assert(spec_parse_placement(s, i + 1, r, f, acc) == spec_parse_placement(
                        s,
                        i + 2,
                        r,
                        f + 1,
                        acc.update(r * 8 + f, Option::Some(pc)),
                    ));
                } else {
                    assert(s[i + 0] == emitted[0]);
                    assert(emitted[0] == spec_piece_byte(pc.0, pc.1));
                    assert(!(49 <= spec_piece_byte(pc.0, pc.1) <= 56) && spec_piece_byte(pc.0, pc.1)
                        != 47);
                    assert(spec_parse_placement(s, i, r, f, acc) == spec_parse_placement(
                        s,
                        i + 1,
                        r,
                        f + 1,
                        acc.update(r * 8 + f, Option::Some(pc)),
                    ));
                }
                lemma_parse_emit_rank(st, s, i + hl, r, f + 1, 0, acc.update(
                    r * 8 + f,
                    Option::Some(pc),
                ));
            },
        }
    }
}


/// Parsing the emitted ranks from `r` down to the first completes the
/// placement with exactly the board's pieces gathered.
proof fn lemma_parse_emit_ranks(
    st: BoardState,
    s: Seq<u8>,
    i: int,
    r: int,
    acc: Seq<Option<(Piece, Color)>>,
)
    requires
        0 <= r < 8,
        0 <= i,
        i + spec_emit_ranks(st, r).len() <= s.len(),
        forall|k: int|
            0 <= k < spec_emit_ranks(st, r).len() ==> s[i + k] == #[trigger] spec_emit_ranks(
                st,
                r,
            )[k],
    ensures
        spec_parse_placement(s, i, r, 0, acc) == Option::Some(
            (spec_fill_ranks(st, acc, r), i + spec_emit_ranks(st, r).len()),
        ),
    decreases r,
{
    let emitted = spec_emit_ranks(st, r);
    if r <= 0 {
        assert(emitted == spec_emit_rank(st, 0, 0, 0));
        lemma_parse_emit_rank(st, s, i, 0, 0, 0, acc);
    } else {
        let first = spec_emit_rank(st, r, 0, 0);
        let rest = spec_emit_ranks(st, r - 1);
        assert(emitted == first + seq![47u8] + rest);
        let fl = first.len() as int;
        assert forall|k: int| 0 <= k < fl implies s[i + k] == #[trigger] first[k] by {
            assert(s[i + k] == emitted[k]);
            assert(emitted[k] == first[k]);
        }
        lemma_parse_emit_rank(st, s, i, r, 0, 0, acc);
        assert(s[i + fl] == emitted[fl]);
        assert(emitted[fl] == 47);
        assert(spec_parse_placement(s, i + fl, r, 8, spec_fill_rank(st, acc, r, 0))
            == spec_parse_placement(s, i + fl + 1, r - 1, 0, spec_fill_rank(st, acc, r, 0)));
        assert forall|k: int| 0 <= k < rest.len() implies s[(i + fl + 1) + k] == #[trigger]
        rest[k] by {
            assert(s[i + (fl + 1 + k)] == emitted[fl + 1 + k]);
            assert(emitted[fl + 1 + k] == rest[k]);
        }
        lemma_parse_emit_ranks(st, s, i + fl + 1, r - 1, spec_fill_rank(st, acc, r, 0));
    }
}


/// The round-trip law of the codec: an emitted position parses back with the
/// same board, side to move, castling rights, en-passant target and halfmove
/// clock, and with the full-move number the ply count encodes. When the ply
/// parity agrees with the side to move — as it does in every parsed or
/// played position — the parse satisfies the whole parsed-state relation.
pub proof fn lemma_fen_round_trip(st: BoardState)
    requires
        st.wf_boards(),
        st.half_move_clock < 0xffff,
        st.ply < 0xfffe,
    ensures
        spec_parse_fen(spec_fen_bytes(st)) is Some,
        ({
            let fd = spec_parse_fen(spec_fen_bytes(st)).unwrap();
            &&& (forall|sq: u64| sq < 64 ==> fd.board[sq as int] == st.spec_piece_at(sq))
            &&& fd.side == st.color_on_move
            &&& fd.castling == st.castling
            &&& fd.ep == st.en_passant_position
            &&& fd.halfmove == st.half_move_clock
            &&& fd.fullmove == st.ply / 2 + 1
        }),
{
    let s = spec_fen_bytes(st);
    let ranks = spec_emit_ranks(st, 7);
    let side_byte = st.color_on_move.spec_to_char() as u8;
    let cast = spec_castling_bytes(st.castling);
    let epb = spec_ep_bytes(st.en_passant_position);
    let hm = spec_dec(st.half_move_clock as int);
    let fm = spec_dec(st.ply as int / 2 + 1);
    let l0 = ranks.len() as int;
    let i2 = l0 + 2;
    let i3 = i2 + 1 + cast.len() as int;
    let i4 = i3 + 1 + epb.len() as int;
    let i5 = i4 + 1 + hm.len() as int;
    let i6 = i5 + 1 + fm.len() as int;
    assert(s.len() == i6);
    assert forall|k: int| 0 <= k < l0 implies s[k] == ranks[k] by {}
    lemma_parse_emit_ranks(st, s, 0, 7, spec_empty_board());
    assert(spec_parse_placement(s, 0, 7, 0, spec_empty_board()) == Option::Some(
        (spec_fill_ranks(st, spec_empty_board(), 7), l0),
    ));
    assert(s[l0] == 32);
    assert(s[l0 + 1] == side_byte);
    if st.color_on_move == Color::White {
        assert(side_byte == 119);
    } else {
        assert(side_byte == 98);
    }
    assert(s[i2] == 32);
    assert forall|k: int| 0 <= k < cast.len() implies s[i2 + 1 + k] == cast[k] by {}
    assert(s[i3] == 32);
    lemma_castling_parses_back(s, i2 + 1, st.castling);
    assert(spec_parse_castling(s, i2 + 1) == Option::Some((st.castling, i3)));
    assert forall|k: int| 0 <= k < epb.len() implies s[i3 + 1 + k] == epb[k] by {}
    lemma_ep_parses_back(s, i3 + 1, st.en_passant_position);
    assert(spec_parse_ep(s, i3 + 1) == Option::Some((st.en_passant_position, i4)));
    assert(s[i4] == 32);
    assert forall|k: int| 0 <= k < hm.len() implies s[i4 + 1 + k] == hm[k] by {}
    assert(s[i5] == 32);
    lemma_dec_parses_back(s, i4 + 1, st.half_move_clock as int);
    assert(spec_parse_u16(s, i4 + 1) == Option::Some((st.half_move_clock as int, i5)));
    assert forall|k: int| 0 <= k < fm.len() implies s[i5 + 1 + k] == fm[k] by {}
    lemma_dec_parses_back(s, i5 + 1, st.ply as int / 2 + 1);
    assert(spec_parse_u16(s, i5 + 1) == Option::Some((st.ply as int / 2 + 1, i6)));
    assert(1 <= st.ply as int / 2 + 1 <= 0x7fff);
    assert(spec_parse_fen(s) is Some);
    let fd = spec_parse_fen(s).unwrap();
    assert(fd.board == spec_fill_ranks(st, spec_empty_board(), 7));
    assert forall|sq: u64| sq < 64 implies fd.board[sq as int] == st.spec_piece_at(sq) by {
        lemma_fill_ranks_at(st, spec_empty_board(), 7, sq as int);
        assert(spec_empty_board()[sq as int] is None);
    }
}


proof fn lemma_emit_rank_congruent(a: BoardState, b: BoardState, r: int, f: int, run: int)
    requires
        0 <= r < 8,
        0 <= f,
        forall|sq: u64| sq < 64 ==> a.spec_piece_at(sq) == b.spec_piece_at(sq),
    ensures
        spec_emit_rank(a, r, f, run) == spec_emit_rank(b, r, f, run),
    decreases 8 - f,
{
    if f < 8 {
        assert(0 <= r * 8 + f < 64) by (nonlinear_arith)
            requires
                0 <= r < 8 && 0 <= f < 8,
        ;
        assert(a.spec_piece_at((r * 8 + f) as u64) == b.spec_piece_at((r * 8 + f) as u64));
        match a.spec_piece_at((r * 8 + f) as u64) {
            Option::Some(pc) => {
                lemma_emit_rank_congruent(a, b, r, f + 1, 0);
            },
            Option::None => {
                lemma_emit_rank_congruent(a, b, r, f + 1, run + 1);
            },
        }
    }
}

proof fn lemma_emit_ranks_congruent(a: BoardState, b: BoardState, r: int)
    requires
        0 <= r < 8,
        forall|sq: u64| sq < 64 ==> a.spec_piece_at(sq) == b.spec_piece_at(sq),
    ensures
        spec_emit_ranks(a, r) == spec_emit_ranks(b, r),
    decreases r,
{
    lemma_emit_rank_congruent(a, b, r, 0, 0);
    if r > 0 {
        lemma_emit_ranks_congruent(a, b, r - 1);
    }
}

/// Two positions that agree square by square and on the emitted fields emit
/// the same position string.
proof fn lemma_emit_congruent(a: BoardState, b: BoardState)
    requires
        forall|sq: u64| sq < 64 ==> a.spec_piece_at(sq) == b.spec_piece_at(sq),
        a.color_on_move == b.color_on_move,
        a.castling == b.castling,
        a.en_passant_position == b.en_passant_position,
        a.half_move_clock == b.half_move_clock,
        a.ply / 2 == b.ply / 2,
    ensures
        spec_fen_bytes(a) == spec_fen_bytes(b),
{
    lemma_emit_ranks_congruent(a, b, 7);
}

/// The string half of the round-trip law: a position string that some
/// well-formed position emits parses back, and any state carrying exactly
/// the parsed fields — such as the one parsing returns — emits that very
/// string again, byte for byte.
pub proof fn lemma_string_round_trip(st0: BoardState, st1: BoardState)
    requires
        st0.wf_boards(),
        st0.half_move_clock < 0xffff,
        st0.ply < 0xfffe,
        spec_parse_fen(spec_fen_bytes(st0)) matches Option::Some(fd) && spec_fen_state_ok(st1, fd),
    ensures
        spec_fen_bytes(st1) == spec_fen_bytes(st0),
{
    lemma_fen_round_trip(st0);
    let fd = spec_parse_fen(spec_fen_bytes(st0)).unwrap();
    assert forall|sq: u64| sq < 64 implies st1.spec_piece_at(sq) == st0.spec_piece_at(sq) by {
        assert(st1.spec_piece_at(sq) == fd.board[sq as int]);
        assert(fd.board[sq as int] == st0.spec_piece_at(sq));
    }
    assert(st1.ply / 2 == st0.ply / 2) by {
        assert(st1.ply == 2 * ((fd.fullmove - 1) as u16) + (if fd.side == Color::Black {
            1u16
        } else {
            0u16
        }));
        assert(fd.fullmove == st0.ply / 2 + 1);
    }
    lemma_emit_congruent(st1, st0);
}

} // verus!
