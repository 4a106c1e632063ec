use chess_rot_engine::board_state::BoardState;
use chess_rot_engine::castling::CastlingRight;
use chess_rot_engine::chess_move::Move;
use chess_rot_engine::color::Color;
use chess_rot_engine::move_type::MoveType;
use chess_rot_engine::piece::Piece;
use chess_rot_engine::square::{Square, SquareLabel};

#[test]
fn fen() {
    let board_state = BoardState::default();

    let m = Move::new(
        MoveType::PawnJump,
        SquareLabel::B2.as_u64(),
        SquareLabel::B4.as_u64(),
        Piece::Pawn,
        Color::White,
        Piece::Empty,
    );
    let next_state = board_state.make_move(m);
    println!("Fen: {}", next_state.to_fen());

    let m = Move::new(
        MoveType::PawnJump,
        SquareLabel::B7.as_u64(),
        SquareLabel::B5.as_u64(),
        Piece::Pawn,
        Color::Black,
        Piece::Empty,
    );
    let next_state = next_state.make_move(m);
    println!("Fen: {}", next_state.to_fen());

    let m = Move::new(
        MoveType::Push,
        SquareLabel::C1.as_u64(),
        SquareLabel::A3.as_u64(),
        Piece::Knight,
        Color::White,
        Piece::Empty,
    );
    let next_state = next_state.make_move(m);
    println!("Fen: {}", next_state.to_fen());

    let m = Move::new(
        MoveType::Push,
        SquareLabel::C8.as_u64(),
        SquareLabel::A6.as_u64(),
        Piece::Knight,
        Color::Black,
        Piece::Empty,
    );
    let next_state = next_state.make_move(m);
    println!("Fen: {}", next_state.to_fen());

    // small hack with queen jump over pawn
    let m = Move::new(
        MoveType::Push,
        SquareLabel::D1.as_u64(),
        SquareLabel::D3.as_u64(),
        Piece::Queen,
        Color::White,
        Piece::Empty,
    );
    let next_state = next_state.make_move(m);
    println!("Fen: {}", next_state.to_fen());

    let m = Move::new(
        MoveType::Push,
        SquareLabel::D8.as_u64(),
        SquareLabel::D5.as_u64(),
        Piece::Queen,
        Color::Black,
        Piece::Empty,
    );
    let next_state = next_state.make_move(m);
    println!("Fen: {}", next_state.to_fen());

    let castling = Move::new(
        MoveType::Castling,
        SquareLabel::E1.as_u64(),
        SquareLabel::C1.as_u64(),
        Piece::King,
        Color::White,
        Piece::Empty,
    );
    let next_state = next_state.make_move(castling);
    println!("Fen: {}", next_state.to_fen());

    let fen = BoardState::default().to_fen();
    println!("FEN: {}", fen);
    let from_fen = BoardState::from_fen(fen.as_str()).unwrap();
    println!("FEN2: {}", from_fen.to_fen());
}

#[test]
fn test_square_labels() {
    let test_square = Square::from_label(SquareLabel::A1);
    assert_eq!(0, test_square.index);
    let test_square = Square::from_label(SquareLabel::H8);
    assert_eq!(63, test_square.index);
}

#[test]
fn square_from_string_parses_algebraic() {
    assert_eq!(0, Square::from_string("a1").unwrap().index);
    assert_eq!(63, Square::from_string("h8").unwrap().index);
    assert_eq!(28, Square::from_string("e4").unwrap().index);
    assert_eq!(28, Square::from_string("E4").unwrap().index);
    assert!(Square::from_string("i1").is_none());
    assert!(Square::from_string("a9").is_none());
    assert!(Square::from_string("a").is_none());
}

#[test]
fn start_position_round_trips_through_fen() {
    let start = "rnbqkbnr/pppppppp/8/8/8/8/PPPPPPPP/RNBQKBNR w KQkq - 0 1";
    let state = BoardState::from_fen(start).unwrap();
    assert_eq!(start, state.to_fen().as_str());
}

#[test]
fn kiwipete_round_trips_through_fen() {
    let fen = "r3k2r/p1ppqpb1/bn2pnp1/3PN3/1p2P3/2N2Q1p/PPPBBPPP/R3K2R w KQkq - 0 1";
    let state = BoardState::from_fen(fen).unwrap();
    assert_eq!(fen, state.to_fen().as_str());
}

#[test]
fn en_passant_fen_round_trips() {
    let fen = "rnbqkbnr/pp1ppppp/8/2pP4/8/8/PPP1PPPP/RNBQKBNR w KQkq c6 0 3";
    let state = BoardState::from_fen(fen).unwrap();
    assert_eq!(fen, state.to_fen().as_str());
    assert_eq!(42, state.en_passant_position.unwrap().index); // c6
}

#[test]
fn malformed_fen_is_refused() {
    assert!(BoardState::from_fen("").is_err());
    assert!(BoardState::from_fen("rnbqkbnr/pppppppp/8/8/8/8/PPPPPPPP w KQkq - 0 1").is_err());
    assert!(BoardState::from_fen("rnbqkbnr/pppppppp/8/8/8/8/PPPPPPPP/RNBQKBNR x KQkq - 0 1").is_err());
    assert!(BoardState::from_fen("rnbqkbnr/pppppppp/8/8/8/8/PPPPPPPP/RNBQKBNR w KQkq - x 1").is_err());
    assert!(BoardState::from_fen("rnbqkbnr/pppppppp/8/8/8/8/PPPPPPPP/RNBQKBNR w KQkq - 0 0").is_err());
    match BoardState::from_fen("not a fen") {
        Err(e) => {
            assert!(matches!(e, chess_rot_engine::error::GameError::FenFormatError(_)));
        }
        Ok(_) => panic!("parse should fail"),
    }
}

#[test]
fn get_piece_at_reads_the_start_position() {
    let s = BoardState::default();
    assert_eq!(Some((Piece::Rook, Color::White)), s.get_piece_at(0));
    assert_eq!(Some((Piece::King, Color::White)), s.get_piece_at(4));
    assert_eq!(Some((Piece::Pawn, Color::Black)), s.get_piece_at(48));
    assert_eq!(Some((Piece::King, Color::Black)), s.get_piece_at(60));
    assert_eq!(None, s.get_piece_at(32));
}

#[test]
fn move_packing_round_trips() {
    let m = Move::new(
        MoveType::Capture,
        12,
        21,
        Piece::Knight,
        Color::Black,
        Piece::Rook,
    );
    assert!(matches!(m.get_type(), MoveType::Capture));
    assert_eq!(12, m.get_from().index);
    assert_eq!(21, m.get_to().index);
    assert!(matches!(m.get_piece(), Piece::Knight));
    assert!(matches!(m.get_color(), Color::Black));
    assert!(matches!(m.get_target_piece(), Piece::Rook));
    assert!(matches!(m.get_eaten_piece(), Piece::Rook));
    let c = m.to_capture(Piece::Queen);
    assert!(matches!(c.get_target_piece(), Piece::Queen));
}

#[test]
fn castling_rights_clear_and_report() {
    let all = CastlingRight::default();
    assert!(all.is_white_king_side_allowed());
    assert!(all.is_black_queen_side_allowed());
    let no_wk = all.remove_king_side_castle(Color::White);
    assert!(!no_wk.is_white_king_side_allowed());
    assert!(no_wk.is_white_queen_side_allowed());
    assert!(no_wk.is_black_king_side_allowed());
    let none = all
        .remove_both_side_castle(Color::White)
        .remove_both_side_castle(Color::Black);
    assert!(!none.is_white_queen_side_allowed());
    assert!(!none.is_black_king_side_allowed());
}

#[test]
fn en_passant_capture_removes_the_passed_pawn() {
    // White pawn on d5 may capture the black pawn that just jumped to c5.
    let fen = "rnbqkbnr/pp1ppppp/8/2pP4/8/8/PPP1PPPP/RNBQKBNR w KQkq c6 0 3";
    let state = BoardState::from_fen(fen).unwrap();
    let m = Move::new(
        MoveType::EnPassant,
        35, // d5
        42, // c6
        Piece::Pawn,
        Color::White,
        Piece::Empty,
    );
    let next = state.make_move(m);
    assert_eq!(Some((Piece::Pawn, Color::White)), next.get_piece_at(42));
    assert_eq!(None, next.get_piece_at(34)); // the black pawn on c5 is gone
    assert_eq!(None, next.get_piece_at(35));
}

#[test]
fn promotion_places_the_new_piece() {
    let fen = "8/P6k/8/8/8/8/8/K7 w - - 0 1";
    let state = BoardState::from_fen(fen).unwrap();
    let m = Move::new(
        MoveType::Promotion,
        48, // a7
        56, // a8
        Piece::Pawn,
        Color::White,
        Piece::Queen,
    );
    let next = state.make_move(m);
    assert_eq!(Some((Piece::Queen, Color::White)), next.get_piece_at(56));
    assert_eq!(None, next.get_piece_at(48));
}

#[test]
fn king_move_clears_castling_rights() {
    let s = BoardState::from_fen("r3k2r/8/8/8/8/8/8/R3K2R w KQkq - 0 1").unwrap();
    let m = Move::new(MoveType::Push, 4, 12, Piece::King, Color::White, Piece::Empty);
    let next = s.make_move(m);
    assert!(!next.castling.is_white_king_side_allowed());
    assert!(!next.castling.is_white_queen_side_allowed());
    assert!(next.castling.is_black_king_side_allowed());
}

#[test]
fn rook_capture_clears_the_opponents_right() {
    // A white rook on a1 captures the black rook on a8.
    let s = BoardState::from_fen("r3k2r/8/8/8/8/8/8/R3K2R w KQkq - 0 1").unwrap();
    let m = Move::new(MoveType::Capture, 0, 56, Piece::Rook, Color::White, Piece::Rook);
    let next = s.make_move(m);
    assert!(!next.castling.is_black_queen_side_allowed());
    assert!(next.castling.is_black_king_side_allowed());
    // the mover's own queen-side right goes too: its rook left a1
    assert!(!next.castling.is_white_queen_side_allowed());
    assert!(next.castling.is_white_king_side_allowed());
}

#[test]
fn castling_field_round_trips_in_every_shape() {
    for fen in [
        "r3k2r/8/8/8/8/8/8/R3K2R w - - 0 1",
        "r3k2r/8/8/8/8/8/8/R3K2R w Kq - 0 1",
        "r3k2r/8/8/8/8/8/8/R3K2R b KQkq - 12 34",
        "r3k2r/8/8/8/8/8/8/R3K2R w Q - 0 9",
    ] {
        let state = BoardState::from_fen(fen).unwrap();
        assert_eq!(fen, state.to_fen().as_str());
    }
}

#[test]
fn promotion_capture_takes_the_rook_and_its_right() {
    // A white pawn on b7 captures the rook on a8 and becomes a knight.
    let state = BoardState::from_fen("r3k3/1P6/8/8/8/8/8/4K3 w q - 0 1").unwrap();
    let m = Move::new(
        MoveType::Promotion,
        49, // b7
        56, // a8
        Piece::Pawn,
        Color::White,
        Piece::Knight,
    );
    let next = state.make_move(m);
    assert_eq!(Some((Piece::Knight, Color::White)), next.get_piece_at(56));
    assert_eq!(None, next.get_piece_at(49));
    assert!(!next.castling.is_black_queen_side_allowed());
}

#[test]
fn castling_moves_king_and_rook_together() {
    let state = BoardState::from_fen("r3k2r/8/8/8/8/8/8/R3K2R w KQkq - 0 1").unwrap();
    let m = Move::new(MoveType::Castling, 4, 6, Piece::King, Color::White, Piece::Empty);
    let next = state.make_move(m);
    assert_eq!(Some((Piece::King, Color::White)), next.get_piece_at(6));
    assert_eq!(Some((Piece::Rook, Color::White)), next.get_piece_at(5));
    assert_eq!(None, next.get_piece_at(4));
    assert_eq!(None, next.get_piece_at(7));
    assert!(!next.castling.is_white_king_side_allowed());
    assert!(!next.castling.is_white_queen_side_allowed());
}

#[test]
fn full_moves_matches_the_emitted_counter() {
    let state =
        BoardState::from_fen("rnbqkbnr/pp1ppppp/8/2pP4/8/8/PPP1PPPP/RNBQKBNR w KQkq c6 4 3")
            .unwrap();
    assert_eq!(3, state.full_moves());
    assert_eq!(1, BoardState::default().full_moves());
    let black_to_move = BoardState::from_fen("4k3/8/8/8/8/8/8/4K3 b - - 0 7").unwrap();
    assert_eq!(7, black_to_move.full_moves());
}

#[test]
fn remove_piece_empties_one_square_and_keeps_the_rest() {
    let mut state = BoardState::default();
    state.remove_piece(0);
    assert_eq!(None, state.get_piece_at(0));
    assert_eq!(Some((Piece::Knight, Color::White)), state.get_piece_at(1));
    assert_eq!(Some((Piece::King, Color::Black)), state.get_piece_at(60));
    assert_eq!(31, state.all_pieces().raw().count_ones());
    // the color board lost the square too
    assert!(!state.pieces_for_color[0].is_bit_set(0));
}
