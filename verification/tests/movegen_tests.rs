use chess_rot_engine::board_state::BoardState;
use chess_rot_engine::chess_move::Move;
use chess_rot_engine::color::Color;
use chess_rot_engine::move_provider::{MoveProvider, PreGeneratedMoveProvider};
use chess_rot_engine::move_type::MoveType;
use chess_rot_engine::piece::Piece;

#[test]
fn test_move_generator() {}

#[test]
fn test_generate_moves() {
    let bb = PreGeneratedMoveProvider::generate_all_possible_moves(0, Piece::Rook, Color::White);
    assert!(!bb.is_empty());
    let bb = PreGeneratedMoveProvider::generate_all_possible_moves(27, Piece::Rook, Color::Black);
    assert!(!bb.is_empty());
    let bb = PreGeneratedMoveProvider::generate_all_possible_moves(27, Piece::King, Color::White);
    assert!(!bb.is_empty());
    let bb = PreGeneratedMoveProvider::generate_all_possible_moves(32, Piece::Queen, Color::Black);
    assert!(!bb.is_empty());
    let bb = PreGeneratedMoveProvider::generate_all_possible_moves(9, Piece::Pawn, Color::White);
    assert!(!bb.is_empty());
}

fn perft(state: &BoardState, depth: u32) -> u64 {
    if depth == 0 {
        return 1;
    }
    let provider = MoveProvider::new();
    let moves = provider.legal_moves(state);
    if depth == 1 {
        return moves.len() as u64;
    }
    let mut nodes = 0;
    for m in moves {
        let next = state.make_move(m);
        nodes += perft(&next, depth - 1);
    }
    nodes
}

#[test]
fn starting_position_has_twenty_moves() {
    let state =
        BoardState::from_fen("rnbqkbnr/pppppppp/8/8/8/8/PPPPPPPP/RNBQKBNR w KQkq - 0 1").unwrap();
    let provider = MoveProvider::new();
    assert_eq!(20, provider.legal_moves(&state).len());
}

#[test]
fn perft_depth_two_from_the_start_is_400() {
    let state = BoardState::default();
    assert_eq!(400, perft(&state, 2));
}

#[test]
fn kiwipete_has_48_moves() {
    let state = BoardState::from_fen(
        "r3k2r/p1ppqpb1/bn2pnp1/3PN3/1p2P3/2N2Q1p/PPPBBPPP/R3K2R w KQkq - 0 1",
    )
    .unwrap();
    let provider = MoveProvider::new();
    assert_eq!(48, provider.legal_moves(&state).len());
}

#[test]
fn en_passant_capture_is_generated() {
    let state =
        BoardState::from_fen("rnbqkbnr/pp1ppppp/8/2pP4/8/8/PPP1PPPP/RNBQKBNR w KQkq c6 0 3")
            .unwrap();
    let provider = MoveProvider::new();
    let moves = provider.legal_moves(&state);
    let ep: Vec<&Move> = moves
        .iter()
        .filter(|m| matches!(m.get_type(), MoveType::EnPassant))
        .collect();
    assert_eq!(1, ep.len());
    assert_eq!(35, ep[0].get_from().index); // d5
    assert_eq!(42, ep[0].get_to().index); // c6
    let next = state.make_move(*ep[0]);
    assert_eq!(None, next.get_piece_at(34)); // black pawn on c5 removed
}

#[test]
fn castling_is_never_generated_through_attacked_squares() {
    let state = BoardState::from_fen("r3k2r/pppq1ppp/2n5/3p4/1b1P4/2N5/PPPBQPPP/R3K2R w KQkq - 0 1")
        .unwrap();
    let provider = MoveProvider::new();
    let enemy_attacks = provider.attacks_for_color(&state, Color::Black).raw();
    let moves = provider.legal_moves(&state);
    for m in moves {
        if matches!(m.get_type(), MoveType::Castling) {
            let path: u64 = if m.get_to().index == 6 {
                (1 << 4) | (1 << 5) | (1 << 6)
            } else {
                (1 << 2) | (1 << 3) | (1 << 4)
            };
            assert_eq!(0, enemy_attacks & path);
        }
    }
}

#[test]
fn pseudo_legal_moves_start_on_their_own_pieces() {
    let state = BoardState::from_fen(
        "r3k2r/p1ppqpb1/bn2pnp1/3PN3/1p2P3/2N2Q1p/PPPBBPPP/R3K2R w KQkq - 0 1",
    )
    .unwrap();
    let provider = MoveProvider::new();
    let mut pseudo: Vec<Move> = Vec::new();
    provider.for_each_move(&state, &mut pseudo);
    assert!(!pseudo.is_empty());
    for m in pseudo {
        let at = state.get_piece_at(m.get_from().index as u8).unwrap();
        assert_eq!(m.get_piece(), at.0);
        assert_eq!(m.get_color(), at.1);
        if matches!(m.get_type(), MoveType::Capture) {
            let target = state.get_piece_at(m.get_to().index as u8).unwrap();
            assert_eq!(m.get_target_piece(), target.0);
            assert_ne!(target.0, Piece::Empty);
        }
        if matches!(m.get_type(), MoveType::Promotion) {
            let fr = m.get_from().index / 8;
            let tr = m.get_to().index / 8;
            assert_eq!(1, fr.abs_diff(tr));
            if matches!(m.get_color(), Color::White) {
                assert_eq!(7, tr);
            } else {
                assert_eq!(0, tr);
            }
        }
    }
}

#[test]
fn slider_attacks_match_a_naive_ray_walk() {
    // queen on d4 over a scattered occupancy
    let state = BoardState::from_fen("4k3/8/1r6/8/3Q4/8/5P2/4K3 w - - 0 1").unwrap();
    let occ = state.all_pieces().raw();
    let attacks = chess_rot_engine::attacks::line_attack_squares(27, occ)
        | chess_rot_engine::attacks::diag_attack_squares(27, occ);
    // walk each of the eight directions by hand, stopping at the first blocker
    let mut expected: u64 = 0;
    let dirs: [(i32, i32); 8] = [
        (1, 0),
        (-1, 0),
        (0, 1),
        (0, -1),
        (1, 1),
        (1, -1),
        (-1, 1),
        (-1, -1),
    ];
    for (dx, dy) in dirs {
        let mut file = 3i32;
        let mut rank = 3i32;
        loop {
            file += dx;
            rank += dy;
            if !(0..8).contains(&file) || !(0..8).contains(&rank) {
                break;
            }
            let sq = (rank * 8 + file) as u64;
            expected |= 1 << sq;
            if occ & (1 << sq) != 0 {
                break;
            }
        }
    }
    assert_eq!(expected, attacks);
}

#[test]
fn perft_counts_a_promotion_heavy_position() {
    // Eight promotions, castling and checks are all in play here.
    let state = BoardState::from_fen(
        "r3k2r/Pppp1ppp/1b3nbN/nP6/BBP1P3/q4N2/Pp1P2PP/R2Q1RK1 w kq - 0 1",
    )
    .unwrap();
    assert_eq!(6, perft(&state, 1));
    assert_eq!(264, perft(&state, 2));
}

#[test]
fn perft_counts_an_endgame_with_en_passant() {
    let state = BoardState::from_fen("8/2p5/3p4/KP5r/1R3p1k/8/4P1P1/8 w - - 0 1").unwrap();
    assert_eq!(14, perft(&state, 1));
    assert_eq!(191, perft(&state, 2));
}
