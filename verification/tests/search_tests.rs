use chess_rot_engine::ai_move_provider::{AiMoveProvider, AiType};
use chess_rot_engine::ai_strategy::{Minimax, OpenAi};
use chess_rot_engine::board_state::BoardState;
use chess_rot_engine::error::GameError;
use chess_rot_engine::evaluator::Evaluator;
use chess_rot_engine::game::Game;
use chess_rot_engine::move_provider::MoveProvider;
use chess_rot_engine::move_type::MoveType;
use chess_rot_engine::piece::Piece;
use chess_rot_engine::move_history::MoveStack;

#[test]
fn evaluator_scores_the_start_position_as_level() {
    let state = BoardState::default();
    let none = Vec::new();
    assert_eq!(0, Evaluator::new().evaluate(&state, &none, 0));
}

#[test]
fn evaluator_counts_material() {
    // White has a knight; Black has one pawn, which is isolated on both
    // neighboring files: 325 - (100 - 2 * 15).
    let state = BoardState::from_fen("4k3/4p3/8/8/8/8/8/2N1K3 w - - 0 1").unwrap();
    let none = Vec::new();
    assert_eq!(255, Evaluator::new().evaluate(&state, &none, 0));
}

#[test]
fn evaluator_rewards_the_bishop_pair() {
    let state = BoardState::from_fen("4k3/8/8/8/8/8/8/2BB1K2 w - - 0 1").unwrap();
    let none = Vec::new();
    assert_eq!(330 + 330 + 45, Evaluator::new().evaluate(&state, &none, 0));
}

#[test]
fn evaluator_penalizes_isolated_pawns() {
    // One white pawn alone on d4: both neighboring files are empty.
    let state = BoardState::from_fen("4k3/8/8/8/3P4/8/8/4K3 w - - 0 1").unwrap();
    let none = Vec::new();
    assert_eq!(100 - 30, Evaluator::new().evaluate(&state, &none, 0));
}

#[test]
fn minimax_takes_the_hanging_queen() {
    // White rook on d1 can take the undefended black queen on d8.
    let state = BoardState::from_fen("3q3k/8/8/8/8/8/8/3R3K w - - 0 1").unwrap();
    let mut search = Minimax::new(Evaluator::new(), 1);
    let m = search.find_optimal_move(&state).unwrap();
    assert_eq!(3, m.get_from().index); // d1
    assert_eq!(59, m.get_to().index); // d8
    assert!(matches!(m.get_type(), MoveType::Capture));
    assert!(matches!(m.get_target_piece(), Piece::Queen));
}

#[test]
fn minimax_reports_no_move_when_mated() {
    // Black to move is checkmated in the back-rank corner.
    let state = BoardState::from_fen("6rk/5Npp/8/8/8/8/8/7K b - - 0 1").unwrap();
    let mut search = Minimax::new(Evaluator::new(), 2);
    match search.find_optimal_move(&state) {
        Err(e) => assert!(matches!(e, GameError::NoPossibleMoveError)),
        Ok(_) => panic!("a mated side has no move"),
    }
}

#[test]
fn ai_move_provider_answers_for_the_search_only() {
    let state = BoardState::default();
    let mut provider = AiMoveProvider::new(1, "");
    let m = provider.find_optimal_move(AiType::Minimax, &state);
    assert!(m.is_some());
    let llm = provider.find_optimal_move(AiType::LLM, &state);
    assert!(llm.is_none());
}

#[test]
fn response_validation_accepts_only_legal_move_strings() {
    let state = BoardState::default();
    let provider = MoveProvider::new();
    let legal = provider.legal_moves(&state);
    let openai = OpenAi::new("");
    let m = openai.validate_response(&legal, "e2e4").unwrap();
    assert_eq!(12, m.get_from().index);
    assert_eq!(28, m.get_to().index);
    let m = openai.validate_response(&legal, "e2-e4").unwrap();
    assert_eq!(28, m.get_to().index);
    assert!(matches!(
        openai.validate_response(&legal, "e2e5"),
        Err(GameError::OpenAiResponseError(_))
    ));
    assert!(matches!(
        openai.validate_response(&legal, "nonsense"),
        Err(GameError::OpenAiResponseError(_))
    ));
}

#[test]
fn extract_response_splits_move_strings() {
    let (a, b) = OpenAi::extract_response("a2a4").unwrap();
    assert_eq!("a2", a);
    assert_eq!("a4", b);
    let (a, b) = OpenAi::extract_response("a2-a4").unwrap();
    assert_eq!("a2", a);
    assert_eq!("a4", b);
    assert!(OpenAi::extract_response("a2a4q5").is_none());
}

#[test]
fn game_refuses_illegal_moves_and_plays_legal_ones() {
    let mut game = Game::new();
    let illegal = chess_rot_engine::chess_move::Move::new(
        MoveType::Push,
        0,
        32,
        Piece::Rook,
        chess_rot_engine::color::Color::White,
        Piece::Empty,
    );
    match game.make_move(illegal) {
        Some(e) => assert!(matches!(e, GameError::InvalidMoveError)),
        None => panic!("an illegal move must be refused"),
    }
    let legal = game.generate_legal_moves();
    assert_eq!(20, legal.len());
    assert!(game.make_move(legal[0]).is_none());
    assert_eq!(1, game.move_history.len());
    assert_eq!(1, game.current_state.ply);
    assert!(!game.is_finished());
}

#[test]
fn board_iterator_walks_the_occupied_squares() {
    let game = Game::new();
    let mut iter = game.board_iter();
    let mut seen = 0;
    while let Some((sq, _p, _c)) = iter.next_piece() {
        assert!(sq.index < 64);
        seen += 1;
    }
    assert_eq!(32, seen);
}

#[test]
fn move_stack_pushes_and_pops_in_order() {
    let start = BoardState::default();
    let mut stack = MoveStack::with_initial(start);
    let provider = MoveProvider::new();
    let legal = provider.legal_moves(&start);
    let m = legal[0];
    let next = start.make_move(m);
    stack.push(m, next);
    assert_eq!(next.ply, stack.latest_state().ply);
    let (popped, _) = stack.pop().unwrap();
    assert_eq!(m.get_from().index, popped.get_from().index);
    assert_eq!(0, stack.latest_state().ply);
    assert!(stack.pop().is_none());
}

#[test]
fn error_messages_name_the_failure() {
    let e = GameError::NoPossibleMoveError;
    assert_eq!("No more possible moves!", e.message().as_str());
    let e = GameError::InvalidMoveError;
    assert_eq!("Invalid move", e.message().as_str());
    let e = GameError::InvalidSquareError(String::from("z9"));
    assert_eq!("z9", e.message().as_str());
}

#[test]
fn evaluator_rewards_a_castled_king() {
    // Same material; White has castled short, Black still may.
    let castled = BoardState::from_fen("r3k2r/8/8/8/8/8/8/R4RK1 w kq - 0 1").unwrap();
    let not_castled = BoardState::from_fen("r3k2r/8/8/8/8/8/8/R3K2R w KQkq - 0 1").unwrap();
    let none = Vec::new();
    let e = Evaluator::new();
    assert_eq!(65, e.evaluate(&castled, &none, 0) - e.evaluate(&not_castled, &none, 0));
}

#[test]
fn minimax_finds_a_mate_in_one_at_depth_two() {
    // The rook mates on the back rank; every other move lets Black breathe.
    let state = BoardState::from_fen("6k1/5ppp/8/8/8/8/8/4R2K w - - 0 1").unwrap();
    let mut search = Minimax::new(Evaluator::new(), 2);
    let m = search.find_optimal_move(&state).unwrap();
    assert_eq!(4, m.get_from().index); // e1
    assert_eq!(60, m.get_to().index); // e8
}
