use rustychess::board::Board;
use rustychess::engine::{ChessMove, Engine};
use rustychess::error::ChessError;
use rustychess::game::Game;
use rustychess::piece::Color;
use rustychess::position::Position;

#[test]
fn initial_position_yields_twenty_moves_for_each_side() {
    let board = Board::new();
    let engine = Engine::new(3);
    let white = engine.generate_moves(&board, Color::White).unwrap();
    assert_eq!(white.len(), 20);
    let black = engine.generate_moves(&board, Color::Black).unwrap();
    assert_eq!(black.len(), 20);
}

#[test]
fn initial_moves_are_pawn_pushes_and_knight_hops() {
    let board = Board::new();
    let engine = Engine::new(3);
    let moves = engine.generate_moves(&board, Color::White).unwrap();
    let pawn_single = moves.iter().filter(|m| m.from.rank == 1 && m.to.rank == 2).count();
    let pawn_double = moves.iter().filter(|m| m.from.rank == 1 && m.to.rank == 3).count();
    let knight = moves.iter().filter(|m| m.from.rank == 0).count();
    assert_eq!(pawn_single, 8);
    assert_eq!(pawn_double, 8);
    assert_eq!(knight, 4);
}

#[test]
fn sliding_pieces_stop_at_the_first_occupied_square() {
    let mut game = Game::new();
    game.make_move("e2", "e4").unwrap();
    game.make_move("a7", "a6").unwrap();
    let engine = Engine::new(3);
    let moves = engine.generate_moves(&game.board, Color::White).unwrap();
    let f1 = Position::from_str("f1").unwrap();
    let bishop_targets: Vec<String> =
        moves.iter().filter(|m| m.from == f1).map(|m| m.to.to_string()).collect();
    // The f1 bishop slides e2, d3, c4, b5 and captures the pawn on a6: the
    // first occupied square is included because it is an enemy.
    assert_eq!(bishop_targets, vec!["e2", "d3", "c4", "b5", "a6"]);
    // The a1 rook is boxed in by friendly pieces: the first occupied square
    // in every direction is friendly and therefore excluded.
    let a1 = Position::from_str("a1").unwrap();
    assert_eq!(moves.iter().filter(|m| m.from == a1).count(), 0);
}

#[test]
fn depth_one_search_takes_the_best_capture() {
    let mut game = Game::new();
    game.make_move("e2", "e4").unwrap();
    game.make_move("d7", "d5").unwrap();
    let mut engine = Engine::new(1);
    let best = engine.find_best_move(&game).unwrap();
    assert_eq!(best.from, Position::from_str("e4").unwrap());
    assert_eq!(best.to, Position::from_str("d5").unwrap());
    assert!(best.score > 0);
}

#[test]
fn search_is_deterministic_for_the_same_board_and_depth() {
    let mut game = Game::new();
    game.make_move("e2", "e4").unwrap();
    game.make_move("d7", "d5").unwrap();
    let mut engine1 = Engine::new(3);
    let mut engine2 = Engine::new(3);
    let first = engine1.find_best_move(&game).unwrap();
    let second = engine2.find_best_move(&game).unwrap();
    assert_eq!(first, second);
    let third = engine1.find_best_move(&game).unwrap();
    assert_eq!(first, third);
}

#[test]
fn search_reports_no_moves_on_a_bare_board() {
    let mut game = Game::new();
    for rank in 0u8..2 {
        for file in 0u8..8 {
            game.board.set_piece(&Position::new(file, rank), None).unwrap();
        }
    }
    let mut engine = Engine::new(3);
    let r = engine.find_best_move(&game);
    assert!(matches!(r, Err(ChessError::InvalidMove(_))));
}

#[test]
fn search_counts_nodes() {
    let game = Game::new();
    let mut engine = Engine::new(2);
    engine.find_best_move(&game).unwrap();
    let (nodes, depth) = engine.get_stats();
    assert!(nodes > 0);
    assert_eq!(depth, 2);
}

#[test]
fn debug_mode_flag_is_inert() {
    let game = Game::new();
    let mut engine = Engine::new(2);
    let quiet = engine.find_best_move(&game).unwrap();
    let mut noisy = Engine::new(2);
    noisy.set_debug_mode(true);
    let loud = noisy.find_best_move(&game).unwrap();
    assert_eq!(quiet, loud);
}

#[test]
fn chess_move_renders_as_from_dash_to() {
    let m = ChessMove::new(
        Position::from_str("e2").unwrap(),
        Position::from_str("e4").unwrap(),
    );
    assert_eq!(m.to_string(), "e2-e4");
    assert_eq!(m.score, 0);
}

#[test]
fn chess_move_parses_both_written_forms() {
    let hyphenated = ChessMove::from_str("e2-e4").unwrap();
    assert_eq!(hyphenated.from, Position::from_str("e2").unwrap());
    assert_eq!(hyphenated.to, Position::from_str("e4").unwrap());
    let compact = ChessMove::from_str("e2e4").unwrap();
    assert_eq!(compact.from, hyphenated.from);
    assert_eq!(compact.to, hyphenated.to);
    assert!(matches!(ChessMove::from_str("e2e"), Err(ChessError::InvalidMove(_))));
    assert!(matches!(ChessMove::from_str("e2-e4-e5"), Err(ChessError::InvalidMove(_))));
    assert!(matches!(ChessMove::from_str("z9-e4"), Err(ChessError::InvalidPosition(_))));
    assert!(matches!(ChessMove::from_str("e2-e44"), Err(ChessError::InvalidPosition(_))));
}

#[test]
fn algebraic_notation_names_the_moving_piece() {
    let board = Board::new();
    let engine = Engine::new(3);
    let knight_hop = ChessMove::new(
        Position::from_str("g1").unwrap(),
        Position::from_str("f3").unwrap(),
    );
    assert_eq!(engine.to_algebraic_notation(&knight_hop, &board), "Nf3");
    let pawn_push = ChessMove::new(
        Position::from_str("e2").unwrap(),
        Position::from_str("e4").unwrap(),
    );
    assert_eq!(engine.to_algebraic_notation(&pawn_push, &board), "e4");
    let from_empty = ChessMove::new(
        Position::from_str("e4").unwrap(),
        Position::from_str("e5").unwrap(),
    );
    assert_eq!(engine.to_algebraic_notation(&from_empty, &board), "???");
}

#[test]
fn get_legal_moves_matches_generate_moves() {
    let board = Board::new();
    let engine = Engine::new(3);
    let a = engine.generate_moves(&board, Color::White).unwrap();
    let b = engine.get_legal_moves(&board, Color::White).unwrap();
    assert_eq!(a, b);
}
