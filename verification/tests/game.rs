use rustychess::error::ChessError;
use rustychess::game::{Game, GameStatus};
use rustychess::piece::{Color, Piece, PieceType};
use rustychess::position::Position;

#[test]
fn first_move_flips_the_turn_and_records_history() {
    let mut game = Game::new();
    assert_eq!(game.current_turn, Color::White);
    assert_eq!(game.get_status(), GameStatus::InProgress);
    game.make_move("e2", "e4").unwrap();
    assert_eq!(game.move_history.len(), 1);
    assert_eq!(game.move_history[0], "e2-e4");
    assert_eq!(game.current_turn, Color::Black);
    let pawn = game.board.get_piece(&Position::from_str("e4").unwrap()).unwrap();
    assert_eq!(pawn.piece_type, PieceType::Pawn);
    assert_eq!(pawn.color, Color::White);
    assert!(game.board.get_piece(&Position::from_str("e2").unwrap()).is_none());
}

#[test]
fn moving_out_of_turn_is_rejected_without_changing_the_game() {
    let mut game = Game::new();
    game.make_move("e2", "e4").unwrap();
    // It is Black's turn, but e4 holds a White pawn.
    let r = game.make_move("e4", "e5");
    assert!(matches!(r, Err(ChessError::InvalidMove(_))));
    assert_eq!(game.move_history.len(), 1);
    assert_eq!(game.current_turn, Color::Black);
    // A Black reply is accepted.
    game.make_move("e7", "e5").unwrap();
    assert_eq!(game.move_history.len(), 2);
    assert_eq!(game.current_turn, Color::White);
}

#[test]
fn moving_from_an_empty_square_is_rejected() {
    let mut game = Game::new();
    let r = game.make_move("e4", "e5");
    assert!(matches!(r, Err(ChessError::InvalidMove(_))));
    assert_eq!(game.move_history.len(), 0);
}

#[test]
fn malformed_squares_are_rejected_as_positions() {
    let mut game = Game::new();
    assert!(matches!(game.make_move("e9", "e4"), Err(ChessError::InvalidPosition(_))));
    assert!(matches!(game.make_move("e2", "x4"), Err(ChessError::InvalidPosition(_))));
    assert!(matches!(game.make_move("e2e4", "e5"), Err(ChessError::InvalidPosition(_))));
    assert_eq!(game.move_history.len(), 0);
    assert_eq!(game.current_turn, Color::White);
}

#[test]
fn an_attacked_king_puts_the_game_in_check() {
    let mut game = Game::new();
    game.make_move("f2", "f3").unwrap();
    game.make_move("e7", "e5").unwrap();
    game.make_move("g2", "g4").unwrap();
    assert_eq!(game.get_status(), GameStatus::InProgress);
    // The queen lands on h4 and attacks the white king along the diagonal;
    // White still has pseudo-legal moves, so the status is Check rather than
    // Checkmate.
    game.make_move("d8", "h4").unwrap();
    assert_eq!(game.get_status(), GameStatus::Check);
}

#[test]
fn capturing_the_king_counts_the_victim_as_in_check() {
    let mut game = Game::new();
    // March the e-pawn forward and take the black king by overwrite: the
    // relocation layer applies any occupancy-valid move.
    game.make_move("e2", "e4").unwrap();
    game.make_move("a7", "a6").unwrap();
    game.make_move("e4", "e5").unwrap();
    game.make_move("a6", "a5").unwrap();
    game.make_move("e5", "e6").unwrap();
    game.make_move("a5", "a4").unwrap();
    game.make_move("e6", "d7").unwrap();
    game.make_move("a4", "a3").unwrap();
    game.make_move("d7", "e8").unwrap();
    // Black has no king any more and is conservatively in check; moves
    // remain, so the status is Check.
    assert_eq!(game.get_status(), GameStatus::Check);
}

#[test]
fn get_best_move_plays_for_the_side_to_move() {
    let mut game = Game::new();
    game.make_move("e2", "e4").unwrap();
    game.make_move("d7", "d5").unwrap();
    let best = game.get_best_move().unwrap();
    let piece = game.board.get_piece(&best.from).unwrap();
    assert_eq!(piece.color, Color::White);
    // Applying the engine's move must succeed.
    let from = best.from.to_string();
    let to = best.to.to_string();
    game.make_move(&from, &to).unwrap();
    assert_eq!(game.current_turn, Color::Black);
}

#[test]
fn get_best_move_fails_with_no_pieces_to_move() {
    let mut game = Game::new();
    for rank in 0u8..2 {
        for file in 0u8..8 {
            game.board.set_piece(&Position::new(file, rank), None).unwrap();
        }
    }
    let r = game.get_best_move();
    assert!(matches!(r, Err(ChessError::InvalidMove(_))));
}

#[test]
fn a_side_with_no_moves_and_no_check_is_stalemated() {
    let mut game = Game::new();
    clear_board(&mut game);
    // Black king boxed into a1 by its own pawns; none of the pawns can move:
    // a2 and b2 are blocked, b1 has no rank to advance to.
    put(&mut game, "a1", PieceType::King, Color::Black);
    put(&mut game, "a2", PieceType::Pawn, Color::Black);
    put(&mut game, "b2", PieceType::Pawn, Color::Black);
    put(&mut game, "b1", PieceType::Pawn, Color::Black);
    put(&mut game, "h2", PieceType::Pawn, Color::White);
    game.make_move("h2", "h3").unwrap();
    // Black, to move, has no pseudo-legal move and is not attacked.
    assert_eq!(game.get_status(), GameStatus::Stalemate);
}

#[test]
fn no_moves_while_in_check_is_checkmate() {
    let mut game = Game::new();
    clear_board(&mut game);
    // Black keeps only a pawn on its last rank, which has no move; with no
    // king on the board Black counts as in check, so the combination is
    // checkmate.
    put(&mut game, "a1", PieceType::Pawn, Color::Black);
    put(&mut game, "h2", PieceType::Pawn, Color::White);
    game.make_move("h2", "h3").unwrap();
    assert_eq!(game.get_status(), GameStatus::Checkmate);
}

fn clear_board(game: &mut Game) {
    for rank in 0u8..8 {
        for file in 0u8..8 {
            game.board.set_piece(&Position::new(file, rank), None).unwrap();
        }
    }
}

fn put(game: &mut Game, square: &str, piece_type: PieceType, color: Color) {
    let pos = Position::from_str(square).unwrap();
    game.board.set_piece(&pos, Some(Piece::new(piece_type, color))).unwrap();
}
