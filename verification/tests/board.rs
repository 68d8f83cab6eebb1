use rustychess::board::Board;
use rustychess::error::ChessError;
use rustychess::piece::{Color, Piece, PieceType};
use rustychess::position::Position;

fn count_pieces(board: &Board) -> (usize, usize) {
    let mut white = 0;
    let mut black = 0;
    for rank in 0u8..8 {
        for file in 0u8..8 {
            if let Some(p) = board.get_piece(&Position::new(file, rank)) {
                match p.color {
                    Color::White => white += 1,
                    Color::Black => black += 1,
                }
            }
        }
    }
    (white, black)
}

#[test]
fn new_board_has_the_standard_initial_layout() {
    let board = Board::new();
    let (white, black) = count_pieces(&board);
    assert_eq!(white + black, 32);
    assert_eq!(white, 16);
    assert_eq!(black, 16);
    let back = [
        PieceType::Rook,
        PieceType::Knight,
        PieceType::Bishop,
        PieceType::Queen,
        PieceType::King,
        PieceType::Bishop,
        PieceType::Knight,
        PieceType::Rook,
    ];
    for file in 0u8..8 {
        let w = board.get_piece(&Position::new(file, 0)).unwrap();
        assert_eq!(w.piece_type, back[file as usize]);
        assert_eq!(w.color, Color::White);
        let wp = board.get_piece(&Position::new(file, 1)).unwrap();
        assert_eq!(wp.piece_type, PieceType::Pawn);
        assert_eq!(wp.color, Color::White);
        let bp = board.get_piece(&Position::new(file, 6)).unwrap();
        assert_eq!(bp.piece_type, PieceType::Pawn);
        assert_eq!(bp.color, Color::Black);
        let b = board.get_piece(&Position::new(file, 7)).unwrap();
        assert_eq!(b.piece_type, back[file as usize]);
        assert_eq!(b.color, Color::Black);
        for rank in 2u8..6 {
            assert!(board.get_piece(&Position::new(file, rank)).is_none());
        }
    }
}

#[test]
fn relocating_twice_moves_the_pawn_forward() {
    let mut board = Board::new();
    let e2 = Position::from_str("e2").unwrap();
    let e4 = Position::from_str("e4").unwrap();
    let e5 = Position::from_str("e5").unwrap();
    board.make_move(&e2, &e4).unwrap();
    board.make_move(&e4, &e5).unwrap();
    assert!(board.get_piece(&e2).is_none());
    assert!(board.get_piece(&e4).is_none());
    let pawn = board.get_piece(&e5).unwrap();
    assert_eq!(pawn.piece_type, PieceType::Pawn);
    assert_eq!(pawn.color, Color::White);
}

#[test]
fn relocation_captures_by_overwrite() {
    let mut board = Board::new();
    let e2 = Position::from_str("e2").unwrap();
    let e7 = Position::from_str("e7").unwrap();
    board.make_move(&e2, &e7).unwrap();
    let p = board.get_piece(&e7).unwrap();
    assert_eq!(p.color, Color::White);
    assert_eq!(p.piece_type, PieceType::Pawn);
    let (white, black) = count_pieces(&board);
    assert_eq!(white, 16);
    assert_eq!(black, 15);
}

#[test]
fn relocation_from_an_empty_square_fails_and_changes_nothing() {
    let mut board = Board::new();
    let e4 = Position::from_str("e4").unwrap();
    let e5 = Position::from_str("e5").unwrap();
    let r = board.make_move(&e4, &e5);
    assert!(matches!(r, Err(ChessError::InvalidMove(_))));
    let (white, black) = count_pieces(&board);
    assert_eq!((white, black), (16, 16));
}

#[test]
fn writes_are_strict_and_reads_are_lenient() {
    let mut board = Board::new();
    let off = Position::new(8, 0);
    assert!(board.get_piece(&off).is_none());
    let r = board.set_piece(&off, Some(Piece::new(PieceType::Queen, Color::White)));
    assert!(matches!(r, Err(ChessError::InvalidPosition(_))));
    let r2 = board.make_move(&off, &Position::new(0, 0));
    assert!(matches!(r2, Err(ChessError::InvalidPosition(_))));
    let e3 = Position::from_str("e3").unwrap();
    board.set_piece(&e3, Some(Piece::new(PieceType::Queen, Color::White))).unwrap();
    let q = board.get_piece(&e3).unwrap();
    assert_eq!(q.piece_type, PieceType::Queen);
    board.set_piece(&e3, None).unwrap();
    assert!(board.get_piece(&e3).is_none());
}

#[test]
fn debug_print_renders_the_initial_board() {
    let board = Board::new();
    let mut expected = String::new();
    expected.push_str("Board state:\n");
    expected.push_str("8  r n b q k b n r \n");
    expected.push_str("7  p p p p p p p p \n");
    expected.push_str("6  . . . . . . . . \n");
    expected.push_str("5  . . . . . . . . \n");
    expected.push_str("4  . . . . . . . . \n");
    expected.push_str("3  . . . . . . . . \n");
    expected.push_str("2  P P P P P P P P \n");
    expected.push_str("1  R N B Q K B N R \n");
    expected.push_str("   a b c d e f g h\n");
    assert_eq!(board.debug_print(), expected);
}

#[test]
fn piece_symbols_use_case_for_color() {
    assert_eq!(Piece::new(PieceType::King, Color::White).to_char(), 'K');
    assert_eq!(Piece::new(PieceType::King, Color::Black).to_char(), 'k');
    assert_eq!(Piece::new(PieceType::Knight, Color::White).to_char(), 'N');
    assert_eq!(Piece::new(PieceType::Pawn, Color::Black).to_char(), 'p');
}
