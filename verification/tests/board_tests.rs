use chessmusic::board::Board;
use chessmusic::cell::Cell;
use chessmusic::chess_move::Move;
use chessmusic::types::{PieceName, Role};

#[test]
fn test_get_piece_at_cell() {
    let board = Board::new();
    match board.get_piece_at_cell(&Cell { file: 'a', row: 2 }) {
        Some(piece) => {
            assert_eq!(piece.get_name(), PieceName::Apawn);
            assert!(piece.is_white());
            assert!(!piece.has_moved());
        }
        None => assert!(false),
    }
}

#[test]
fn test_get_white_pawns() {
    let board = Board::new();
    let white_pawns = board.get_live_pieces_with_role(Role::Pawn, true);
    assert_eq!(white_pawns.len(), 8);
    assert_eq!(white_pawns[0].get_role(), Role::Pawn);
    assert!(white_pawns[0].is_white());
}

#[test]
fn test_get_black_pawns() {
    let board = Board::new();
    let white_pawns = board.get_live_pieces_with_role(Role::Pawn, false);
    assert_eq!(white_pawns.len(), 8);
    assert_eq!(white_pawns[0].get_role(), Role::Pawn);
    assert!(!white_pawns[0].is_white());
}

#[test]
fn test_move_pawn() {
    let mut board = Board::new();
    let new_cell = Cell::new("b3");
    board
        .move_piece(PieceName::Bpawn, true, &Move::new_with_cell(new_cell))
        .unwrap();
    match board.get_piece_at_cell(&new_cell) {
        Some(piece) => {
            assert_eq!(piece.get_name(), PieceName::Bpawn);
            assert!(piece.is_white());
            assert!(piece.has_moved());
        }
        None => assert!(false),
    }
}

#[test]
fn test_move_knight() {
    let mut board = Board::new();
    let new_cell = Cell::new("a3");
    board
        .move_piece(PieceName::Qknight, true, &Move::new_with_cell(new_cell))
        .unwrap();
    match board.get_piece_at_cell(&new_cell) {
        Some(piece) => {
            assert_eq!(piece.get_name(), PieceName::Qknight);
            assert!(piece.is_white());
            assert!(piece.has_moved());
        }
        None => assert!(false),
    }

    match board.get_piece_at_cell(&Cell::new("b1")) {
        Some(_piece) => panic!("Did not expect to find a piece"),
        None => assert!(true),
    }
}

#[test]
fn test_remove_piece() {
    let mut board = Board::new();
    let cell = Cell::new("a1");
    board.capture_piece_at_cell(&cell);
    match board.get_piece_at_cell(&cell) {
        Some(_piece) => panic!("Did not expect to find piece"),
        None => assert!(true),
    }
}

#[test]
fn test_fresh_board_census() {
    // Eight live pawns and one live piece per other identity, per colour.
    let board = Board::new();
    for white in [true, false] {
        assert_eq!(board.get_live_pieces_with_role(Role::Pawn, white).len(), 8);
        assert_eq!(board.get_live_pieces_with_role(Role::Rook, white).len(), 2);
        assert_eq!(board.get_live_pieces_with_role(Role::Knight, white).len(), 2);
        assert_eq!(board.get_live_pieces_with_role(Role::Bishop, white).len(), 2);
        assert_eq!(board.get_live_pieces_with_role(Role::Queen, white).len(), 1);
        assert_eq!(board.get_live_pieces_with_role(Role::King, white).len(), 1);
    }
    assert_eq!(board.pieces.len(), 32);
}

#[test]
fn test_captured_piece_keeps_identity() {
    let mut board = Board::new();
    board.capture_piece_at_cell(&Cell::new("a1"));
    let piece = board.get_piece_with_name(PieceName::Qrook, true);
    assert_eq!(piece.get_name(), PieceName::Qrook);
    assert!(piece.get_curr_cell().is_none());
    assert!(board.get_live_piece_with_name(PieceName::Qrook, true).is_none());
}
