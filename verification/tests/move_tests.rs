use chessmusic::cell::Cell;
use chessmusic::types::role_char_to_role;
use chessmusic::chess_move::{ChessError, Move};
use chessmusic::types::{MoveType, Role};

#[test]
fn test_parse_simple_pawn_move() {
    let the_move = Move::parse("a4").unwrap();
    assert_eq!(the_move.role, Role::Pawn);
    assert_eq!(the_move.move_type, MoveType::Simple);
    assert_eq!(the_move.file_hint, ' ');
    assert_eq!(the_move.check, false);
    assert_eq!(the_move.cell, Cell { file: 'a', row: 4 });

    let the_move = Move::parse("h4").unwrap();
    assert_eq!(the_move.role, Role::Pawn);
    assert_eq!(the_move.move_type, MoveType::Simple);
    assert_eq!(the_move.file_hint, ' ');
    assert_eq!(the_move.check, false);
    assert_eq!(the_move.cell, Cell { file: 'h', row: 4 });
}

#[test]
fn test_parse_pawn_move_with_take() {
    let the_move = Move::parse("dxe5").unwrap();
    assert_eq!(the_move.role, Role::Pawn);
    assert_eq!(the_move.move_type, MoveType::Take);
    assert_eq!(the_move.file_hint, 'd');
    assert_eq!(the_move.check, false);
    assert_eq!(the_move.cell, Cell { file: 'e', row: 5 });
}

#[test]
fn test_parse_pawn_move_with_check() {
    let the_move = Move::parse("d4+").unwrap();
    assert_eq!(the_move.role, Role::Pawn);
    assert_eq!(the_move.move_type, MoveType::Simple);
    assert_eq!(the_move.file_hint, ' ');
    assert_eq!(the_move.check, true);
    assert_eq!(the_move.cell, Cell { file: 'd', row: 4 });
}

#[test]
fn test_parse_bishop_move() {
    let the_move = Move::parse("Be4").unwrap();
    assert_eq!(the_move.role, Role::Bishop);
    assert_eq!(the_move.move_type, MoveType::Simple);
    assert_eq!(the_move.file_hint, ' ');
    assert_eq!(the_move.check, false);
    assert_eq!(the_move.cell, Cell { file: 'e', row: 4 });
}

#[test]
fn test_parse_knight_move_with_file_hint() {
    let the_move = Move::parse("Nbd2").unwrap();
    assert_eq!(the_move.role, Role::Knight);
    assert_eq!(the_move.move_type, MoveType::Simple);
    assert_eq!(the_move.file_hint, 'b');
    assert_eq!(the_move.check, false);
    assert_eq!(the_move.cell, Cell::new("d2"));
}

#[test]
fn test_parse_queen_move_with_take() {
    let the_move = Move::parse("Qxg6").unwrap();
    assert_eq!(the_move.role, Role::Queen);
    assert_eq!(the_move.move_type, MoveType::Take);
    assert_eq!(the_move.file_hint, ' ');
    assert_eq!(the_move.check, false);
    assert_eq!(the_move.cell, Cell { file: 'g', row: 6 });
}

#[test]
fn test_parse_king_side_castle() {
    let the_move = Move::parse("O-O").unwrap(); // These are capital "o"s
    assert_eq!(the_move.role, Role::King);
    assert_eq!(the_move.move_type, MoveType::CastleKing);
    assert_eq!(the_move.file_hint, ' ');
    assert_eq!(the_move.check, false);
}

#[test]
fn test_parse_queen_side_castle() {
    let the_move = Move::parse("O-O-O").unwrap(); // These are capital "o"s
    assert_eq!(the_move.role, Role::King);
    assert_eq!(the_move.move_type, MoveType::CastleQueen);
    assert_eq!(the_move.file_hint, ' ');
    assert_eq!(the_move.check, false);
}

#[test]
fn test_parse_empty_token_is_placeholder() {
    let the_move = Move::parse("").unwrap();
    assert_eq!(the_move.role, Role::Pawn);
    assert_eq!(the_move.move_type, MoveType::Null);
    assert_eq!(the_move.file_hint, ' ');
    assert_eq!(the_move.check, false);
}

#[test]
fn test_parse_malformed_token() {
    assert_eq!(Move::parse("zz"), Err(ChessError::MalformedMove));
    assert_eq!(Move::parse("9"), Err(ChessError::MalformedMove));
    assert_eq!(Move::parse("Nxx"), Err(ChessError::MalformedMove));
}

#[test]
fn test_parse_castle_with_check() {
    let the_move = Move::parse("O-O+").unwrap();
    assert_eq!(the_move.role, Role::King);
    assert_eq!(the_move.move_type, MoveType::CastleKing);
    assert_eq!(the_move.check, true);
}

#[test]
fn test_parse_checkmate_marker_is_stripped() {
    let the_move = Move::parse("Qxg2#").unwrap();
    assert_eq!(the_move.role, Role::Queen);
    assert_eq!(the_move.move_type, MoveType::Take);
    assert_eq!(the_move.check, false);
    assert_eq!(the_move.cell, Cell { file: 'g', row: 2 });
}

#[test]
fn test_parse_moves_maps_each_token() {
    let moves = Move::parse_moves(&["d4", "Nf6", "O-O"]).unwrap();
    assert_eq!(moves.len(), 3);
    assert_eq!(moves[0].cell, Cell::new("d4"));
    assert_eq!(moves[1].role, Role::Knight);
    assert_eq!(moves[2].move_type, MoveType::CastleKing);
}

#[test]
fn test_parse_moves_stops_at_first_malformed() {
    assert_eq!(
        Move::parse_moves(&["d4", "??", "Nf6"]),
        Err(ChessError::MalformedMove)
    );
}

#[test]
fn test_new_with_cell_name_builds_placeholder() {
    let m = Move::new_with_cell_name("e5");
    assert_eq!(m.cell, Cell { file: 'e', row: 5 });
    assert_eq!(m.move_type, MoveType::Null);
    assert_eq!(m.role, Role::Pawn);
    assert_eq!(m.file_hint, ' ');
}

#[test]
fn test_role_char_to_role() {
    assert_eq!(role_char_to_role(""), Role::Pawn);
    assert_eq!(role_char_to_role("B"), Role::Bishop);
    assert_eq!(role_char_to_role("N"), Role::Knight);
    assert_eq!(role_char_to_role("R"), Role::Rook);
    assert_eq!(role_char_to_role("Q"), Role::Queen);
    assert_eq!(role_char_to_role("K"), Role::King);
    assert_eq!(role_char_to_role("X"), Role::Pawn);
    assert_eq!(role_char_to_role("NN"), Role::Pawn);
}
