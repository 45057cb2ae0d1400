use chessmusic::cell::Cell;
use chessmusic::chess_move::{ChessError, Move};
use chessmusic::game::Game;
use chessmusic::types::{PieceName, Role};

fn parse(token: &str) -> Move {
    Move::parse(token).unwrap()
}

#[test]
fn test_get_piece_for_white_pawn_simple_move() {
    let game = Game::new();
    let name = game.get_piece_for_move(true, &parse("a3")).unwrap();
    assert_eq!(name, PieceName::Apawn);
}

#[test]
fn test_get_piece_for_black_pawn_simple_move() {
    let game = Game::new();
    let name = game.get_piece_for_move(false, &parse("a6")).unwrap();
    assert_eq!(name, PieceName::Apawn);
}

#[test]
fn test_get_piece_for_pawn_take() {
    let mut game = Game::new();
    game.add_move_pair(&parse("d4"), &parse("e5")).unwrap();
    let name = game.get_piece_for_move(true, &parse("dxe5")).unwrap();
    assert_eq!(name, PieceName::Dpawn);
}

#[test]
fn test_get_piece_for_bishop_move() {
    let game = Game::new_test(Role::Bishop);
    let name = game.get_piece_for_move(true, &parse("Bf4")).unwrap();
    assert_eq!(name, PieceName::Qbishop);

    let name = game.get_piece_for_move(true, &parse("Bb5")).unwrap();
    assert_eq!(name, PieceName::Kbishop);

    let name = game.get_piece_for_move(false, &parse("Ba6")).unwrap();
    assert_eq!(name, PieceName::Qbishop);

    let name = game.get_piece_for_move(false, &parse("Ba3")).unwrap();
    assert_eq!(name, PieceName::Kbishop);
}

#[test]
fn test_get_piece_for_knight_move() {
    let game = Game::new();
    let name = game.get_piece_for_move(true, &parse("Nc3")).unwrap();
    assert_eq!(name, PieceName::Qknight);

    let name = game.get_piece_for_move(true, &parse("Nf3")).unwrap();
    assert_eq!(name, PieceName::Kknight);

    let name = game.get_piece_for_move(false, &parse("Nc6")).unwrap();
    assert_eq!(name, PieceName::Qknight);

    let name = game.get_piece_for_move(false, &parse("Nh6")).unwrap();
    assert_eq!(name, PieceName::Kknight);
}

#[test]
fn test_get_piece_for_rook_move() {
    let game = Game::new_test(Role::Rook);
    let name = game.get_piece_for_move(true, &parse("Ra2")).unwrap();
    assert_eq!(name, PieceName::Qrook);

    // doesn't fail on ambiguous moves yet.

    let name = game.get_piece_for_move(true, &parse("Rh2")).unwrap();
    assert_eq!(name, PieceName::Krook);

    let name = game.get_piece_for_move(false, &parse("Rh2")).unwrap();
    assert_eq!(name, PieceName::Krook);

    let name = game.get_piece_for_move(false, &parse("Ra2")).unwrap();
    assert_eq!(name, PieceName::Qrook);
}

#[test]
fn test_unresolvable_move_is_reported() {
    // The white queen is boxed in at the start, so "Qh5" resolves to nothing.
    let mut game = Game::new();
    let the_move = parse("Qh5");
    let result = game.add_move(true, &the_move);
    assert_eq!(
        result,
        Err(ChessError::UnresolvableMove { white: true, the_move })
    );
}

#[test]
fn test_castle_with_missing_rook_is_unresolvable() {
    // The kingside rook is gone: the castle relocates the king and then
    // fails on the rook, and the failure is reported rather than applied.
    let mut game = Game::new();
    game.board.capture_piece_at_cell(&Cell::new("f1"));
    game.board.capture_piece_at_cell(&Cell::new("g1"));
    game.board.capture_piece_at_cell(&Cell::new("h1"));
    let result = game.add_move(true, &parse("O-O"));
    assert!(matches!(result, Err(ChessError::UnresolvableMove { white: true, .. })));
    let king = game.board.get_live_piece_with_name(PieceName::King, true).unwrap();
    assert_eq!(king.get_curr_cell().unwrap(), Cell::new("g1"));
}

#[test]
fn test_pawn_history() {
    let game_moves = vec![parse("a3"), parse("a6")];
    let game = Game::new_with_moves(&game_moves).unwrap();
    let white_pawn_history = game.get_piece_history(PieceName::Apawn, true);
    assert_eq!(white_pawn_history.len(), 2);
    assert_eq!(white_pawn_history[0], Cell { file: 'a', row: 3 });
    assert_eq!(white_pawn_history[1], Cell { file: 'a', row: 3 });

    let black_pawn_history = game.get_piece_history(PieceName::Apawn, false);
    assert_eq!(black_pawn_history.len(), 2);
    assert_eq!(black_pawn_history[0], Cell { file: 'a', row: 7 });
    assert_eq!(black_pawn_history[1], Cell { file: 'a', row: 6 });
}

#[test]
fn test_real_moves() {
    // 1. d4 Nf6 2. Bf4 Nc6 3. e3 d5 4. Nf3 Bf5 5. Nbd2 e6 6. c3 Bd6 7. Bg5 h6
    // 8. Bh4 g5 9. Bg3 Ne4 10. Nxe4 Bxe4
    let mut game = Game::new();

    game.add_move_pair(&parse("d4"), &parse("Nf6")).unwrap();
    let white_piece = game.board.get_live_piece_with_name(PieceName::Dpawn, true).unwrap();
    let black_piece = game.board.get_live_piece_with_name(PieceName::Kknight, false).unwrap();
    assert_eq!(white_piece.get_curr_cell().unwrap(), Cell::new("d4"));
    assert_eq!(black_piece.get_curr_cell().unwrap(), Cell::new("f6"));

    game.add_move_pair(&parse("Bf4"), &parse("Nc6")).unwrap();
    let white_piece = game.board.get_live_piece_with_name(PieceName::Qbishop, true).unwrap();
    let black_piece = game.board.get_live_piece_with_name(PieceName::Qknight, false).unwrap();
    assert_eq!(white_piece.get_curr_cell().unwrap(), Cell::new("f4"));
    assert_eq!(black_piece.get_curr_cell().unwrap(), Cell::new("c6"));

    game.add_move_pair(&parse("e3"), &parse("d5")).unwrap();
    let white_piece = game.board.get_live_piece_with_name(PieceName::Epawn, true).unwrap();
    let black_piece = game.board.get_live_piece_with_name(PieceName::Dpawn, false).unwrap();
    assert_eq!(white_piece.get_curr_cell().unwrap(), Cell::new("e3"));
    assert_eq!(black_piece.get_curr_cell().unwrap(), Cell::new("d5"));

    game.add_move_pair(&parse("Nf3"), &parse("Bf5")).unwrap();
    let white_piece = game.board.get_live_piece_with_name(PieceName::Kknight, true).unwrap();
    let black_piece = game.board.get_live_piece_with_name(PieceName::Qbishop, false).unwrap();
    assert_eq!(white_piece.get_curr_cell().unwrap(), Cell::new("f3"));
    assert_eq!(black_piece.get_curr_cell().unwrap(), Cell::new("f5"));

    game.add_move_pair(&parse("Nbd2"), &parse("e6")).unwrap();
    let white_piece = game.board.get_live_piece_with_name(PieceName::Qknight, true).unwrap();
    let black_piece = game.board.get_live_piece_with_name(PieceName::Epawn, false).unwrap();
    assert_eq!(white_piece.get_curr_cell().unwrap(), Cell::new("d2"));
    assert_eq!(black_piece.get_curr_cell().unwrap(), Cell::new("e6"));

    game.add_move_pair(&parse("c3"), &parse("Bd6")).unwrap();
    let white_piece = game.board.get_live_piece_with_name(PieceName::Cpawn, true).unwrap();
    let black_piece = game.board.get_live_piece_with_name(PieceName::Kbishop, false).unwrap();
    assert_eq!(white_piece.get_curr_cell().unwrap(), Cell::new("c3"));
    assert_eq!(black_piece.get_curr_cell().unwrap(), Cell::new("d6"));

    game.add_move_pair(&parse("Bg5"), &parse("h6")).unwrap();
    let white_piece = game.board.get_live_piece_with_name(PieceName::Qbishop, true).unwrap();
    let black_piece = game.board.get_live_piece_with_name(PieceName::Hpawn, false).unwrap();
    assert_eq!(white_piece.get_curr_cell().unwrap(), Cell::new("g5"));
    assert_eq!(black_piece.get_curr_cell().unwrap(), Cell::new("h6"));

    game.add_move_pair(&parse("Bh4"), &parse("g5")).unwrap();
    let white_piece = game.board.get_live_piece_with_name(PieceName::Qbishop, true).unwrap();
    let black_piece = game.board.get_live_piece_with_name(PieceName::Gpawn, false).unwrap();
    assert_eq!(white_piece.get_curr_cell().unwrap(), Cell::new("h4"));
    assert_eq!(black_piece.get_curr_cell().unwrap(), Cell::new("g5"));

    game.add_move_pair(&parse("Bg3"), &parse("Ne4")).unwrap();
    let white_piece = game.board.get_live_piece_with_name(PieceName::Qbishop, true).unwrap();
    let black_piece = game.board.get_live_piece_with_name(PieceName::Kknight, false).unwrap();
    assert_eq!(white_piece.get_curr_cell().unwrap(), Cell::new("g3"));
    assert_eq!(black_piece.get_curr_cell().unwrap(), Cell::new("e4"));

    game.add_move_pair(&parse("Nxe4"), &parse("Bxe4")).unwrap();
    match game.board.get_live_piece_with_name(PieceName::Qknight, true) {
        Some(_piece) => panic!("This piece was just taken, did not expect to find it."),
        None => (),
    }
    let black_piece = game.board.get_live_piece_with_name(PieceName::Qbishop, false).unwrap();
    assert_eq!(black_piece.get_curr_cell().unwrap(), Cell::new("e4"));
}

#[test]
fn test_bishop_history() {
    let moves = vec![
        parse("d4"),
        parse("Nf6"), // 1
        parse("Bf4"),
        parse("Nc6"), // 2
        parse("e3"),
        parse("d5"), // 3
        parse("Nf3"),
        parse("Bf5"), // 4
        parse("Nbd2"),
        parse("e6"), // 5
        parse("c3"),
        parse("Bd6"), // 6
        parse("Bg5"),
        parse("h6"), // 7
        parse("Bh4"),
        parse("g5"), // 8
        parse("Bg3"),
        parse("Ne4"), // 9
        parse("Nxe4"),
        parse("Bxe4"),
    ]; // 10
    let game = Game::new_with_moves(&moves).unwrap();
    let white_q_bishop_history = game.get_piece_history(PieceName::Qbishop, true);
    assert_eq!(white_q_bishop_history.len(), 20);
    assert_eq!(white_q_bishop_history[0], Cell::new("c1"));
    assert_eq!(white_q_bishop_history[1], Cell::new("c1"));
    assert_eq!(white_q_bishop_history[2], Cell::new("f4"));
    assert_eq!(white_q_bishop_history[3], Cell::new("f4"));
    assert_eq!(white_q_bishop_history[4], Cell::new("f4"));
    assert_eq!(white_q_bishop_history[5], Cell::new("f4"));
    assert_eq!(white_q_bishop_history[6], Cell::new("f4"));
    assert_eq!(white_q_bishop_history[7], Cell::new("f4"));
    assert_eq!(white_q_bishop_history[8], Cell::new("f4"));
    assert_eq!(white_q_bishop_history[9], Cell::new("f4"));
    assert_eq!(white_q_bishop_history[10], Cell::new("f4"));
    assert_eq!(white_q_bishop_history[11], Cell::new("f4"));
    assert_eq!(white_q_bishop_history[12], Cell::new("g5"));
    assert_eq!(white_q_bishop_history[13], Cell::new("g5"));
    assert_eq!(white_q_bishop_history[14], Cell::new("h4"));
    assert_eq!(white_q_bishop_history[15], Cell::new("h4"));
    assert_eq!(white_q_bishop_history[16], Cell::new("g3"));
    assert_eq!(white_q_bishop_history[17], Cell::new("g3"));
    assert_eq!(white_q_bishop_history[18], Cell::new("g3"));
    assert_eq!(white_q_bishop_history[19], Cell::new("g3"));
}

#[test]
fn test_empty_move_list_replays_to_start() {
    let game = Game::new_with_moves(&[]).unwrap();
    let piece = game.board.get_piece_at_cell(&Cell::new("e1")).unwrap();
    assert_eq!(piece.get_name(), PieceName::King);
    assert!(game.get_piece_history(PieceName::King, true).is_empty());
}

#[test]
fn test_kingside_castle_places_king_and_rook() {
    // Clear white's f1 and g1 by hand, then castle kingside.
    let mut game = Game::new();
    game.board.capture_piece_at_cell(&Cell::new("f1"));
    game.board.capture_piece_at_cell(&Cell::new("g1"));
    game.add_move(true, &parse("O-O")).unwrap();
    let king = game.board.get_live_piece_with_name(PieceName::King, true).unwrap();
    assert_eq!(king.get_curr_cell().unwrap(), Cell::new("g1"));
    let rook = game.board.get_live_piece_with_name(PieceName::Krook, true).unwrap();
    assert_eq!(rook.get_curr_cell().unwrap(), Cell::new("f1"));
}

#[test]
fn test_queenside_castle_places_king_and_rook() {
    let mut game = Game::new();
    game.board.capture_piece_at_cell(&Cell::new("b8"));
    game.board.capture_piece_at_cell(&Cell::new("c8"));
    game.board.capture_piece_at_cell(&Cell::new("d8"));
    game.add_move(false, &parse("O-O-O")).unwrap();
    let king = game.board.get_live_piece_with_name(PieceName::King, false).unwrap();
    assert_eq!(king.get_curr_cell().unwrap(), Cell::new("c8"));
    let rook = game.board.get_live_piece_with_name(PieceName::Qrook, false).unwrap();
    assert_eq!(rook.get_curr_cell().unwrap(), Cell::new("d8"));
}

#[test]
fn test_file_hint_resolution_picks_hinted_knight() {
    // After 1. d4 Nf6 2. Bf4 Nc6 3. e3 d5 4. Nf3 Bf5, "Nbd2" must move the
    // queenside knight even though both knights could reach d2.
    let moves = vec![
        parse("d4"),
        parse("Nf6"),
        parse("Bf4"),
        parse("Nc6"),
        parse("e3"),
        parse("d5"),
        parse("Nf3"),
        parse("Bf5"),
    ];
    let mut game = Game::new_with_moves(&moves).unwrap();
    let name = game.get_piece_for_move(true, &parse("Nbd2")).unwrap();
    assert_eq!(name, PieceName::Qknight);
    game.add_move(true, &parse("Nbd2")).unwrap();
    let knight = game.board.get_live_piece_with_name(PieceName::Qknight, true).unwrap();
    assert_eq!(knight.get_curr_cell().unwrap(), Cell::new("d2"));
}
