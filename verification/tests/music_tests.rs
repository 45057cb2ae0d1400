use chessmusic::cell::Cell;
use chessmusic::chess_move::ChessError;
use chessmusic::chessmusic::{chords_from_pitches_by_piece, play_game};
use chessmusic::melody::Melody;
use chessmusic::note::Note;
use chessmusic::pitch::Pitch;
use chessmusic::types::PieceName;

#[test]
fn note_test_new_pitch_with_cell() {
    let pitch = Note::new_with_cell(&Cell::new("a1"));
    assert_eq!(pitch.base_midi, 57);
    assert_eq!(pitch.adjustment, 0);
}

#[test]
fn note_test_new_pitch_with_cell_diff() {
    let pitch = Note::new_with_file('a');
    let new_pitch = pitch.new_with_cell_diff((0, 1));
    assert_eq!(new_pitch.base_midi, 59);
    assert_eq!(new_pitch.adjustment, 0);

    let new_pitch = pitch.new_with_cell_diff((1, 0));
    assert_eq!(new_pitch.base_midi, 57);
    assert_eq!(new_pitch.adjustment, 1);
}

#[test]
fn note_test_get_pitches_from_cell_history() {
    let cell_history = vec![Cell::new("a2"), Cell::new("a3"), Cell::new("a4")];
    let pitches = Note::get_pitches_from_cell_history(&cell_history);
    assert_eq!(pitches[0], Note { base_midi: 57, adjustment: 1, velocity: 80 });
    assert_eq!(pitches[1], Note { base_midi: 59, adjustment: 1, velocity: 80 });
    assert_eq!(pitches[2], Note { base_midi: 61, adjustment: 1, velocity: 80 });
}

#[test]
fn pitch_test_new_pitch_with_cell() {
    let pitch = Pitch::new_with_cell(&Cell::new("a1"));
    assert_eq!(pitch.base_midi, 57);
    assert_eq!(pitch.adjustment, 0);
}

#[test]
fn pitch_test_new_pitch_with_cell_diff() {
    let pitch = Pitch::new('a');
    let new_pitch = pitch.new_with_cell_diff((0, 1));
    assert_eq!(new_pitch.base_midi, 59);
    assert_eq!(new_pitch.adjustment, 0);

    let new_pitch = pitch.new_with_cell_diff((1, 0));
    assert_eq!(new_pitch.base_midi, 57);
    assert_eq!(new_pitch.adjustment, 1);
}

#[test]
fn pitch_test_get_pitches_from_cell_history() {
    let cell_history = vec![Cell::new("a2"), Cell::new("a3"), Cell::new("a4")];
    let pitches = Pitch::get_pitches_from_cell_history(&cell_history);
    assert_eq!(pitches[0], Pitch { base_midi: 57, adjustment: 1 });
    assert_eq!(pitches[1], Pitch { base_midi: 59, adjustment: 1 });
    assert_eq!(pitches[2], Pitch { base_midi: 61, adjustment: 1 });
}

#[test]
fn test_file_to_midi_scale() {
    assert_eq!(Note::new_with_file('a').base_midi, 57);
    assert_eq!(Note::new_with_file('b').base_midi, 59);
    assert_eq!(Note::new_with_file('c').base_midi, 60);
    assert_eq!(Note::new_with_file('d').base_midi, 62);
    assert_eq!(Note::new_with_file('e').base_midi, 64);
    assert_eq!(Note::new_with_file('f').base_midi, 65);
    assert_eq!(Note::new_with_file('g').base_midi, 67);
    assert_eq!(Note::new_with_file('h').base_midi, 69);
}

#[test]
fn test_as_midi_adds_adjustment() {
    let note = Note { base_midi: 60, adjustment: 2, velocity: 80 };
    assert_eq!(note.as_midi(), 62u8);
}

#[test]
fn test_compose_with_cell_history_vertical() {
    let starting_note = Note::new(50);
    let cell_history = &[
        (Cell::new("a2"), false),
        (Cell::new("a3"), false),
        (Cell::new("a4"), false),
    ];
    let melody = Melody::compose_with_cell_history(cell_history, starting_note);
    assert_eq!(melody.len(), 3);
    assert_eq!(melody[0].as_midi(), 50);
    assert_eq!(melody[1].as_midi(), 52);
    assert_eq!(melody[2].as_midi(), 54);
}

#[test]
fn test_compose_with_cell_history_horizontal() {
    let starting_note = Note::new(50);
    let cell_history = &[
        (Cell::new("a2"), false),
        (Cell::new("b2"), false),
        (Cell::new("c2"), false),
    ];
    let melody = Melody::compose_with_cell_history(cell_history, starting_note);
    assert_eq!(melody.len(), 3);
    assert_eq!(melody[0].as_midi(), 50);
    assert_eq!(melody[1].as_midi(), 51);
    assert_eq!(melody[2].as_midi(), 52);
}

#[test]
fn test_compose_with_cell_history_diagonal() {
    let starting_note = Note::new(50);
    let cell_history = &[
        (Cell::new("a2"), false),
        (Cell::new("b3"), false),
        (Cell::new("c4"), false),
    ];
    let melody = Melody::compose_with_cell_history(cell_history, starting_note);
    assert_eq!(melody.len(), 3);
    assert_eq!(melody[0].as_midi(), 50);
    assert_eq!(melody[1].as_midi(), 53);
    assert_eq!(melody[2].as_midi(), 56);
}

#[test]
fn test_melody_new_wraps_composed_notes() {
    let history = [(Cell::new("e2"), false), (Cell::new("e4"), true)];
    let melody = Melody::new(&history, Note::new(120));
    assert_eq!(melody.notes.len(), 2);
    assert_eq!(melody.notes[0], Note { base_midi: 120, adjustment: 0, velocity: 80 });
    assert_eq!(melody.notes[1], Note { base_midi: 124, adjustment: 0, velocity: 80 });
}

#[test]
fn test_chords_from_pitches_by_piece_with_equal_length() {
    let cell_history1 = vec![Cell::new("a2"), Cell::new("a3"), Cell::new("a4")];
    let pitches1 = Note::get_pitches_from_cell_history(&cell_history1);
    let cell_history2 = vec![Cell::new("c2"), Cell::new("c3"), Cell::new("d4")];
    let pitches2 = Note::get_pitches_from_cell_history(&cell_history2);
    let pitches_by_piece = vec![pitches1, pitches2];
    let chords = chords_from_pitches_by_piece(&pitches_by_piece);

    assert_eq!(chords.len(), 3);
    assert_eq!(chords[0].len(), 2);
    assert_eq!(chords[1].len(), 2);
    assert_eq!(chords[2].len(), 2);

    assert_eq!(
        chords[0],
        vec![
            Note { base_midi: 57, adjustment: 1, velocity: 80 },
            Note { base_midi: 60, adjustment: 1, velocity: 80 }
        ]
    );
    assert_eq!(
        chords[1],
        vec![
            Note { base_midi: 59, adjustment: 1, velocity: 80 },
            Note { base_midi: 62, adjustment: 1, velocity: 80 }
        ]
    );
    assert_eq!(
        chords[2],
        vec![
            Note { base_midi: 61, adjustment: 1, velocity: 80 },
            Note { base_midi: 64, adjustment: 2, velocity: 80 }
        ]
    );
}

#[test]
fn test_chords_from_pitches_by_piece_with_different_length() {
    let cell_history1 = vec![Cell::new("a2"), Cell::new("a3")];
    let pitches1 = Note::get_pitches_from_cell_history(&cell_history1);
    let cell_history2 = vec![Cell::new("c2"), Cell::new("c2"), Cell::new("c2")];
    let pitches2 = Note::get_pitches_from_cell_history(&cell_history2);
    let pitches_by_piece = vec![pitches1, pitches2];
    let chords = chords_from_pitches_by_piece(&pitches_by_piece);

    assert_eq!(chords.len(), 3);
    assert_eq!(chords[0].len(), 2);
    assert_eq!(chords[1].len(), 2);
    assert_eq!(chords[2].len(), 1);

    assert_eq!(
        chords[0],
        vec![
            Note { base_midi: 57, adjustment: 1, velocity: 80 },
            Note { base_midi: 60, adjustment: 1, velocity: 80 }
        ]
    );
    assert_eq!(
        chords[1],
        vec![
            Note { base_midi: 59, adjustment: 1, velocity: 80 },
            Note { base_midi: 60, adjustment: 1, velocity: 80 }
        ]
    );
    assert_eq!(
        chords[2],
        vec![Note { base_midi: 60, adjustment: 1, velocity: 80 }]
    );
}

#[test]
fn test_play_game_single_pawn() {
    // Two plies: the white a-pawn to a3, the black a-pawn to a6. Tracking
    // only the white a-pawn gives one note per ply, both at the start pitch
    // because the pawn never changes row after its first move is recorded.
    let chords = play_game("1. a3 a6 1-0", &[(PieceName::Apawn, true)]).unwrap();
    assert_eq!(chords.len(), 2);
    assert_eq!(chords[0], vec![120u8]);
    assert_eq!(chords[1], vec![120u8]);
}

#[test]
fn test_play_game_tracks_row_changes() {
    // The white e-pawn advances a second time on ply three: the melody
    // starts at the base note and steps up two semitones for the one-row
    // push from e4 to e5.
    let chords = play_game("1. e4 a6 2. e5 b6 1-0", &[(PieceName::Epawn, true)]).unwrap();
    assert_eq!(chords.len(), 4);
    assert_eq!(chords[0], vec![120u8]);
    assert_eq!(chords[1], vec![120u8]);
    assert_eq!(chords[2], vec![122u8]);
    assert_eq!(chords[3], vec![122u8]);
}

#[test]
fn test_play_game_rejects_record_without_moves() {
    let result = play_game("[Event \"x\"]\n", &[(PieceName::Apawn, true)]);
    assert_eq!(result, Err(ChessError::MalformedGameRecord));
}

#[test]
fn test_play_game_rejects_malformed_token() {
    let result = play_game("1. zz 1-0", &[(PieceName::Apawn, true)]);
    assert_eq!(result, Err(ChessError::MalformedMove));
}

#[test]
fn test_play_game_reports_unresolvable_move() {
    let result = play_game("1. Qh5 1-0", &[(PieceName::Apawn, true)]);
    assert!(matches!(result, Err(ChessError::UnresolvableMove { white: true, .. })));
}
