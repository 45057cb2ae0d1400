use vstd::prelude::*;

use crate::board::{has_piece, piece_index};
use crate::chess_move::{parse_token_list, ChessError, Move};
use crate::pgn::parse_moves_tokens;
use crate::game::{replay_spec, Game};
use crate::melody::{compose_fits, composed_notes, melody_from_history};
use crate::note::Note;
use crate::piece::{cell_capture_history, PieceModel};
use crate::cell::Cell;
use crate::types::{start_cell_spec, PieceName};

verus! {

/// The per-ply (cell, capture) history of one tracked piece on a replayed
/// board.
pub open spec fn piece_history_spec(board: Seq<PieceModel>, name: PieceName, white: bool) -> Seq<
    (Cell, bool),
> {
    cell_capture_history(start_cell_spec(name, white), board[piece_index(board, name, white)].history)
}

/// The note every melody starts from.
pub open spec fn start_note() -> Note {
    Note { base_midi: 120, adjustment: 0, velocity: 80 }
}

/// The length of the longest melody.
pub open spec fn max_notes_len(mels: Seq<Seq<Note>>) -> int
    decreases mels.len(),
{
    if mels.len() == 0 {
        0
    } else {
        let rest = max_notes_len(mels.drop_last());
        if mels.last().len() > rest {
            mels.last().len() as int
        } else {
            rest
        }
    }
}

/// Row `n` across the first `upto` melodies: the `n`-th note of every
/// melody long enough to have one, in melody order.
pub open spec fn chord_row(mels: Seq<Seq<Note>>, n: int, upto: int) -> Seq<Note>
    decreases upto,
{
    if upto <= 0 {
        Seq::empty()
    } else {
        chord_row(mels, n, upto - 1) + if n < mels[upto - 1].len() {
            seq![mels[upto - 1][n]]
        } else {
            Seq::empty()
        }
    }
}

/// The chord sequence of a set of melodies: one chord per tick up to the
/// longest melody, holding the tick's note from every melody still sounding.
pub open spec fn chords_spec(mels: Seq<Seq<Note>>) -> Seq<Seq<Note>> {
    Seq::new(max_notes_len(mels) as nat, |n: int| chord_row(mels, n, mels.len() as int))
}

/// The notation tokens of a game record, as character sequences.
pub open spec fn token_views(game: Seq<char>, bounds: Seq<(int, int)>) -> Seq<Seq<char>> {
    Seq::new(bounds.len(), |k: int| game.subrange(bounds[k].0, bounds[k].1))
}

/// What playing a recorded game yields: the record's tokens are parsed and
/// replayed, each tracked piece's history becomes a melody from the fixed
/// starting note, the melodies are stacked into chords, and each note
/// becomes its MIDI byte. A record whose replay would push a note outside
/// the machine's range is reported as malformed.
#[verifier::opaque]
pub open spec fn play_game_spec(game: Seq<char>, pieces: Seq<(PieceName, bool)>) -> Result<
    Seq<Seq<u8>>,
    ChessError,
> {
    match parse_moves_tokens(game) {
        Err(e) => Err(e),
        Ok(bounds) => match parse_token_list(token_views(game, bounds)) {
            Err(e) => Err(e),
            Ok(moves) => {
                if replay_spec(moves).1 is Some {
                    Err(replay_spec(moves).1->0)
                } else {
                    let board = replay_spec(moves).0;
                    if exists|p: int|
                        0 <= p < pieces.len() && !compose_fits(
                            start_note(),
                            piece_history_spec(board, (#[trigger] pieces[p]).0, pieces[p].1),
                        ) {
                        Err(ChessError::MalformedGameRecord)
                    } else {
                        let mels = Seq::new(
                            pieces.len(),
                            |p: int|
                                composed_notes(
                                    start_note(),
                                    piece_history_spec(board, pieces[p].0, pieces[p].1),
                                ),
                        );
                        let chords = chords_spec(mels);
                        if exists|n: int, j: int|
                            0 <= n < chords.len() && 0 <= j < chords[n].len() && !(0
                                <= (#[trigger] chords[n][j]).base_midi + chords[n][j].adjustment
                                <= 255) {
                            Err(ChessError::MalformedGameRecord)
                        } else {
                            Ok(
                                Seq::new(
                                    chords.len(),
                                    |n: int|
                                        chords[n].map_values(
                                            |note: Note| (note.base_midi + note.adjustment) as u8,
                                        ),
                                ),
                            )
                        }
                    }
                }
            },
        },
    }
}

/// Stacks melodies into chords: chord `n` holds the `n`-th note of every
/// melody that still has one, in melody order, up to the longest melody.
pub fn chords_from_pitches_by_piece(pitches_by_piece: &[Vec<Note>]) -> (r: Vec<Vec<Note>>)
    requires
        pitches_by_piece@.len() >= 1,
    ensures
        ({
            let mels = pitches_by_piece@.map_values(|v: Vec<Note>| v@);
            &&& r@.len() == max_notes_len(mels)
            &&& forall|n: int| 0 <= n < r@.len() ==> (#[trigger] r@[n])@ == chord_row(mels, n, mels.len() as int)
        }),
{
    let ghost mels = pitches_by_piece@.map_values(|v: Vec<Note>| v@);
    let count = pitches_by_piece.len();
    let mut longest: usize = 0;
    let mut i: usize = 0;
    while i < count
        invariant
            i <= count,
            count == mels.len(),
            mels == pitches_by_piece@.map_values(|v: Vec<Note>| v@),
            longest == max_notes_len(mels.subrange(0, i as int)),
        decreases count - i,
    {
        proof {
            assert(mels.subrange(0, i + 1).drop_last() =~= mels.subrange(0, i as int));
            assert(mels.subrange(0, i + 1).last() == mels[i as int]);
            assert(mels[i as int] == pitches_by_piece@[i as int]@);
        }
        if pitches_by_piece[i].len() > longest {
            longest = pitches_by_piece[i].len();
        }
        i = i + 1;
    }
    proof {
        assert(mels.subrange(0, count as int) =~= mels);
    }
    let mut chords: Vec<Vec<Note>> = Vec::new();
    let mut n: usize = 0;
    while n < longest
        invariant
            n <= longest,
            count == mels.len(),
            mels == pitches_by_piece@.map_values(|v: Vec<Note>| v@),
            longest == max_notes_len(mels),
            chords@.len() == n,
            forall|m: int|
                0 <= m < n ==> (#[trigger] chords@[m])@ == chord_row(mels, m, mels.len() as int),
        decreases longest - n,
    {
        let mut chord: Vec<Note> = Vec::new();
        let mut j: usize = 0;
        while j < count
            invariant
                j <= count,
                count == mels.len(),
                mels == pitches_by_piece@.map_values(|v: Vec<Note>| v@),
                chord@ == chord_row(mels, n as int, j as int),
            decreases count - j,
        {
            proof {
                assert(mels[j as int] == pitches_by_piece@[j as int]@);
            }
            if n < pitches_by_piece[j].len() {
                chord.push(pitches_by_piece[j][n]);
                proof {
                    assert(chord@ =~= chord@.drop_last() + seq![mels[j as int][n as int]]);
                }
            } else {
                proof {
                    assert(chord@ =~= chord@ + Seq::<Note>::empty());
                }
            }
            j = j + 1;
        }
        chords.push(chord);
        n = n + 1;
    }
    chords
}

/// Plays a recorded game: extracts and parses the notation tokens, replays
/// them against a fresh board, turns each tracked piece's per-ply history
/// into a melody, stacks the melodies into chords, and returns each chord
/// as MIDI bytes.
#[verifier::rlimit(100)]
pub fn play_game(game_str: &str, pieces: &[(PieceName, bool)]) -> (r: Result<
    Vec<Vec<u8>>,
    ChessError,
>)
    requires
        pieces@.len() >= 1,
    ensures
        match r {
            Ok(bytes) => {
                &&& play_game_spec(game_str@, pieces@) is Ok
                &&& bytes@.len() == play_game_spec(game_str@, pieces@)->Ok_0.len()
                &&& forall|n: int|
                    0 <= n < bytes@.len() ==> (#[trigger] bytes@[n])@ == play_game_spec(
                        game_str@,
                        pieces@,
                    )->Ok_0[n]
            },
            Err(e) => play_game_spec(game_str@, pieces@) == Err::<Seq<Seq<u8>>, ChessError>(e),
        },
{
    let str_moves = match crate::pgn::parse_moves(game_str) {
        Ok(tokens) => tokens,
        Err(e) => {
            proof {
                reveal(play_game_spec);
            }
            return Err(e);
        },
    };
    let ghost gbounds = parse_moves_tokens(game_str@)->Ok_0;
    proof {
        assert(str_moves@.map_values(|s: &str| s@) =~= token_views(game_str@, gbounds));
        crate::chess_move::lemma_parse_moves_spec_views(str_moves@);
    }
    let moves = match Move::parse_moves(str_moves.as_slice()) {
        Ok(m) => m,
        Err(e) => {
            proof {
                reveal(play_game_spec);
                assert(parse_token_list(token_views(game_str@, gbounds)) == Err::<
                    Seq<Move>,
                    ChessError,
                >(e));
            }
            return Err(e);
        },
    };
    let ghost mseq = moves@;
    proof {
        assert(parse_token_list(token_views(game_str@, gbounds)) == Ok::<Seq<Move>, ChessError>(
            mseq,
        ));
    }
    let game = match Game::new_with_moves(moves.as_slice()) {
        Ok(g) => g,
        Err(e) => {
            proof {
                reveal(play_game_spec);
            }
            return Err(e);
        },
    };
    let ghost board = game@;
    let count = pieces.len();
    let mut melodies: Vec<Vec<Note>> = Vec::new();
    let mut p: usize = 0;
    while p < count
        invariant
            p <= count,
            count == pieces@.len(),
            game@ == board,
            crate::board::board_wf(board),
            forall|name: PieceName, white: bool| has_piece(board, name, white),
            parse_moves_tokens(game_str@) == Ok::<Seq<(int, int)>, ChessError>(gbounds),
            parse_token_list(token_views(game_str@, gbounds)) == Ok::<Seq<Move>, ChessError>(mseq),
            replay_spec(mseq).1 is None,
            replay_spec(mseq).0 == board,
            melodies@.len() == p,
            forall|j: int|
                0 <= j < p ==> compose_fits(
                    start_note(),
                    piece_history_spec(board, (#[trigger] pieces@[j]).0, pieces@[j].1),
                ),
            forall|j: int|
                0 <= j < p ==> (#[trigger] melodies@[j])@ == composed_notes(
                    start_note(),
                    piece_history_spec(board, pieces@[j].0, pieces@[j].1),
                ),
        decreases count - p,
    {
        let (piece_name, white) = pieces[p];
        let piece = game.board.get_piece_with_name(piece_name, white);
        let history = piece.get_cell_and_capture_history();
        proof {
            assert(history@ == piece_history_spec(board, piece_name, white));
        }
        match melody_from_history(history.as_slice(), Note::new(120)) {
            Some(melody) => {
                proof {
                    assert(melody.notes@ =~= composed_notes(start_note(), history@));
                }
                melodies.push(melody.notes);
            },
            None => {
                proof {
                    reveal(play_game_spec);
                    let witness = p as int;
                    assert(!compose_fits(
                        start_note(),
                        piece_history_spec(board, (pieces@[witness]).0, pieces@[witness].1),
                    ));
                    assert(exists|pp: int|
                        0 <= pp < pieces@.len() && !compose_fits(
                            start_note(),
                            piece_history_spec(board, (#[trigger] pieces@[pp]).0, pieces@[pp].1),
                        ));
                }
                return Err(ChessError::MalformedGameRecord);
            },
        }
        p = p + 1;
    }
    let ghost mels = Seq::new(
        pieces@.len(),
        |j: int| composed_notes(start_note(), piece_history_spec(board, pieces@[j].0, pieces@[j].1)),
    );
    proof {
        assert(melodies@.map_values(|v: Vec<Note>| v@) =~= mels);
    }
    let chords = chords_from_pitches_by_piece(melodies.as_slice());
    let ghost chords_s = chords_spec(mels);
    proof {
        assert(chords@.len() == chords_s.len());
        assert(forall|n: int| 0 <= n < chords@.len() ==> (#[trigger] chords@[n])@ == chords_s[n]);
    }
    let ghost all_fit = forall|j: int|
        0 <= j < pieces@.len() ==> compose_fits(
            start_note(),
            piece_history_spec(board, (#[trigger] pieces@[j]).0, pieces@[j].1),
        );
    assert(all_fit);
    let mut bytes: Vec<Vec<u8>> = Vec::new();
    let chord_count = chords.len();
    let mut n: usize = 0;
    while n < chord_count
        invariant
            n <= chord_count,
            count == pieces@.len(),
            pieces@.len() >= 1,
            chord_count == chords@.len(),
            chords@.len() == chords_s.len(),
            parse_moves_tokens(game_str@) == Ok::<Seq<(int, int)>, ChessError>(gbounds),
            parse_token_list(token_views(game_str@, gbounds)) == Ok::<Seq<Move>, ChessError>(mseq),
            replay_spec(mseq).1 is None,
            replay_spec(mseq).0 == board,
            all_fit,
            all_fit == (forall|j: int|
                0 <= j < pieces@.len() ==> compose_fits(
                    start_note(),
                    piece_history_spec(board, (#[trigger] pieces@[j]).0, pieces@[j].1),
                )),
            mels == Seq::new(
                pieces@.len(),
                |j: int|
                    composed_notes(
                        start_note(),
                        piece_history_spec(board, pieces@[j].0, pieces@[j].1),
                    ),
            ),
            chords_s == chords_spec(mels),
            forall|m: int| 0 <= m < chords@.len() ==> (#[trigger] chords@[m])@ == chords_s[m],
            bytes@.len() == n,
            forall|m: int, j: int|
                0 <= m < n && 0 <= j < chords_s[m].len() ==> 0 <= (#[trigger] chords_s[m][j]).base_midi + chords_s[m][j].adjustment <= 255,
            forall|m: int|
                0 <= m < n ==> (#[trigger] bytes@[m])@ == chords_s[m].map_values(
                    |note: Note| (note.base_midi + note.adjustment) as u8,
                ),
        decreases chord_count - n,
    {
        let chord = &chords[n];
        let note_count = chord.len();
        let mut row: Vec<u8> = Vec::new();
        let mut j: usize = 0;
        while j < note_count
            invariant
                j <= note_count,
                count == pieces@.len(),
                pieces@.len() >= 1,
                note_count == chord@.len(),
                n < chords_s.len(),
                chord@ == chords_s[n as int],
                parse_moves_tokens(game_str@) == Ok::<Seq<(int, int)>, ChessError>(gbounds),
                parse_token_list(token_views(game_str@, gbounds)) == Ok::<Seq<Move>, ChessError>(
                    mseq,
                ),
                replay_spec(mseq).1 is None,
                replay_spec(mseq).0 == board,
                all_fit,
                all_fit == (forall|jj: int|
                    0 <= jj < pieces@.len() ==> compose_fits(
                        start_note(),
                        piece_history_spec(board, (#[trigger] pieces@[jj]).0, pieces@[jj].1),
                    )),
                mels == Seq::new(
                    pieces@.len(),
                    |jj: int|
                        composed_notes(
                            start_note(),
                            piece_history_spec(board, pieces@[jj].0, pieces@[jj].1),
                        ),
                ),
                chords_s == chords_spec(mels),
                row@.len() == j,
                forall|l: int|
                    0 <= l < j ==> 0 <= (#[trigger] chord@[l]).base_midi + chord@[l].adjustment
                        <= 255,
                forall|l: int|
                    0 <= l < j ==> (#[trigger] row@[l]) as int == chord@[l].base_midi
                        + chord@[l].adjustment,
            decreases note_count - j,
        {
            let note = chord[j];
            let v: i64 = note.base_midi as i64 + note.adjustment as i64;
            if v < 0 || v > 255 {
                proof {
                    reveal(play_game_spec);
                    assert(!(0 <= chords_s[n as int][j as int].base_midi + chords_s[n as int][
                        j as int].adjustment <= 255));
                    assert(exists|m: int, l: int|
                        0 <= m < chords_s.len() && 0 <= l < chords_s[m].len() && !(0
                            <= (#[trigger] chords_s[m][l]).base_midi + chords_s[m][l].adjustment
                            <= 255));
                }
                return Err(ChessError::MalformedGameRecord);
            }
            row.push(note.as_midi());
            j = j + 1;
        }
        proof {
            assert(row@ =~= chords_s[n as int].map_values(
                |note: Note| (note.base_midi + note.adjustment) as u8,
            ));
        }
        bytes.push(row);
        n = n + 1;
    }
    proof {
        reveal(play_game_spec);
        assert(!(exists|pp: int|
            0 <= pp < pieces@.len() && !compose_fits(
                start_note(),
                piece_history_spec(board, (#[trigger] pieces@[pp]).0, pieces@[pp].1),
            )));
        assert(!(exists|m: int, l: int|
            0 <= m < chords_s.len() && 0 <= l < chords_s[m].len() && !(0 <= (#[trigger] chords_s[m][l]).base_midi + chords_s[m][l].adjustment <= 255)));
        let result = play_game_spec(game_str@, pieces@);
        assert(result is Ok);
        assert(result->Ok_0.len() == bytes@.len());
        assert forall|m: int| 0 <= m < bytes@.len() implies (#[trigger] bytes@[m])@ == result->Ok_0[m] by {
            assert(result->Ok_0[m] == chords_s[m].map_values(
                |note: Note| (note.base_midi + note.adjustment) as u8,
            ));
        }
    }
    Ok(bytes)
}

} // verus!
