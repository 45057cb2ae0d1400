use vstd::prelude::*;

use crate::cell::{valid_cell, valid_file, Cell};

verus! {

/// One playable note: a base MIDI pitch, a semitone adjustment, and a
/// velocity.
#[derive(Debug, Copy, Clone, PartialEq, Eq, Structural)]
pub struct Note {
    pub base_midi: i32,
    pub adjustment: i32,
    pub velocity: i32,
}

/// The base MIDI pitch of each board file: the A minor scale from A3
/// upwards, one degree per file.
pub open spec fn file_to_midi_spec(file: char) -> int {
    if file == 'a' {
        57
    } else if file == 'b' {
        59
    } else if file == 'c' {
        60
    } else if file == 'd' {
        62
    } else if file == 'e' {
        64
    } else if file == 'f' {
        65
    } else if file == 'g' {
        67
    } else {
        69
    }
}

/// The note a cell sounds as: the file picks the base pitch, the row above
/// row 1 sharpens it one semitone per row.
pub open spec fn note_of_cell(c: Cell) -> Note {
    Note { base_midi: file_to_midi_spec(c.file) as i32, adjustment: (c.row - 1) as i32, velocity: 80 }
}

/// Transposing a note moves the base pitch two semitones per whole step and
/// the adjustment one per half step.
pub open spec fn transposed(n: Note, half_steps: int, whole_steps: int) -> Note {
    Note {
        base_midi: (n.base_midi + 2 * whole_steps) as i32,
        adjustment: (n.adjustment + half_steps) as i32,
        velocity: 80,
    }
}

fn file_to_midi(file: char) -> (r: i32)
    requires
        valid_file(file),
    ensures
        r as int == file_to_midi_spec(file),
{
    if file == 'a' {
        57
    } else if file == 'b' {
        59
    } else if file == 'c' {
        60
    } else if file == 'd' {
        62
    } else if file == 'e' {
        64
    } else if file == 'f' {
        65
    } else if file == 'g' {
        67
    } else {
        assert(file == 'h');
        69
    }
}

impl Note {
    /// A plain note at the given MIDI pitch.
    pub fn new(midi_note: i32) -> (r: Note)
        ensures
            r == (Note { base_midi: midi_note, adjustment: 0, velocity: 80 }),
    {
        Note { base_midi: midi_note, adjustment: 0, velocity: 80 }
    }

    /// The unadjusted note of a board file.
    pub fn new_with_file(file: char) -> (r: Note)
        requires
            valid_file(file),
        ensures
            r == (Note { base_midi: file_to_midi_spec(file) as i32, adjustment: 0, velocity: 80 }),
    {
        Note { base_midi: file_to_midi(file), adjustment: 0, velocity: 80 }
    }

    /// The note a board cell sounds as.
    pub fn new_with_cell(cell: &Cell) -> (r: Note)
        requires
            valid_cell(*cell),
        ensures
            r == note_of_cell(*cell),
    {
        Note { base_midi: file_to_midi(cell.file), adjustment: cell.row - 1, velocity: 80 }
    }

    /// Transposes by a board delta: `x` files become adjustment half steps,
    /// `y` rows become two semitones each on the base pitch.
    pub fn new_with_cell_diff(&self, cell_diff: (i32, i32)) -> (r: Note)
        requires
            i32::MIN <= 2 * (cell_diff.1 as int) <= i32::MAX,
            i32::MIN <= self.base_midi + 2 * (cell_diff.1 as int) <= i32::MAX,
            i32::MIN <= self.adjustment + cell_diff.0 <= i32::MAX,
        ensures
            r == transposed(*self, cell_diff.0 as int, cell_diff.1 as int),
    {
        let (x, y) = cell_diff;
        Note { base_midi: self.base_midi + 2 * y, adjustment: self.adjustment + x, velocity: 80 }
    }

    /// Transposes by whole and half steps.
    pub fn new_with_transpsition(&self, whole_steps: i32, half_steps: i32) -> (r: Note)
        requires
            i32::MIN <= 2 * (whole_steps as int) <= i32::MAX,
            i32::MIN <= self.base_midi + 2 * (whole_steps as int) <= i32::MAX,
            i32::MIN <= self.adjustment + half_steps <= i32::MAX,
        ensures
            r == transposed(*self, half_steps as int, whole_steps as int),
    {
        self.new_with_cell_diff((half_steps, whole_steps))
    }

    /// The note as one MIDI byte: the base pitch plus the adjustment, which
    /// must lie in the MIDI byte range.
    pub fn as_midi(&self) -> (r: u8)
        requires
            0 <= self.base_midi + self.adjustment <= 255,
        ensures
            r as int == self.base_midi + self.adjustment,
    {
        (self.base_midi + self.adjustment) as u8
    }

    /// The notes a cell history sounds as: the first cell's own note, then,
    /// for every later cell, that note transposed by the delta from the
    /// first cell.
    pub fn get_pitches_from_cell_history(cell_history: &Vec<Cell>) -> (r: Vec<Note>)
        requires
            cell_history@.len() >= 1,
            forall|k: int| 0 <= k < cell_history@.len() ==> valid_cell(#[trigger] cell_history@[k]),
        ensures
            r@.len() == cell_history@.len(),
            r@[0] == note_of_cell(cell_history@[0]),
            forall|k: int|
                1 <= k < cell_history@.len() ==> r@[k] == transposed(
                    note_of_cell(cell_history@[0]),
                    cell_history@[k].file as int - cell_history@[0].file as int,
                    cell_history@[k].row as int - cell_history@[0].row as int,
                ),
    {
        let base_cell = cell_history[0];
        let base_pitch = Note::new_with_cell(&base_cell);
        let mut pitches: Vec<Note> = Vec::new();
        pitches.push(base_pitch);
        let n = cell_history.len();
        let mut i: usize = 1;
        while i < n
            invariant
                1 <= i <= n,
                n == cell_history@.len(),
                base_cell == cell_history@[0],
                valid_cell(base_cell),
                forall|k: int|
                    0 <= k < cell_history@.len() ==> valid_cell(#[trigger] cell_history@[k]),
                base_pitch == note_of_cell(base_cell),
                pitches@.len() == i,
                pitches@[0] == note_of_cell(base_cell),
                forall|k: int|
                    1 <= k < i ==> pitches@[k] == transposed(
                        note_of_cell(cell_history@[0]),
                        cell_history@[k].file as int - cell_history@[0].file as int,
                        cell_history@[k].row as int - cell_history@[0].row as int,
                    ),
            decreases n - i,
        {
            let cell = cell_history[i];
            let cell_diff = base_cell.get_cell_diff(&cell);
            let new_pitch = base_pitch.new_with_cell_diff(cell_diff);
            pitches.push(new_pitch);
            i = i + 1;
        }
        pitches
    }
}

} // verus!
