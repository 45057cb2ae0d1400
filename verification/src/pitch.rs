use vstd::prelude::*;

use crate::cell::{valid_cell, valid_file, Cell};
use crate::note::file_to_midi_spec;

verus! {

/// One pitch: a base MIDI value and a semitone adjustment.
#[derive(Debug, Copy, Clone, PartialEq, Eq, Structural)]
pub struct Pitch {
    pub base_midi: i32,
    pub adjustment: i32,
}

/// The pitch a cell sounds as: the file picks the base value, the row above
/// row 1 sharpens it one semitone per row.
pub open spec fn pitch_of_cell(c: Cell) -> Pitch {
    Pitch { base_midi: file_to_midi_spec(c.file) as i32, adjustment: (c.row - 1) as i32 }
}

/// Transposing a pitch moves the base value two semitones per whole step
/// and the adjustment one per half step.
pub open spec fn pitch_transposed(p: Pitch, half_steps: int, whole_steps: int) -> Pitch {
    Pitch {
        base_midi: (p.base_midi + 2 * whole_steps) as i32,
        adjustment: (p.adjustment + half_steps) as i32,
    }
}

impl Pitch {
    /// The unadjusted pitch of a board file.
    pub fn new(file: char) -> (r: Pitch)
        requires
            valid_file(file),
        ensures
            r == (Pitch { base_midi: file_to_midi_spec(file) as i32, adjustment: 0 }),
    {
        let note = crate::note::Note::new_with_file(file);
        Pitch { base_midi: note.base_midi, adjustment: 0 }
    }

    /// The pitch a board cell sounds as.
    pub fn new_with_cell(cell: &Cell) -> (r: Pitch)
        requires
            valid_cell(*cell),
        ensures
            r == pitch_of_cell(*cell),
    {
        let note = crate::note::Note::new_with_cell(cell);
        Pitch { base_midi: note.base_midi, adjustment: note.adjustment }
    }

    /// Transposes by a board delta: `x` files become adjustment half steps,
    /// `y` rows become two semitones each on the base value.
    pub fn new_with_cell_diff(&self, cell_diff: (i32, i32)) -> (r: Pitch)
        requires
            i32::MIN <= 2 * (cell_diff.1 as int) <= i32::MAX,
            i32::MIN <= self.base_midi + 2 * (cell_diff.1 as int) <= i32::MAX,
            i32::MIN <= self.adjustment + cell_diff.0 <= i32::MAX,
        ensures
            r == pitch_transposed(*self, cell_diff.0 as int, cell_diff.1 as int),
    {
        let (x, y) = cell_diff;
        Pitch { base_midi: self.base_midi + 2 * y, adjustment: self.adjustment + x }
    }

    /// The pitch as one MIDI byte: base value plus adjustment, which must
    /// lie in the MIDI byte range.
    pub fn as_midi(&self) -> (r: u8)
        requires
            0 <= self.base_midi + self.adjustment <= 255,
        ensures
            r as int == self.base_midi + self.adjustment,
    {
        (self.base_midi + self.adjustment) as u8
    }

    /// The pitches a cell history sounds as: the first cell's own pitch,
    /// then, for every later cell, that pitch transposed by the delta from
    /// the first cell.
    pub fn get_pitches_from_cell_history(cell_history: &Vec<Cell>) -> (r: Vec<Pitch>)
        requires
            cell_history@.len() >= 1,
            forall|k: int| 0 <= k < cell_history@.len() ==> valid_cell(#[trigger] cell_history@[k]),
        ensures
            r@.len() == cell_history@.len(),
            r@[0] == pitch_of_cell(cell_history@[0]),
            forall|k: int|
                1 <= k < cell_history@.len() ==> r@[k] == pitch_transposed(
                    pitch_of_cell(cell_history@[0]),
                    cell_history@[k].file as int - cell_history@[0].file as int,
                    cell_history@[k].row as int - cell_history@[0].row as int,
                ),
    {
        let base_cell = cell_history[0];
        let base_pitch = Pitch::new_with_cell(&base_cell);
        let mut pitches: Vec<Pitch> = Vec::new();
        pitches.push(base_pitch);
        let n = cell_history.len();
        let mut i: usize = 1;
        while i < n
            invariant
                1 <= i <= n,
                n == cell_history@.len(),
                base_cell == cell_history@[0],
                valid_cell(base_cell),
                forall|k: int|
                    0 <= k < cell_history@.len() ==> valid_cell(#[trigger] cell_history@[k]),
                base_pitch == pitch_of_cell(base_cell),
                pitches@.len() == i,
                pitches@[0] == pitch_of_cell(base_cell),
                forall|k: int|
                    1 <= k < i ==> pitches@[k] == pitch_transposed(
                        pitch_of_cell(cell_history@[0]),
                        cell_history@[k].file as int - cell_history@[0].file as int,
                        cell_history@[k].row as int - cell_history@[0].row as int,
                    ),
            decreases n - i,
        {
            let cell = cell_history[i];
            let cell_diff = base_cell.get_cell_diff(&cell);
            let new_pitch = base_pitch.new_with_cell_diff(cell_diff);
            pitches.push(new_pitch);
            i = i + 1;
        }
        pitches
    }
}

} // verus!
