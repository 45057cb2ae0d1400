use vstd::prelude::*;

use crate::cell::Cell;
use crate::note::Note;

verus! {

/// The (base, adjustment) value of entry `k` of a composed melody: the
/// initial note for entry 0, and for every later entry the initial note
/// transposed by the delta from the history's first cell to its cell `k`,
/// since the per-step transpositions telescope.
pub open spec fn compose_val(init: Note, cells: Seq<(Cell, bool)>, k: int) -> (int, int) {
    if k == 0 {
        (init.base_midi as int, init.adjustment as int)
    } else {
        (
            init.base_midi + 2 * (cells[k].0.row - cells[0].0.row),
            init.adjustment + (cells[k].0.file as int - cells[0].0.file as int),
        )
    }
}

/// How many notes a history composes to: one for the initial note, plus one
/// per history entry after the first.
pub open spec fn compose_len(cells: Seq<(Cell, bool)>) -> int {
    if cells.len() == 0 {
        1
    } else {
        cells.len() as int
    }
}

/// The machine limits that composing a melody must respect: every row step
/// between consecutive cells, its doubling, and every composed note value
/// must fit in an `i32`.
pub open spec fn compose_fits(init: Note, cells: Seq<(Cell, bool)>) -> bool {
    forall|k: int|
        1 <= k < cells.len() ==> {
            let dy = (#[trigger] cells[k]).0.row - cells[k - 1].0.row;
            &&& i32::MIN <= dy <= i32::MAX
            &&& i32::MIN <= 2 * (cells[k].0.row - cells[k - 1].0.row) <= i32::MAX
            &&& i32::MIN <= compose_val(init, cells, k).0 <= i32::MAX
            &&& i32::MIN <= compose_val(init, cells, k).1 <= i32::MAX
        }
}

/// The notes a history composes to, as one sequence.
pub open spec fn composed_notes(init: Note, cells: Seq<(Cell, bool)>) -> Seq<Note> {
    Seq::new(
        compose_len(cells) as nat,
        |k: int|
            if k == 0 {
                init
            } else {
                Note {
                    base_midi: compose_val(init, cells, k).0 as i32,
                    adjustment: compose_val(init, cells, k).1 as i32,
                    velocity: 80,
                }
            },
    )
}

/// A melody: the notes a piece's history composes to.
pub struct Melody {
    pub notes: Vec<Note>,
}

/// Composes a melody from a (cell, capture) history: the initial note
/// first, then one note per further history entry, each the previous note
/// transposed by the board delta between consecutive cells.
pub open spec fn composed_notes_ok(
    init: Note,
    cells: Seq<(Cell, bool)>,
    notes: Seq<Note>,
) -> bool {
    &&& notes.len() == compose_len(cells)
    &&& notes[0] == init
    &&& forall|k: int|
        1 <= k < notes.len() ==> #[trigger] notes[k] == (Note {
            base_midi: compose_val(init, cells, k).0 as i32,
            adjustment: compose_val(init, cells, k).1 as i32,
            velocity: 80,
        })
}

impl Melody {
    /// The melody of a history, starting from the given note.
    pub fn new(move_history_with_captures: &[(Cell, bool)], initial_note: Note) -> (r: Melody)
        requires
            compose_fits(initial_note, move_history_with_captures@),
        ensures
            composed_notes_ok(initial_note, move_history_with_captures@, r.notes@),
    {
        Melody {
            notes: Melody::compose_with_cell_history(move_history_with_captures, initial_note),
        }
    }

    /// Composes the note list itself: each history cell after the first
    /// transposes the previous note by its delta from the cell before it.
    pub fn compose_with_cell_history(
        move_history_with_captures: &[(Cell, bool)],
        initial_note: Note,
    ) -> (r: Vec<Note>)
        requires
            compose_fits(initial_note, move_history_with_captures@),
        ensures
            composed_notes_ok(initial_note, move_history_with_captures@, r@),
    {
        let ghost cells = move_history_with_captures@;
        let mut notes: Vec<Note> = Vec::new();
        notes.push(initial_note);
        let n = move_history_with_captures.len();
        if n == 0 {
            return notes;
        }
        let mut last_cell: Cell = move_history_with_captures[0].0;
        let mut i: usize = 1;
        while i < n
            invariant
                1 <= i <= n,
                n == cells.len(),
                cells == move_history_with_captures@,
                compose_fits(initial_note, cells),
                last_cell == cells[i - 1].0,
                notes@.len() == i,
                notes@[0] == initial_note,
                forall|k: int|
                    1 <= k < i ==> #[trigger] notes@[k] == (Note {
                        base_midi: compose_val(initial_note, cells, k).0 as i32,
                        adjustment: compose_val(initial_note, cells, k).1 as i32,
                        velocity: 80,
                    }),
            decreases n - i,
        {
            let (cell, _capture) = move_history_with_captures[i];
            proof {
                assert(i32::MIN <= cells[i as int].0.row - cells[i as int - 1].0.row <= i32::MAX);
            }
            let y_diff = cell.row - last_cell.row;
            let x_diff = cell.file as u32 as i32 - last_cell.file as u32 as i32;
            let prev = notes[i - 1];
            proof {
                let k = i as int;
                if k == 1 {
                    assert(prev.base_midi + 2 * (y_diff as int) == compose_val(
                        initial_note,
                        cells,
                        k,
                    ).0);
                } else {
                    assert(prev.base_midi as int == compose_val(initial_note, cells, k - 1).0);
                    assert(prev.base_midi + 2 * (y_diff as int) == compose_val(
                        initial_note,
                        cells,
                        k,
                    ).0);
                }
            }
            let new_note = prev.new_with_transpsition(y_diff, x_diff);
            notes.push(new_note);
            last_cell = cell;
            i = i + 1;
        }
        notes
    }
}

/// Builds the melody only after checking, at run time, that composing it
/// stays within the machine limits; a history that would overflow yields
/// nothing.
pub fn melody_from_history(
    move_history_with_captures: &[(Cell, bool)],
    initial_note: Note,
) -> (r: Option<Melody>)
    ensures
        match r {
            Some(m) => compose_fits(initial_note, move_history_with_captures@)
                && composed_notes_ok(initial_note, move_history_with_captures@, m.notes@),
            None => !compose_fits(initial_note, move_history_with_captures@),
        },
{
    let ghost cells = move_history_with_captures@;
    let n = move_history_with_captures.len();
    let mut i: usize = 1;
    while i < n
        invariant
            1 <= i,
            i <= n || n == 0,
            n == cells.len(),
            cells == move_history_with_captures@,
            forall|k: int|
                1 <= k < i ==> {
                    let dy = (#[trigger] cells[k]).0.row - cells[k - 1].0.row;
                    &&& i32::MIN <= dy <= i32::MAX
                    &&& i32::MIN <= 2 * (cells[k].0.row - cells[k - 1].0.row) <= i32::MAX
                    &&& i32::MIN <= compose_val(initial_note, cells, k).0 <= i32::MAX
                    &&& i32::MIN <= compose_val(initial_note, cells, k).1 <= i32::MAX
                },
        decreases n - i,
    {
        let prev_row = move_history_with_captures[i - 1].0.row as i64;
        let cur = move_history_with_captures[i].0;
        let first = move_history_with_captures[0].0;
        let dy: i64 = cur.row as i64 - prev_row;
        let base: i64 = initial_note.base_midi as i64 + 2 * (cur.row as i64 - first.row as i64);
        let adj: i64 = initial_note.adjustment as i64 + (cur.file as u32 as i64 - first.file as u32
            as i64);
        let lo: i64 = -2147483648;
        let hi: i64 = 2147483647;
        if dy < lo || dy > hi || 2 * dy < lo || 2 * dy > hi || base < lo || base > hi || adj < lo
            || adj > hi {
            return None;
        }
        i = i + 1;
    }
    Some(Melody::new(move_history_with_captures, initial_note))
}

} // verus!
