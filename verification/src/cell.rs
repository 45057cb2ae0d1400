use vstd::prelude::*;
use vstd::string::StrSliceExecFns;

verus! {

/// One board coordinate: a file letter `a`..`h` and a row `1`..`8`.
#[derive(Debug, Clone, Copy, PartialEq, Eq, Structural)]
pub struct Cell {
    pub file: char,
    pub row: i32,
}

/// The file letters `a` (97) through `h` (104), as character codes.
pub open spec fn valid_file_code(v: int) -> bool {
    97 <= v <= 104
}

pub open spec fn valid_file(file: char) -> bool {
    valid_file_code(file as int)
}

pub open spec fn valid_row(row: int) -> bool {
    1 <= row <= 8
}

/// A cell that actually lies on the 8x8 board.
pub open spec fn valid_cell(c: Cell) -> bool {
    valid_file(c.file) && valid_row(c.row as int)
}

pub open spec fn is_digit_char(c: char) -> bool {
    48 <= c as int <= 57
}

pub open spec fn digit_value(c: char) -> int {
    c as int - 48
}

/// What offsetting a cell by a (file, row) delta yields: the target cell
/// when its row lies in 1..8 and its file in a..h, and no cell otherwise.
/// A zero file delta keeps the file letter as it stands.
pub open spec fn offset_spec(c: Cell, file_offset: int, row_offset: int) -> Option<Cell> {
    let row = c.row as int + row_offset;
    if !valid_row(row) {
        None
    } else if file_offset == 0 {
        Some(Cell { file: c.file, row: row as i32 })
    } else {
        let file_code = c.file as int + file_offset;
        if valid_file_code(file_code) {
            Some(Cell { file: file_code as char, row: row as i32 })
        } else {
            None
        }
    }
}

impl Cell {
    /// Reads a cell from a name such as `"a2"`: the file is the first
    /// character, the row is the digit that follows it.
    pub fn new(cell_name: &str) -> (r: Cell)
        requires
            cell_name@.len() >= 2,
            is_digit_char(cell_name@[1]),
        ensures
            r.file == cell_name@[0],
            r.row as int == digit_value(cell_name@[1]),
    {
        let file = cell_name.get_char(0);
        let digit = cell_name.get_char(1);
        Cell { file, row: (digit as u32 as i32) - 48 }
    }

    /// Reads both fields from the first character of the name: the file is
    /// that character and the row is its digit value, so the first character
    /// must be a digit.
    pub fn new_with_name(cell_name: &str) -> (r: Cell)
        requires
            cell_name@.len() >= 1,
            is_digit_char(cell_name@[0]),
        ensures
            r.file == cell_name@[0],
            r.row as int == digit_value(cell_name@[0]),
    {
        let first = cell_name.get_char(0);
        Cell { file: first, row: (first as u32 as i32) - 48 }
    }

    /// The signed (file, row) difference from `self` to `cell`.
    pub fn get_cell_diff(&self, cell: &Cell) -> (r: (i32, i32))
        requires
            valid_cell(*self),
            valid_cell(*cell),
        ensures
            r.0 as int == cell.file as int - self.file as int,
            r.1 as int == cell.row as int - self.row as int,
    {
        let x_diff = cell.file as u32 as i32 - self.file as u32 as i32;
        let y_diff = cell.row - self.row;
        (x_diff, y_diff)
    }

    /// Offsets `cell` by the given file and row deltas, yielding no cell when
    /// the result falls outside the board.
    pub fn new_from_cell(cell: &Cell, file_offset: i32, row_offset: i32) -> (r: Option<Cell>)
        ensures
            r == offset_spec(*cell, file_offset as int, row_offset as int),
    {
        let nr: i64 = cell.row as i64 + row_offset as i64;
        if nr < 1 || nr > 8 {
            return None;
        }
        let new_row: i32 = nr as i32;
        if file_offset == 0 {
            return Some(Cell { file: cell.file, row: new_row });
        }
        let vf: i64 = cell.file as u32 as i64 + file_offset as i64;
        if vf < 97 || vf > 104 {
            return None;
        }
        let new_file = (vf as u8) as char;
        assert(new_file as int == cell.file as int + file_offset);
        Some(Cell { file: new_file, row: new_row })
    }
}

/// Offsetting a cell by (0, 0) yields the cell itself.
pub proof fn lemma_offset_zero(c: Cell)
    requires
        valid_cell(c),
    ensures
        offset_spec(c, 0, 0) == Some(c),
{
}

/// Offsetting a cell by the delta towards another cell reaches exactly that
/// cell, so `offset` composed with `get_cell_diff` returns the target.
pub proof fn lemma_offset_of_delta(a: Cell, b: Cell)
    requires
        valid_cell(a),
        valid_cell(b),
    ensures
        offset_spec(a, b.file as int - a.file as int, b.row as int - a.row as int) == Some(b),
{
    assert(b.file as int as char == b.file);
}

/// A successful offset is undone by the inverse delta: stepping back by the
/// negated offsets returns the original cell.
pub proof fn lemma_offset_inverse(c: Cell, file_offset: int, row_offset: int)
    requires
        valid_cell(c),
        offset_spec(c, file_offset, row_offset) is Some,
    ensures
        offset_spec(offset_spec(c, file_offset, row_offset)->Some_0, -file_offset, -row_offset)
            == Some(c),
{
    let mid = offset_spec(c, file_offset, row_offset)->Some_0;
    assert(mid.file as int == c.file as int + file_offset);
    assert(c.file as int as char == c.file);
}

} // verus!
