use vstd::prelude::*;

use crate::cell::Cell;
use crate::chess_move::Move;
use crate::types::{role_of_name, start_cell_spec, MoveType, PieceName, Role};

verus! {

/// The mathematical model of one piece record: its fixed identity, colour
/// and role, its location (`None` once captured), whether it has never
/// moved, and one history entry per ply since the game began.
pub ghost struct PieceModel {
    pub name: PieceName,
    pub white: bool,
    pub role: Role,
    pub cell: Option<Cell>,
    pub first_move: bool,
    pub history: Seq<Option<Move>>,
}

/// One piece record: identity, colour and role never change; the location is
/// `None` once the piece is captured; the history holds one entry per ply,
/// `None` on the plies where this piece did not move.
pub struct PieceState {
    pub name: PieceName,
    pub white: bool,
    pub role: Role,
    pub cell: Option<Cell>,
    pub first_move: bool,
    pub move_history: Vec<Option<Move>>,
}

impl View for PieceState {
    type V = PieceModel;

    open spec fn view(&self) -> PieceModel {
        PieceModel {
            name: self.name,
            white: self.white,
            role: self.role,
            cell: self.cell,
            first_move: self.first_move,
            history: self.move_history@,
        }
    }
}

/// The model of a freshly created piece: on its fixed starting cell, not yet
/// moved, with an empty history.
pub open spec fn initial_piece(name: PieceName, white: bool) -> PieceModel {
    PieceModel {
        name,
        white,
        role: role_of_name(name),
        cell: Some(start_cell_spec(name, white)),
        first_move: true,
        history: Seq::empty(),
    }
}

/// The cell a piece stands on after the first `n` entries of its history,
/// starting from `start`: the destination of the latest move among them, or
/// `start` when none of them moved the piece.
pub open spec fn cell_after(start: Cell, h: Seq<Option<Move>>, n: nat) -> Cell
    decreases n,
{
    if n == 0 {
        start
    } else {
        match h[n - 1] {
            Some(m) => m.cell,
            None => cell_after(start, h, (n - 1) as nat),
        }
    }
}

/// Whether history entry `i` was a capture.
pub open spec fn is_take_entry(h: Seq<Option<Move>>, i: int) -> bool {
    h[i] is Some && h[i]->0.move_type == MoveType::Take
}

/// The per-ply (cell, was-this-step-a-capture) history that a piece's move
/// history unrolls to: entry `i` carries the cell occupied after ply `i`,
/// with the previous cell carried forward over the plies the piece sat still.
pub open spec fn cell_capture_history(start: Cell, h: Seq<Option<Move>>) -> Seq<(Cell, bool)> {
    Seq::new(h.len(), |i: int| (cell_after(start, h, (i + 1) as nat), is_take_entry(h, i)))
}

impl PieceState {
    /// A piece of the given colour and identity on its starting cell.
    pub fn new(white: bool, name: PieceName) -> (r: PieceState)
        ensures
            r@ == initial_piece(name, white),
    {
        PieceState {
            name,
            white,
            role: crate::types::role_of_name_exec(name),
            cell: Some(crate::types::start_cell(name, white)),
            first_move: true,
            move_history: Vec::new(),
        }
    }

    pub fn get_name(&self) -> (r: PieceName)
        ensures
            r == self@.name,
    {
        self.name
    }

    pub fn is_white(&self) -> (r: bool)
        ensures
            r == self@.white,
    {
        self.white
    }

    pub fn get_role(&self) -> (r: Role)
        ensures
            r == self@.role,
    {
        self.role
    }

    pub fn get_curr_cell(&self) -> (r: Option<Cell>)
        ensures
            r == self@.cell,
    {
        self.cell
    }

    /// Whether the piece has relocated at least once.
    pub fn has_moved(&self) -> (r: bool)
        ensures
            r == !self@.first_move,
    {
        !self.first_move
    }

    pub fn is_live(&self) -> (r: bool)
        ensures
            r == (self@.cell is Some),
    {
        self.cell.is_some()
    }

    pub fn get_move_history(&self) -> (r: &Vec<Option<Move>>)
        ensures
            r@ == self@.history,
    {
        &self.move_history
    }

    /// Records one ply: a populated entry relocates the piece to the move's
    /// destination and marks it as having moved; an empty entry only extends
    /// the history, keeping the histories of all pieces ply-aligned.
    pub fn move_(&mut self, the_move: Option<&Move>)
        ensures
            final(self)@ == (match the_move {
                Some(m) => PieceModel {
                    name: old(self)@.name,
                    white: old(self)@.white,
                    role: old(self)@.role,
                    cell: Some(m.cell),
                    first_move: false,
                    history: old(self)@.history.push(Some(*m)),
                },
                None => PieceModel {
                    name: old(self)@.name,
                    white: old(self)@.white,
                    role: old(self)@.role,
                    cell: old(self)@.cell,
                    first_move: old(self)@.first_move,
                    history: old(self)@.history.push(None),
                },
            }),
    {
        match the_move {
            Some(m) => {
                self.cell = Some(m.cell);
                self.first_move = false;
                self.move_history.push(Some(*m));
            },
            None => {
                self.move_history.push(None);
            },
        }
    }

    /// Marks the piece as captured: it loses its cell for good, but keeps
    /// its identity and history.
    pub fn set_captured(&mut self)
        ensures
            final(self)@ == (PieceModel {
                name: old(self)@.name,
                white: old(self)@.white,
                role: old(self)@.role,
                cell: None,
                first_move: old(self)@.first_move,
                history: old(self)@.history,
            }),
    {
        self.cell = None;
    }

    /// The fixed starting cell that this piece's identity and colour pin
    /// down, whether or not the piece still stands there.
    pub fn first_cell(&self) -> (r: Cell)
        ensures
            r == start_cell_spec(self@.name, self@.white),
    {
        crate::types::start_cell(self.name, self.white)
    }

    /// Unrolls the piece's history into one (cell, capture) pair per ply of
    /// the game, carrying the current cell forward over the plies on which
    /// the piece did not move.
    pub fn get_cell_and_capture_history(&self) -> (r: Vec<(Cell, bool)>)
        ensures
            r@ == cell_capture_history(start_cell_spec(self@.name, self@.white), self@.history),
    {
        let ghost start = start_cell_spec(self@.name, self@.white);
        let ghost h = self@.history;
        let mut out: Vec<(Cell, bool)> = Vec::new();
        let mut prev: Cell = self.first_cell();
        let n = self.move_history.len();
        let mut i: usize = 0;
        while i < n
            invariant
                i <= n,
                n == h.len(),
                h == self@.history,
                prev == cell_after(start, h, i as nat),
                out@.len() == i,
                forall|j: int|
                    0 <= j < i ==> out@[j] == (cell_after(start, h, (j + 1) as nat), is_take_entry(
                        h,
                        j,
                    )),
            decreases n - i,
        {
            let entry = self.move_history[i];
            match entry {
                Some(m) => {
                    let cap = m.move_type == MoveType::Take;
                    out.push((m.cell, cap));
                    prev = m.cell;
                },
                None => {
                    out.push((prev, false));
                },
            }
            i = i + 1;
        }
        proof {
            assert(out@ =~= cell_capture_history(start, h));
        }
        out
    }
}

} // verus!
