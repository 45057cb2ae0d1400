use vstd::prelude::*;

use crate::cell::Cell;
use crate::chess_move::{ChessError, Move};
use crate::piece::{initial_piece, PieceModel, PieceState};
use crate::types::{PieceName, Role};

verus! {

/// The board: the fixed arena of piece records for one game. Records are
/// never added or removed; capture only clears a record's cell.
pub struct Board {
    pub pieces: Vec<PieceState>,
}

impl View for Board {
    type V = Seq<PieceModel>;

    open spec fn view(&self) -> Seq<PieceModel> {
        self.pieces@.map_values(|p: PieceState| p@)
    }
}

/// No two records share an identity (name and colour).
pub open spec fn distinct_identities(s: Seq<PieceModel>) -> bool {
    forall|i: int, j: int|
        #![trigger s[i], s[j]]
        0 <= i < s.len() && 0 <= j < s.len() && i != j ==> !(s[i].name == s[j].name && s[i].white
            == s[j].white)
}

/// No two live pieces share a cell.
pub open spec fn distinct_live_cells(s: Seq<PieceModel>) -> bool {
    forall|i: int, j: int|
        #![trigger s[i], s[j]]
        0 <= i < s.len() && 0 <= j < s.len() && i != j && s[i].cell is Some ==> s[i].cell
            != s[j].cell
}

/// The board invariant: identities are unique and at most one live piece
/// occupies any cell.
pub open spec fn board_wf(s: Seq<PieceModel>) -> bool {
    distinct_identities(s) && distinct_live_cells(s)
}

pub open spec fn live_at(s: Seq<PieceModel>, i: int, c: Cell) -> bool {
    0 <= i < s.len() && s[i].cell == Some(c)
}

pub open spec fn has_live_at(s: Seq<PieceModel>, c: Cell) -> bool {
    exists|i: int| live_at(s, i, c)
}

/// The index of the live piece standing on `c`; under `board_wf` it is the
/// only one.
pub open spec fn live_index_at(s: Seq<PieceModel>, c: Cell) -> int {
    choose|i: int| live_at(s, i, c)
}

pub open spec fn is_identity(s: Seq<PieceModel>, i: int, name: PieceName, white: bool) -> bool {
    0 <= i < s.len() && s[i].name == name && s[i].white == white
}

pub open spec fn has_piece(s: Seq<PieceModel>, name: PieceName, white: bool) -> bool {
    exists|i: int| is_identity(s, i, name, white)
}

pub open spec fn piece_index(s: Seq<PieceModel>, name: PieceName, white: bool) -> int {
    choose|i: int| is_identity(s, i, name, white)
}

pub open spec fn is_live_identity(s: Seq<PieceModel>, i: int, name: PieceName, white: bool) -> bool {
    is_identity(s, i, name, white) && s[i].cell is Some
}

pub open spec fn has_live_piece(s: Seq<PieceModel>, name: PieceName, white: bool) -> bool {
    exists|i: int| is_live_identity(s, i, name, white)
}

pub open spec fn live_piece_index(s: Seq<PieceModel>, name: PieceName, white: bool) -> int {
    choose|i: int| is_live_identity(s, i, name, white)
}

/// The live pieces of one role and colour, in board order.
pub open spec fn live_role_models(s: Seq<PieceModel>, role: Role, white: bool) -> Seq<PieceModel> {
    s.filter(|p: PieceModel| p.role == role && p.white == white && p.cell is Some)
}

/// A piece record with its cell cleared.
pub open spec fn with_cell_none(p: PieceModel) -> PieceModel {
    PieceModel {
        name: p.name,
        white: p.white,
        role: p.role,
        cell: None,
        first_move: p.first_move,
        history: p.history,
    }
}

/// A piece record relocated by a move, with the move appended to its history.
pub open spec fn with_move(p: PieceModel, m: Move) -> PieceModel {
    PieceModel {
        name: p.name,
        white: p.white,
        role: p.role,
        cell: Some(m.cell),
        first_move: false,
        history: p.history.push(Some(m)),
    }
}

/// A piece record with an empty history entry appended: it sat still for one
/// ply.
pub open spec fn with_none_push(p: PieceModel) -> PieceModel {
    PieceModel {
        name: p.name,
        white: p.white,
        role: p.role,
        cell: p.cell,
        first_move: p.first_move,
        history: p.history.push(None),
    }
}

/// The first stage of applying a move: whatever live piece stands on the
/// destination cell is captured.
pub open spec fn capture_stage(s: Seq<PieceModel>, c: Cell) -> Seq<PieceModel> {
    if has_live_at(s, c) {
        s.update(live_index_at(s, c), with_cell_none(s[live_index_at(s, c)]))
    } else {
        s
    }
}

/// The second stage: the mover at index `j` relocates and records the move,
/// and every other still-live piece records an empty entry for this ply.
pub open spec fn relocate_stage(s: Seq<PieceModel>, j: int, m: Move) -> Seq<PieceModel> {
    Seq::new(
        s.len(),
        |k: int|
            if k == j {
                with_move(s[k], m)
            } else if s[k].cell is Some {
                with_none_push(s[k])
            } else {
                s[k]
            },
    )
}

/// What applying a notated move to the board yields: the new board, and
/// whether a live mover of the given identity was found at all (the mover is
/// looked up after the capture, so a piece that captures its own cell's
/// occupant can never be itself).
pub open spec fn move_piece_spec(s: Seq<PieceModel>, name: PieceName, white: bool, m: Move) -> (
    Seq<PieceModel>,
    bool,
) {
    let s1 = capture_stage(s, m.cell);
    if has_live_piece(s1, name, white) {
        (relocate_stage(s1, live_piece_index(s1, name, white), m), true)
    } else {
        (s1, false)
    }
}


/// The identity that slot `k` of one side's sixteen records holds, in board
/// construction order: the eight pawns, then queenside rook, knight and
/// bishop, queen, king, and kingside bishop, knight and rook.
pub open spec fn slot_name(k: int) -> PieceName {
    if k == 0 {
        PieceName::Apawn
    } else if k == 1 {
        PieceName::Bpawn
    } else if k == 2 {
        PieceName::Cpawn
    } else if k == 3 {
        PieceName::Dpawn
    } else if k == 4 {
        PieceName::Epawn
    } else if k == 5 {
        PieceName::Fpawn
    } else if k == 6 {
        PieceName::Gpawn
    } else if k == 7 {
        PieceName::Hpawn
    } else if k == 8 {
        PieceName::Qrook
    } else if k == 9 {
        PieceName::Qknight
    } else if k == 10 {
        PieceName::Qbishop
    } else if k == 11 {
        PieceName::Queen
    } else if k == 12 {
        PieceName::King
    } else if k == 13 {
        PieceName::Kbishop
    } else if k == 14 {
        PieceName::Kknight
    } else {
        PieceName::Krook
    }
}

/// The slot that an identity occupies among one side's sixteen records.
pub open spec fn slot_index(name: PieceName) -> int {
    match name {
        PieceName::Apawn => 0,
        PieceName::Bpawn => 1,
        PieceName::Cpawn => 2,
        PieceName::Dpawn => 3,
        PieceName::Epawn => 4,
        PieceName::Fpawn => 5,
        PieceName::Gpawn => 6,
        PieceName::Hpawn => 7,
        PieceName::Qrook => 8,
        PieceName::Qknight => 9,
        PieceName::Qbishop => 10,
        PieceName::Queen => 11,
        PieceName::King => 12,
        PieceName::Kbishop => 13,
        PieceName::Kknight => 14,
        PieceName::Krook => 15,
    }
}

/// The full starting position: the sixteen white records followed by the
/// sixteen black ones, each fresh on its starting cell.
pub open spec fn initial_board() -> Seq<PieceModel> {
    Seq::new(
        32,
        |k: int|
            initial_piece(
                slot_name(
                    if k < 16 {
                        k
                    } else {
                        k - 16
                    },
                ),
                k < 16,
            ),
    )
}

/// Different identities of the same colour, or the same identity of the two
/// colours, never share a starting cell.
proof fn lemma_start_cells_distinct(n1: PieceName, w1: bool, n2: PieceName, w2: bool)
    requires
        !(n1 == n2 && w1 == w2),
    ensures
        crate::types::start_cell_spec(n1, w1) != crate::types::start_cell_spec(n2, w2),
{
}

/// The starting position is well formed and holds every identity of both
/// colours.
pub proof fn lemma_initial_board_wf()
    ensures
        board_wf(initial_board()),
        initial_board().len() == 32,
        forall|name: PieceName, white: bool| has_piece(initial_board(), name, white),
{
    let s = initial_board();
    assert forall|i: int, j: int|
        0 <= i < s.len() && 0 <= j < s.len() && i != j implies !(#[trigger] s[i].name
        == #[trigger] s[j].name && s[i].white == s[j].white) by {
        let a = if i < 16 { i } else { i - 16 };
        let b = if j < 16 { j } else { j - 16 };
        if s[i].name == s[j].name && s[i].white == s[j].white {
            assert(slot_name(a) == slot_name(b));
            assert(a == b);
        }
    }
    assert forall|i: int, j: int|
        0 <= i < s.len() && 0 <= j < s.len() && i != j && (#[trigger] s[i]).cell is Some implies s[i].cell
        != (#[trigger] s[j]).cell by {
        lemma_start_cells_distinct(s[i].name, s[i].white, s[j].name, s[j].white);
    }
    assert forall|name: PieceName, white: bool| has_piece(initial_board(), name, white) by {
        let k = slot_index(name) + if white { 0int } else { 16int };
        assert(slot_name(slot_index(name)) == name);
        assert(is_identity(s, k, name, white));
    }
}

/// How many live pieces of one role and colour stand among the first `n`
/// records.
pub open spec fn count_role_upto(s: Seq<PieceModel>, role: Role, white: bool, n: int) -> int
    decreases n,
{
    if n <= 0 {
        0
    } else {
        count_role_upto(s, role, white, n - 1) + if s[n - 1].role == role && s[n - 1].white == white
            && s[n - 1].cell is Some {
            1int
        } else {
            0int
        }
    }
}

pub open spec fn count_live_with_role(s: Seq<PieceModel>, role: Role, white: bool) -> int {
    count_role_upto(s, role, white, s.len() as int)
}

/// How many live pieces of one identity and colour stand among the first `n`
/// records.
pub open spec fn count_name_upto(s: Seq<PieceModel>, name: PieceName, white: bool, n: int) -> int
    decreases n,
{
    if n <= 0 {
        0
    } else {
        count_name_upto(s, name, white, n - 1) + if s[n - 1].name == name && s[n - 1].white == white
            && s[n - 1].cell is Some {
            1int
        } else {
            0int
        }
    }
}

pub open spec fn count_live_with_name(s: Seq<PieceModel>, name: PieceName, white: bool) -> int {
    count_name_upto(s, name, white, s.len() as int)
}

/// A freshly initialized board holds, for each colour, exactly eight live
/// pawns and exactly one live piece of every non-pawn identity: 32 records
/// in all.
pub proof fn lemma_fresh_board_census(white: bool)
    ensures
        initial_board().len() == 32,
        count_live_with_role(initial_board(), Role::Pawn, white) == 8,
        forall|name: PieceName|
            crate::types::role_of_name(name) != Role::Pawn ==> #[trigger] count_live_with_name(
                initial_board(),
                name,
                white,
            ) == 1,
{
    reveal_with_fuel(count_role_upto, 33);
    reveal_with_fuel(count_name_upto, 33);
    assert(count_live_with_role(initial_board(), Role::Pawn, white) == 8);
    assert forall|name: PieceName|
        crate::types::role_of_name(name) != Role::Pawn implies #[trigger] count_live_with_name(
        initial_board(),
        name,
        white,
    ) == 1 by {
        reveal_with_fuel(count_name_upto, 33);
    }
}

impl Board {
    /// A full board in its starting position.
    pub fn new() -> (r: Board)
        ensures
            r@ == initial_board(),
            board_wf(r@),
            forall|name: PieceName, white: bool| has_piece(r@, name, white),
    {
        let mut pieces: Vec<PieceState> = Vec::new();
        pieces.push(PieceState::new(true, PieceName::Apawn));
        pieces.push(PieceState::new(true, PieceName::Bpawn));
        pieces.push(PieceState::new(true, PieceName::Cpawn));
        pieces.push(PieceState::new(true, PieceName::Dpawn));
        pieces.push(PieceState::new(true, PieceName::Epawn));
        pieces.push(PieceState::new(true, PieceName::Fpawn));
        pieces.push(PieceState::new(true, PieceName::Gpawn));
        pieces.push(PieceState::new(true, PieceName::Hpawn));
        pieces.push(PieceState::new(true, PieceName::Qrook));
        pieces.push(PieceState::new(true, PieceName::Qknight));
        pieces.push(PieceState::new(true, PieceName::Qbishop));
        pieces.push(PieceState::new(true, PieceName::Queen));
        pieces.push(PieceState::new(true, PieceName::King));
        pieces.push(PieceState::new(true, PieceName::Kbishop));
        pieces.push(PieceState::new(true, PieceName::Kknight));
        pieces.push(PieceState::new(true, PieceName::Krook));
        pieces.push(PieceState::new(false, PieceName::Apawn));
        pieces.push(PieceState::new(false, PieceName::Bpawn));
        pieces.push(PieceState::new(false, PieceName::Cpawn));
        pieces.push(PieceState::new(false, PieceName::Dpawn));
        pieces.push(PieceState::new(false, PieceName::Epawn));
        pieces.push(PieceState::new(false, PieceName::Fpawn));
        pieces.push(PieceState::new(false, PieceName::Gpawn));
        pieces.push(PieceState::new(false, PieceName::Hpawn));
        pieces.push(PieceState::new(false, PieceName::Qrook));
        pieces.push(PieceState::new(false, PieceName::Qknight));
        pieces.push(PieceState::new(false, PieceName::Qbishop));
        pieces.push(PieceState::new(false, PieceName::Queen));
        pieces.push(PieceState::new(false, PieceName::King));
        pieces.push(PieceState::new(false, PieceName::Kbishop));
        pieces.push(PieceState::new(false, PieceName::Kknight));
        pieces.push(PieceState::new(false, PieceName::Krook));
        let board = Board { pieces };
        proof {
            assert(board@ =~= initial_board());
            lemma_initial_board_wf();
        }
        board
    }

    /// A reduced board holding only the two kings, for isolated king-move
    /// checks.
    pub fn new_king_test() -> (r: Board)
        ensures
            r@ == seq![
                initial_piece(PieceName::King, true),
                initial_piece(PieceName::King, false),
            ],
            board_wf(r@),
    {
        let mut pieces: Vec<PieceState> = Vec::new();
        pieces.push(PieceState::new(true, PieceName::King));
        pieces.push(PieceState::new(false, PieceName::King));
        let board = Board { pieces };
        proof {
            assert(board@ =~= seq![
                initial_piece(PieceName::King, true),
                initial_piece(PieceName::King, false),
            ]);
        }
        board
    }

    /// A reduced board holding only the two queens.
    pub fn new_queen_test() -> (r: Board)
        ensures
            r@ == seq![
                initial_piece(PieceName::Queen, true),
                initial_piece(PieceName::Queen, false),
            ],
            board_wf(r@),
    {
        let mut pieces: Vec<PieceState> = Vec::new();
        pieces.push(PieceState::new(true, PieceName::Queen));
        pieces.push(PieceState::new(false, PieceName::Queen));
        let board = Board { pieces };
        proof {
            assert(board@ =~= seq![
                initial_piece(PieceName::Queen, true),
                initial_piece(PieceName::Queen, false),
            ]);
        }
        board
    }

    /// A reduced board holding the four rooks.
    pub fn new_rook_test() -> (r: Board)
        ensures
            r@ == seq![
                initial_piece(PieceName::Qrook, true),
                initial_piece(PieceName::Krook, true),
                initial_piece(PieceName::Qrook, false),
                initial_piece(PieceName::Krook, false),
            ],
            board_wf(r@),
    {
        let mut pieces: Vec<PieceState> = Vec::new();
        pieces.push(PieceState::new(true, PieceName::Qrook));
        pieces.push(PieceState::new(true, PieceName::Krook));
        pieces.push(PieceState::new(false, PieceName::Qrook));
        pieces.push(PieceState::new(false, PieceName::Krook));
        let board = Board { pieces };
        proof {
            assert(board@ =~= seq![
                initial_piece(PieceName::Qrook, true),
                initial_piece(PieceName::Krook, true),
                initial_piece(PieceName::Qrook, false),
                initial_piece(PieceName::Krook, false),
            ]);
        }
        board
    }

    /// A reduced board holding the four bishops.
    pub fn new_bishop_test() -> (r: Board)
        ensures
            r@ == seq![
                initial_piece(PieceName::Qbishop, true),
                initial_piece(PieceName::Kbishop, true),
                initial_piece(PieceName::Qbishop, false),
                initial_piece(PieceName::Kbishop, false),
            ],
            board_wf(r@),
    {
        let mut pieces: Vec<PieceState> = Vec::new();
        pieces.push(PieceState::new(true, PieceName::Qbishop));
        pieces.push(PieceState::new(true, PieceName::Kbishop));
        pieces.push(PieceState::new(false, PieceName::Qbishop));
        pieces.push(PieceState::new(false, PieceName::Kbishop));
        let board = Board { pieces };
        proof {
            assert(board@ =~= seq![
                initial_piece(PieceName::Qbishop, true),
                initial_piece(PieceName::Kbishop, true),
                initial_piece(PieceName::Qbishop, false),
                initial_piece(PieceName::Kbishop, false),
            ]);
        }
        board
    }


    /// The live piece standing on `cell`, if any.
    pub fn get_piece_at_cell(&self, cell: &Cell) -> (r: Option<&PieceState>)
        requires
            board_wf(self@),
        ensures
            match r {
                Some(p) => has_live_at(self@, *cell) && p@ == self@[live_index_at(self@, *cell)]
                    && p@.cell == Some(*cell),
                None => !has_live_at(self@, *cell),
            },
    {
        let n = self.pieces.len();
        let mut i: usize = 0;
        while i < n
            invariant
                i <= n,
                n == self@.len(),
                self@.len() == self.pieces@.len(),
                board_wf(self@),
                forall|l: int| 0 <= l < i ==> !live_at(self@, l, *cell),
            decreases n - i,
        {
            assert(self.pieces@[i as int]@ == self@[i as int]);
            if let Some(c) = self.pieces[i].cell {
                if c == *cell {
                    proof {
                        assert(live_at(self@, i as int, *cell));
                        let w = live_index_at(self@, *cell);
                        assert(live_at(self@, w, *cell));
                        assert(w == i as int);
                    }
                    return Some(&self.pieces[i]);
                }
            }
            i = i + 1;
        }
        None
    }

    /// The live piece of the given identity, if it is still on the board.
    pub fn get_live_piece_with_name(&self, name: PieceName, white: bool) -> (r: Option<&PieceState>)
        requires
            board_wf(self@),
        ensures
            match r {
                Some(p) => has_live_piece(self@, name, white) && p@ == self@[live_piece_index(
                    self@,
                    name,
                    white,
                )],
                None => !has_live_piece(self@, name, white),
            },
    {
        let n = self.pieces.len();
        let mut i: usize = 0;
        while i < n
            invariant
                i <= n,
                n == self@.len(),
                self@.len() == self.pieces@.len(),
                board_wf(self@),
                forall|l: int| 0 <= l < i ==> !is_live_identity(self@, l, name, white),
            decreases n - i,
        {
            assert(self.pieces@[i as int]@ == self@[i as int]);
            let p = &self.pieces[i];
            if p.name == name && p.white == white && p.cell.is_some() {
                proof {
                    assert(is_live_identity(self@, i as int, name, white));
                    let w = live_piece_index(self@, name, white);
                    assert(is_live_identity(self@, w, name, white));
                    assert(w == i as int);
                }
                return Some(&self.pieces[i]);
            }
            i = i + 1;
        }
        None
    }

    /// The piece of the given identity, live or captured. Every identity of
    /// a full board is present, so the caller must know the identity exists.
    pub fn get_piece_with_name(&self, name: PieceName, white: bool) -> (r: &PieceState)
        requires
            board_wf(self@),
            has_piece(self@, name, white),
        ensures
            r@ == self@[piece_index(self@, name, white)],
            r@.name == name,
            r@.white == white,
    {
        let n = self.pieces.len();
        let mut i: usize = 0;
        while i < n
            invariant
                i <= n,
                n == self@.len(),
                self@.len() == self.pieces@.len(),
                has_piece(self@, name, white),
                board_wf(self@),
                forall|l: int| 0 <= l < i ==> !is_identity(self@, l, name, white),
            decreases n - i,
        {
            assert(self.pieces@[i as int]@ == self@[i as int]);
            let p = &self.pieces[i];
            if p.name == name && p.white == white {
                proof {
                    assert(is_identity(self@, i as int, name, white));
                    let w = piece_index(self@, name, white);
                    assert(is_identity(self@, w, name, white));
                    assert(w == i as int);
                }
                return &self.pieces[i];
            }
            i = i + 1;
        }
        proof {
            let w = piece_index(self@, name, white);
            assert(is_identity(self@, w, name, white));
            assert(false);
        }
        unreached()
    }

    /// The index of the live piece of the given identity, if any.
    fn find_live_index(&self, name: PieceName, white: bool) -> (r: Option<usize>)
        requires
            board_wf(self@),
        ensures
            match r {
                Some(j) => is_live_identity(self@, j as int, name, white) && j as int
                    == live_piece_index(self@, name, white),
                None => !has_live_piece(self@, name, white),
            },
    {
        let n = self.pieces.len();
        let mut i: usize = 0;
        while i < n
            invariant
                i <= n,
                n == self@.len(),
                self@.len() == self.pieces@.len(),
                board_wf(self@),
                forall|l: int| 0 <= l < i ==> !is_live_identity(self@, l, name, white),
            decreases n - i,
        {
            assert(self.pieces@[i as int]@ == self@[i as int]);
            let p = &self.pieces[i];
            if p.name == name && p.white == white && p.cell.is_some() {
                proof {
                    assert(is_live_identity(self@, i as int, name, white));
                    let w = live_piece_index(self@, name, white);
                    assert(is_live_identity(self@, w, name, white));
                    assert(w == i as int);
                }
                return Some(i);
            }
            i = i + 1;
        }
        None
    }

    /// The live pieces of one role and colour, in board order.
    pub fn get_live_pieces_with_role(&self, role: Role, white: bool) -> (r: Vec<&PieceState>)
        ensures
            r@.map_values(|p: &PieceState| p@) == live_role_models(self@, role, white),
    {
        let mut out: Vec<&PieceState> = Vec::new();
        let n = self.pieces.len();
        let mut i: usize = 0;
        proof {
            reveal(Seq::filter);
            assert(self@.subrange(0, 0) =~= Seq::<PieceModel>::empty());
            assert(out@.map_values(|p: &PieceState| p@) =~= live_role_models(
                self@.subrange(0, 0),
                role,
                white,
            ));
        }
        while i < n
            invariant
                i <= n,
                n == self@.len(),
                self@.len() == self.pieces@.len(),
                out@.map_values(|p: &PieceState| p@) == live_role_models(
                    self@.subrange(0, i as int),
                    role,
                    white,
                ),
            decreases n - i,
        {
            assert(self.pieces@[i as int]@ == self@[i as int]);
            proof {
                reveal(Seq::filter);
                let pre = self@.subrange(0, i as int);
                let post = self@.subrange(0, i + 1);
                assert(post.drop_last() =~= pre);
                assert(post.last() == self@[i as int]);
            }
            let p = &self.pieces[i];
            if p.get_role() == role && p.white == white && p.cell.is_some() {
                out.push(p);
                proof {
                    let f = |q: &PieceState| q@;
                    assert(out@.map_values(f) =~= out@.drop_last().map_values(f).push(
                        self@[i as int],
                    ));
                }
            } else {
                proof {
                    let f = |q: &PieceState| q@;
                    assert(out@.map_values(f) == live_role_models(
                        self@.subrange(0, i + 1),
                        role,
                        white,
                    ));
                }
            }
            i = i + 1;
        }
        proof {
            assert(self@.subrange(0, n as int) =~= self@);
        }
        out
    }

    /// Captures whatever live piece stands on `cell`: its location is
    /// cleared, everything else is untouched.
    pub fn capture_piece_at_cell(&mut self, cell: &Cell)
        requires
            board_wf(old(self)@),
        ensures
            final(self)@ == capture_stage(old(self)@, *cell),
            board_wf(final(self)@),
    {
        let ghost s = self@;
        let n = self.pieces.len();
        let mut i: usize = 0;
        while i < n
            invariant
                i <= n,
                n == self@.len(),
                self@.len() == self.pieces@.len(),
                self@ == s,
                s == old(self)@,
                board_wf(s),
                forall|l: int| 0 <= l < i ==> !live_at(s, l, *cell),
            decreases n - i,
        {
            assert(self.pieces@[i as int]@ == self@[i as int]);
            let hit = match &self.pieces[i].cell {
                Some(c) => *c == *cell,
                None => false,
            };
            if hit {
                proof {
                    assert(live_at(s, i as int, *cell));
                    let w = live_index_at(s, *cell);
                    assert(live_at(s, w, *cell));
                    assert(w == i as int);
                }
                self.pieces[i].set_captured();
                proof {
                    assert(self@ =~= s.update(i as int, with_cell_none(s[i as int])));
                    assert(has_live_at(s, *cell));
                    assert(live_index_at(s, *cell) == i as int);
                    assert(self@ == capture_stage(s, *cell));
                    assert forall|a: int, b: int|
                        0 <= a < self@.len() && 0 <= b < self@.len() && a != b
                            && self@[a].cell is Some implies self@[a].cell != self@[b].cell by {
                        assert(self@[a].cell == s[a].cell);
                        assert(s[a] == self@[a] || a == i as int);
                        assert(self@[b].cell == s[b].cell || self@[b].cell is None);
                    }
                    assert forall|a: int, b: int|
                        0 <= a < self@.len() && 0 <= b < self@.len() && a != b implies !(
                    self@[a].name == self@[b].name && self@[a].white == self@[b].white) by {
                        assert(self@[a].name == s[a].name && self@[a].white == s[a].white);
                        assert(self@[b].name == s[b].name && self@[b].white == s[b].white);
                    }
                }
                return ;
            }
            i = i + 1;
        }
        assert(!has_live_at(s, *cell));
    }

    /// Applies a resolved move: captures whatever stands on the destination,
    /// relocates the named piece there, and appends one history entry to
    /// every still-live piece, so the histories stay ply-aligned. Fails when
    /// no live piece of that identity remains after the capture.
    #[verifier::rlimit(100)]
    pub fn move_piece(&mut self, name: PieceName, white: bool, the_move: &Move) -> (r: Result<
        (),
        ChessError,
    >)
        requires
            board_wf(old(self)@),
        ensures
            final(self)@ == move_piece_spec(old(self)@, name, white, *the_move).0,
            (r is Ok) == move_piece_spec(old(self)@, name, white, *the_move).1,
            r is Err ==> r == Err::<(), ChessError>(
                ChessError::UnresolvableMove { white, the_move: *the_move },
            ),
            board_wf(final(self)@),
            final(self)@.len() == old(self)@.len(),
            forall|k: int|
                0 <= k < old(self)@.len() ==> (#[trigger] final(self)@[k]).name == old(self)@[k].name
                    && final(self)@[k].white == old(self)@[k].white && final(self)@[k].role == old(
                    self,
                )@[k].role,
    {
        let ghost s0 = self@;
        self.capture_piece_at_cell(&the_move.cell);
        let ghost s1 = self@;
        proof {
            assert(s1 == capture_stage(s0, the_move.cell));
            assert forall|k: int| 0 <= k < s1.len() implies s1[k].cell != Some(the_move.cell) by {
                if has_live_at(s0, the_move.cell) {
                    let w = live_index_at(s0, the_move.cell);
                    assert(live_at(s0, w, the_move.cell));
                    if k != w {
                        assert(s1[k].cell == s0[k].cell);
                    }
                } else {
                    assert(!live_at(s0, k, the_move.cell));
                    assert(s1[k].cell == s0[k].cell);
                }
            }
        }
        let found = self.find_live_index(name, white);
        let j = match found {
            Some(j) => j,
            None => {
                return Err(ChessError::UnresolvableMove { white, the_move: *the_move });
            },
        };
        proof {
            assert(self.pieces@[j as int]@ == self@[j as int]);
        }
        self.pieces[j].move_(Some(the_move));
        let ghost s2 = self@;
        proof {
            assert(s2 =~= s1.update(j as int, with_move(s1[j as int], *the_move)));
        }
        let n = self.pieces.len();
        let mut k: usize = 0;
        while k < n
            invariant
                k <= n,
                n == self@.len(),
                self@.len() == self.pieces@.len(),
                s2.len() == n,
                j < n,
                self@[j as int] == s2[j as int],
                forall|l: int| k <= l < n ==> self@[l] == s2[l],
                forall|l: int|
                    0 <= l < k && l != j ==> #[trigger] self@[l] == (if s2[l].cell is Some {
                        with_none_push(s2[l])
                    } else {
                        s2[l]
                    }),
            decreases n - k,
        {
            if k != j {
                assert(self.pieces@[k as int]@ == self@[k as int]);
                if self.pieces[k].cell.is_some() {
                    let ghost before = self@;
                    self.pieces[k].move_(None);
                    proof {
                        assert(self@ =~= before.update(
                            k as int,
                            with_none_push(before[k as int]),
                        ));
                    }
                }
            }
            k = k + 1;
        }
        proof {
            let expected = relocate_stage(s1, j as int, *the_move);
            assert forall|l: int| 0 <= l < n implies self@[l] == expected[l] by {
                if l == j {
                } else {
                    assert(s2[l] == s1[l]);
                }
            }
            assert(self@ =~= expected);
            // well-formedness of the result
            assert forall|a: int, b: int|
                0 <= a < n && 0 <= b < n && a != b implies !(expected[a].name == expected[b].name
                && expected[a].white == expected[b].white) by {
                assert(expected[a].name == s1[a].name && expected[a].white == s1[a].white);
                assert(expected[b].name == s1[b].name && expected[b].white == s1[b].white);
            }
            assert forall|a: int, b: int|
                0 <= a < n && 0 <= b < n && a != b && expected[a].cell is Some implies expected[a].cell
                != expected[b].cell by {
                if a == j {
                    assert(expected[b].cell == s1[b].cell);
                    assert(s1[b].cell != Some(the_move.cell));
                } else if b == j {
                    assert(expected[a].cell == s1[a].cell);
                    assert(s1[a].cell != Some(the_move.cell));
                    assert(expected[b].cell == Some(the_move.cell));
                } else {
                    assert(expected[a].cell == s1[a].cell);
                    assert(expected[b].cell == s1[b].cell);
                }
            }
        }
        Ok(())
    }
}

} // verus!
