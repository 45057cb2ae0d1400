use vstd::prelude::*;

use crate::board::{
    board_wf, capture_stage, has_live_at, has_piece, initial_board, is_identity, is_live_identity,
    live_index_at, move_piece_spec, piece_index, Board,
};
use crate::cell::Cell;
use crate::chess_move::{ChessError, Move};
use crate::piece::{cell_capture_history, PieceModel};
use crate::movegen::valid_cells_spec;
use crate::types::{start_cell_spec, MoveType, PieceName, Role};

verus! {

/// One game replay: a board advanced move by move.
pub struct Game {
    pub board: Board,
}

impl View for Game {
    type V = Seq<PieceModel>;

    open spec fn view(&self) -> Seq<PieceModel> {
        self.board@
    }
}

/// Whether record `i` is a live piece of the side to move with the move's
/// role: a candidate for resolving the move.
pub open spec fn is_candidate(s: Seq<PieceModel>, i: int, white: bool, m: Move) -> bool {
    0 <= i < s.len() && s[i].role == m.role && s[i].white == white && s[i].cell is Some
}

/// Whether candidate `i` is picked for the move: with a file hint, its
/// current file must equal the hint; without one, the move's destination
/// must be among its legal cells.
pub open spec fn candidate_picked(s: Seq<PieceModel>, i: int, white: bool, m: Move) -> bool {
    is_candidate(s, i, white, m) && if m.file_hint != ' ' {
        s[i].cell->Some_0.file == m.file_hint
    } else {
        valid_cells_spec(s, s[i]).contains(m.cell)
    }
}

/// The identity of the first picked candidate at or after `i`, in board
/// construction order.
pub open spec fn resolve_from(s: Seq<PieceModel>, white: bool, m: Move, i: int) -> Option<PieceName>
    decreases s.len() - i,
{
    if i < 0 || i >= s.len() {
        None
    } else if candidate_picked(s, i, white, m) {
        Some(s[i].name)
    } else {
        resolve_from(s, white, m, i + 1)
    }
}

/// Which piece a notated move resolves to, if any: the first live piece of
/// the right colour and role that the file hint (or, without one, the
/// legal-move check) picks.
pub open spec fn resolve_spec(s: Seq<PieceModel>, white: bool, m: Move) -> Option<PieceName> {
    resolve_from(s, white, m, 0)
}

/// The king's landing cell for a castle: file `g` kingside, `c` queenside,
/// on the side-to-move's home row, wrapped as a placeholder move.
pub open spec fn castle_king_move(white: bool, kingside: bool) -> Move {
    Move {
        role: Role::Pawn,
        move_type: MoveType::Null,
        file_hint: ' ',
        check: false,
        cell: Cell {
            file: if kingside {
                'g'
            } else {
                'c'
            },
            row: if white {
                1
            } else {
                8
            },
        },
    }
}

/// The rook's landing cell for a castle: file `f` kingside, `d` queenside,
/// on the side-to-move's home row.
pub open spec fn castle_rook_move(white: bool, kingside: bool) -> Move {
    Move {
        role: Role::Pawn,
        move_type: MoveType::Null,
        file_hint: ' ',
        check: false,
        cell: Cell {
            file: if kingside {
                'f'
            } else {
                'd'
            },
            row: if white {
                1
            } else {
                8
            },
        },
    }
}

/// What applying one notated move does to the board, and the error if it
/// cannot be applied. A castle relocates the king and then the matching
/// rook, unconditionally; any other move is resolved to a piece and applied
/// through the board.
pub open spec fn add_move_spec(s: Seq<PieceModel>, white: bool, m: Move) -> (
    Seq<PieceModel>,
    Option<ChessError>,
) {
    if m.move_type == MoveType::CastleKing || m.move_type == MoveType::CastleQueen {
        let kingside = m.move_type == MoveType::CastleKing;
        let km = castle_king_move(white, kingside);
        let rm = castle_rook_move(white, kingside);
        let rook_name = if kingside {
            PieceName::Krook
        } else {
            PieceName::Qrook
        };
        let step1 = move_piece_spec(s, PieceName::King, white, km);
        if !step1.1 {
            (step1.0, Some(ChessError::UnresolvableMove { white, the_move: km }))
        } else {
            let step2 = move_piece_spec(step1.0, rook_name, white, rm);
            if !step2.1 {
                (step2.0, Some(ChessError::UnresolvableMove { white, the_move: rm }))
            } else {
                (step2.0, None)
            }
        }
    } else {
        match resolve_spec(s, white, m) {
            None => (s, Some(ChessError::UnresolvableMove { white, the_move: m })),
            Some(name) => {
                let step = move_piece_spec(s, name, white, m);
                if step.1 {
                    (step.0, None)
                } else {
                    (step.0, Some(ChessError::UnresolvableMove { white, the_move: m }))
                }
            },
        }
    }
}

/// What applying a white move and then, unless it is the empty placeholder,
/// a black move does to the board.
pub open spec fn add_move_pair_spec(s: Seq<PieceModel>, wm: Move, bm: Move) -> (
    Seq<PieceModel>,
    Option<ChessError>,
) {
    let step1 = add_move_spec(s, true, wm);
    if step1.1 is Some {
        step1
    } else if bm.move_type != MoveType::Null {
        add_move_spec(step1.0, false, bm)
    } else {
        step1
    }
}

/// What replaying the moves from index `idx` on does to the board: plies
/// alternate white, black, white, ... by index, and the first unresolvable
/// move aborts the replay.
pub open spec fn replay_from(s: Seq<PieceModel>, moves: Seq<Move>, idx: int) -> (
    Seq<PieceModel>,
    Option<ChessError>,
)
    decreases moves.len() - idx,
{
    if idx < 0 || idx >= moves.len() {
        (s, None)
    } else {
        let step = add_move_spec(s, idx % 2 == 0, moves[idx]);
        if step.1 is Some {
            step
        } else {
            replay_from(step.0, moves, idx + 1)
        }
    }
}

/// What replaying a whole move list against a fresh board yields.
pub open spec fn replay_spec(moves: Seq<Move>) -> (Seq<PieceModel>, Option<ChessError>) {
    replay_from(initial_board(), moves, 0)
}

impl Game {
    /// A game over a fresh board in the starting position.
    pub fn new() -> (r: Game)
        ensures
            r@ == initial_board(),
            board_wf(r@),
            forall|name: PieceName, white: bool| has_piece(r@, name, white),
    {
        Game { board: Board::new() }
    }

    /// A game over a reduced board, for isolated rook or bishop checks.
    pub fn new_test(role: Role) -> (r: Game)
        requires
            role == Role::Rook || role == Role::Bishop,
        ensures
            board_wf(r@),
            r@ == (if role == Role::Rook {
                seq![
                    crate::piece::initial_piece(PieceName::Qrook, true),
                    crate::piece::initial_piece(PieceName::Krook, true),
                    crate::piece::initial_piece(PieceName::Qrook, false),
                    crate::piece::initial_piece(PieceName::Krook, false),
                ]
            } else {
                seq![
                    crate::piece::initial_piece(PieceName::Qbishop, true),
                    crate::piece::initial_piece(PieceName::Kbishop, true),
                    crate::piece::initial_piece(PieceName::Qbishop, false),
                    crate::piece::initial_piece(PieceName::Kbishop, false),
                ]
            }),
    {
        if matches!(role, Role::Rook) {
            Game { board: Board::new_rook_test() }
        } else {
            Game { board: Board::new_bishop_test() }
        }
    }

    /// Resolves a notated move to the identity of the piece that performs
    /// it: the first live candidate that the file hint picks, or, without a
    /// hint, the first one for which the move is legal.
    pub fn get_piece_for_move(&self, white: bool, the_move: &Move) -> (r: Result<
        PieceName,
        ChessError,
    >)
        requires
            board_wf(self@),
        ensures
            match resolve_spec(self@, white, *the_move) {
                Some(name) => r == Ok::<PieceName, ChessError>(name),
                None => r == Err::<PieceName, ChessError>(
                    ChessError::UnresolvableMove { white, the_move: *the_move },
                ),
            },
    {
        let ghost s = self@;
        let n = self.board.pieces.len();
        let mut i: usize = 0;
        while i < n
            invariant
                i <= n,
                n == s.len(),
                s == self@,
                s == self.board@,
                self.board@.len() == self.board.pieces@.len(),
                board_wf(s),
                resolve_spec(s, white, *the_move) == resolve_from(s, white, *the_move, i as int),
            decreases n - i,
        {
            assert(self.board.pieces@[i as int]@ == s[i as int]);
            let p = &self.board.pieces[i];
            let mut picked = false;
            let role_matches = p.get_role() == the_move.role;
            if role_matches && p.is_white() == white {
                if let Some(curr_cell) = p.get_curr_cell() {
                    if the_move.file_hint != ' ' {
                        picked = curr_cell.file == the_move.file_hint;
                    } else {
                        proof {
                            if s[i as int].role == Role::Bishop {
                                assert(crate::board::live_at(s, i as int, curr_cell));
                                let w = live_index_at(s, curr_cell);
                                assert(crate::board::live_at(s, w, curr_cell));
                                assert(w == i as int);
                            }
                        }
                        picked = p.is_valid_move(&self.board, the_move);
                    }
                }
            }
            if picked {
                assert(candidate_picked(s, i as int, white, *the_move));
                return Ok(p.get_name());
            }
            assert(!candidate_picked(s, i as int, white, *the_move));
            i = i + 1;
        }
        Err(ChessError::UnresolvableMove { white, the_move: *the_move })
    }

    /// Applies one notated move for the given side: a castle moves king and
    /// rook to their fixed cells; anything else is resolved and applied.
    /// The board keeps every identity it had, and stays well formed.
    pub fn add_move(&mut self, white: bool, the_move: &Move) -> (r: Result<(), ChessError>)
        requires
            board_wf(old(self)@),
        ensures
            final(self)@ == add_move_spec(old(self)@, white, *the_move).0,
            match add_move_spec(old(self)@, white, *the_move).1 {
                Some(e) => r == Err::<(), ChessError>(e),
                None => r is Ok,
            },
            board_wf(final(self)@),
            final(self)@.len() == old(self)@.len(),
            forall|k: int|
                0 <= k < old(self)@.len() ==> (#[trigger] final(self)@[k]).name == old(self)@[k].name
                    && final(self)@[k].white == old(self)@[k].white && final(self)@[k].role == old(
                    self,
                )@[k].role,
    {
        let is_castle = matches!(the_move.move_type, MoveType::CastleKing) || matches!(
            the_move.move_type,
            MoveType::CastleQueen,
        );
        if is_castle {
            let kingside = matches!(the_move.move_type, MoveType::CastleKing);
            let rook_name = if kingside {
                PieceName::Krook
            } else {
                PieceName::Qrook
            };
            let row: i32 = if white {
                1
            } else {
                8
            };
            let king_file = if kingside {
                'g'
            } else {
                'c'
            };
            let rook_file = if kingside {
                'f'
            } else {
                'd'
            };
            let king_move = Move::new_with_cell(Cell { file: king_file, row });
            assert(king_move == castle_king_move(white, kingside));
            match self.board.move_piece(PieceName::King, white, &king_move) {
                Ok(_) => {},
                Err(e) => {
                    return Err(e);
                },
            }
            let rook_move = Move::new_with_cell(Cell { file: rook_file, row });
            assert(rook_move == castle_rook_move(white, kingside));
            match self.board.move_piece(rook_name, white, &rook_move) {
                Ok(_) => Ok(()),
                Err(e) => Err(e),
            }
        } else {
            let name = match self.get_piece_for_move(white, the_move) {
                Ok(name) => name,
                Err(e) => {
                    return Err(e);
                },
            };
            match self.board.move_piece(name, white, the_move) {
                Ok(_) => Ok(()),
                Err(e) => Err(e),
            }
        }
    }

    /// Applies a white move and then, unless it is the empty placeholder
    /// standing for a game that ended on white's move, a black move.
    pub fn add_move_pair(&mut self, white_move: &Move, black_move: &Move) -> (r: Result<
        (),
        ChessError,
    >)
        requires
            board_wf(old(self)@),
        ensures
            final(self)@ == add_move_pair_spec(old(self)@, *white_move, *black_move).0,
            match add_move_pair_spec(old(self)@, *white_move, *black_move).1 {
                Some(e) => r == Err::<(), ChessError>(e),
                None => r is Ok,
            },
            board_wf(final(self)@),
    {
        match self.add_move(true, white_move) {
            Ok(_) => {},
            Err(e) => {
                return Err(e);
            },
        }
        let black_is_null = matches!(black_move.move_type, MoveType::Null);
        if !black_is_null {
            match self.add_move(false, black_move) {
                Ok(_) => {},
                Err(e) => {
                    return Err(e);
                },
            }
        }
        Ok(())
    }

    /// Replays a whole move list against a fresh board, alternating white
    /// and black by ply index; the first unresolvable move aborts the
    /// replay and is reported.
    pub fn load_moves(&mut self, moves: &[Move]) -> (r: Result<(), ChessError>)
        ensures
            final(self)@ == replay_spec(moves@).0,
            match replay_spec(moves@).1 {
                Some(e) => r == Err::<(), ChessError>(e),
                None => r is Ok,
            },
            board_wf(final(self)@),
            forall|name: PieceName, white: bool| has_piece(final(self)@, name, white),
    {
        self.board = Board::new();
        let n = moves.len();
        let mut i: usize = 0;
        while i < n
            invariant
                i <= n,
                n == moves@.len(),
                board_wf(self@),
                forall|name: PieceName, white: bool| has_piece(self@, name, white),
                replay_spec(moves@) == replay_from(self@, moves@, i as int),
            decreases n - i,
        {
            let white = i % 2 == 0;
            let ghost before = self@;
            let result = self.add_move(white, &moves[i]);
            proof {
                assert(replay_from(before, moves@, i as int).0 == (if add_move_spec(
                    before,
                    white,
                    moves@[i as int],
                ).1 is Some {
                    add_move_spec(before, white, moves@[i as int]).0
                } else {
                    replay_from(self@, moves@, i as int + 1).0
                }));
                assert forall|name: PieceName, w: bool| has_piece(self@, name, w) by {
                    assert(has_piece(before, name, w));
                    let k = piece_index(before, name, w);
                    assert(is_identity(before, k, name, w));
                    assert(self@[k].name == before[k].name && self@[k].white == before[k].white);
                    assert(is_identity(self@, k, name, w));
                }
            }
            match result {
                Ok(_) => {},
                Err(e) => {
                    return Err(e);
                },
            }
            i = i + 1;
        }
        Ok(())
    }

    /// A game with the given move list already replayed; an unresolvable
    /// move is reported instead.
    pub fn new_with_moves(moves: &[Move]) -> (r: Result<Game, ChessError>)
        ensures
            match r {
                Ok(game) => {
                    &&& replay_spec(moves@).1 is None
                    &&& game@ == replay_spec(moves@).0
                    &&& board_wf(game@)
                    &&& forall|name: PieceName, white: bool| has_piece(game@, name, white)
                },
                Err(e) => replay_spec(moves@).1 == Some(e),
            },
    {
        let mut game = Game { board: Board::new() };
        match game.load_moves(moves) {
            Ok(_) => Ok(game),
            Err(e) => Err(e),
        }
    }

    /// The cell this piece occupied after every ply of the game so far: its
    /// per-ply history with the current cell carried forward over the plies
    /// it sat still. The starting cell itself is not included.
    pub fn get_piece_history(&self, name: PieceName, white: bool) -> (r: Vec<Cell>)
        requires
            board_wf(self@),
            has_piece(self@, name, white),
        ensures
            r@ == cell_capture_history(
                start_cell_spec(name, white),
                self@[piece_index(self@, name, white)].history,
            ).map_values(|e: (Cell, bool)| e.0),
    {
        let piece = self.board.get_piece_with_name(name, white);
        let pairs = piece.get_cell_and_capture_history();
        let mut cells: Vec<Cell> = Vec::new();
        let n = pairs.len();
        let mut i: usize = 0;
        while i < n
            invariant
                i <= n,
                n == pairs@.len(),
                pairs@ == cell_capture_history(
                    start_cell_spec(name, white),
                    self@[piece_index(self@, name, white)].history,
                ),
                cells@.len() == i,
                forall|j: int| 0 <= j < i ==> cells@[j] == pairs@[j].0,
            decreases n - i,
        {
            let (cell, _capture) = pairs[i];
            cells.push(cell);
            i = i + 1;
        }
        proof {
            assert(cells@ =~= pairs@.map_values(|e: (Cell, bool)| e.0));
        }
        cells
    }
}

} // verus!
