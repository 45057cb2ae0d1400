use vstd::prelude::*;

use crate::board::{board_wf, has_live_at, live_index_at, Board};
use crate::cell::{offset_spec, Cell};
use crate::chess_move::Move;
use crate::piece::{PieceModel, PieceState};
use crate::types::Role;

verus! {

/// What one probed cell contributes to a legal-destination list: an
/// off-board probe adds nothing, an enemy-occupied cell adds itself, an
/// own-occupied cell adds nothing, and an empty cell adds itself.
pub open spec fn added_cells(s: Seq<PieceModel>, cell_opt: Option<Cell>, white: bool) -> Seq<Cell> {
    match cell_opt {
        Some(c) => if has_live_at(s, c) {
            if s[live_index_at(s, c)].white != white {
                seq![c]
            } else {
                Seq::empty()
            }
        } else {
            seq![c]
        },
        None => Seq::empty(),
    }
}

/// Whether a sliding ray continues past the probed cell: only past an empty
/// on-board cell.
pub open spec fn ray_continues(s: Seq<PieceModel>, cell_opt: Option<Cell>, white: bool) -> bool {
    match cell_opt {
        Some(c) => !has_live_at(s, c),
        None => false,
    }
}

/// The cells a sliding ray yields from step `k` on: each step probes the
/// cell `k` offsets away from the origin, keeps going over empty cells, and
/// stops at the board edge or at the first occupied cell, which is included
/// exactly when it holds an enemy.
pub open spec fn ray_cells(
    s: Seq<PieceModel>,
    origin: Cell,
    df: int,
    dr: int,
    white: bool,
    k: int,
) -> Seq<Cell>
    decreases 8 - k,
{
    if k < 1 || k > 7 {
        Seq::empty()
    } else {
        let step = offset_spec(origin, df * k, dr * k);
        added_cells(s, step, white) + if ray_continues(s, step, white) {
            ray_cells(s, origin, df, dr, white, k + 1)
        } else {
            Seq::empty()
        }
    }
}

/// All on-board cells strictly between steps `a` (inclusive) and `b`
/// (exclusive) along a ray are empty, and none of those steps leaves the
/// board.
pub open spec fn path_clear(
    s: Seq<PieceModel>,
    origin: Cell,
    df: int,
    dr: int,
    a: int,
    b: int,
) -> bool {
    forall|l: int|
        a <= l < b ==> (#[trigger] offset_spec(origin, df * l, dr * l)) is Some && !has_live_at(
            s,
            offset_spec(origin, df * l, dr * l)->Some_0,
        )
}

/// Two distinct steps along one ray direction land on distinct cells.
proof fn lemma_ray_cells_distinct(origin: Cell, df: int, dr: int, l: int, m: int)
    requires
        -1 <= df <= 1,
        -1 <= dr <= 1,
        !(df == 0 && dr == 0),
        1 <= l,
        1 <= m,
        l != m,
        offset_spec(origin, df * l, dr * l) is Some,
        offset_spec(origin, df * m, dr * m) is Some,
    ensures
        offset_spec(origin, df * l, dr * l)->Some_0 != offset_spec(origin, df * m, dr * m)->Some_0,
{
    let cl = offset_spec(origin, df * l, dr * l)->Some_0;
    let cm = offset_spec(origin, df * m, dr * m)->Some_0;
    if dr != 0 {
        assert(cl.row as int == origin.row as int + dr * l);
        assert(cm.row as int == origin.row as int + dr * m);
        assert(dr * l != dr * m) by (nonlinear_arith)
            requires
                dr != 0,
                l != m,
        ;
    } else {
        assert(df != 0);
        assert(df * l != 0 && df * m != 0) by (nonlinear_arith)
            requires
                df != 0,
                1 <= l,
                1 <= m,
        ;
        let vl = origin.file as int + df * l;
        let vm = origin.file as int + df * m;
        assert(cl.file == vl as char);
        assert(cm.file == vm as char);
        assert(97 <= vl <= 104 && 97 <= vm <= 104);
        assert((vl as char) as int == vl);
        assert((vm as char) as int == vm);
        assert(df * l != df * m) by (nonlinear_arith)
            requires
                df != 0,
                l != m,
        ;
    }
}

/// The ray-walk law for sliding pieces: a cell `m` steps out along a ray is
/// a legal destination exactly when every nearer step lies on the board and
/// is empty, and the cell itself is empty or holds an enemy piece. In
/// particular the walk is blocked by, and can capture, the first enemy piece
/// on the ray, and can neither move past it nor onto an own-coloured piece.
pub proof fn lemma_ray_walk_blocking(
    s: Seq<PieceModel>,
    origin: Cell,
    df: int,
    dr: int,
    white: bool,
    k: int,
    m: int,
)
    requires
        1 <= k <= m <= 7,
        -1 <= df <= 1,
        -1 <= dr <= 1,
        !(df == 0 && dr == 0),
        offset_spec(origin, df * m, dr * m) is Some,
    ensures
        ray_cells(s, origin, df, dr, white, k).contains(
            offset_spec(origin, df * m, dr * m)->Some_0,
        ) <==> (path_clear(s, origin, df, dr, k, m) && (!has_live_at(
            s,
            offset_spec(origin, df * m, dr * m)->Some_0,
        ) || s[live_index_at(s, offset_spec(origin, df * m, dr * m)->Some_0)].white != white)),
    decreases m - k,
{
    broadcast use vstd::seq_lib::group_seq_properties;

    let cm = offset_spec(origin, df * m, dr * m)->Some_0;
    let step = offset_spec(origin, df * k, dr * k);
    let ray = ray_cells(s, origin, df, dr, white, k);
    if k == m {
        if has_live_at(s, cm) {
            if s[live_index_at(s, cm)].white != white {
                assert(ray == seq![cm] + Seq::<Cell>::empty());
                assert(ray.contains(cm)) by {
                    assert(ray[0] == cm);
                }
            } else {
                assert(ray =~= Seq::<Cell>::empty());
            }
        } else {
            assert(added_cells(s, step, white) == seq![cm]);
            assert(ray[0] == cm);
            assert(ray.contains(cm));
        }
        assert(path_clear(s, origin, df, dr, k, m));
    } else {
        match step {
            None => {
                assert(ray =~= Seq::<Cell>::empty());
                assert(!path_clear(s, origin, df, dr, k, m)) by {
                    assert(!((offset_spec(origin, df * k, dr * k)) is Some));
                }
            },
            Some(ck) => {
                lemma_ray_cells_distinct(origin, df, dr, k, m);
                assert(ck != cm);
                if has_live_at(s, ck) {
                    assert(!ray_continues(s, step, white));
                    if s[live_index_at(s, ck)].white != white {
                        assert(ray == seq![ck] + Seq::<Cell>::empty());
                        assert(!ray.contains(cm)) by {
                            if ray.contains(cm) {
                                let idx = choose|idx: int| 0 <= idx < ray.len() && ray[idx] == cm;
                                assert(ray[idx] == ck);
                            }
                        }
                    } else {
                        assert(ray =~= Seq::<Cell>::empty());
                    }
                    assert(!path_clear(s, origin, df, dr, k, m)) by {
                        assert(has_live_at(
                            s,
                            (offset_spec(origin, df * k, dr * k))->Some_0,
                        ));
                    }
                } else {
                    let rest = ray_cells(s, origin, df, dr, white, k + 1);
                    assert(ray == seq![ck] + rest);
                    lemma_ray_walk_blocking(s, origin, df, dr, white, k + 1, m);
                    assert(ray.contains(cm) <==> rest.contains(cm)) by {
                        if ray.contains(cm) {
                            let idx = choose|idx: int| 0 <= idx < ray.len() && ray[idx] == cm;
                            if idx == 0 {
                                assert(ray[0] == ck);
                            } else {
                                assert(rest[idx - 1] == cm);
                                assert(rest.contains(cm));
                            }
                        }
                        if rest.contains(cm) {
                            let idx = choose|idx: int| 0 <= idx < rest.len() && rest[idx] == cm;
                            assert(ray[idx + 1] == cm);
                        }
                    }
                    assert(path_clear(s, origin, df, dr, k, m) <==> path_clear(
                        s,
                        origin,
                        df,
                        dr,
                        k + 1,
                        m,
                    )) by {
                        if path_clear(s, origin, df, dr, k + 1, m) {
                            assert forall|l: int| k <= l < m implies (#[trigger] offset_spec(
                                origin,
                                df * l,
                                dr * l,
                            )) is Some && !has_live_at(
                                s,
                                offset_spec(origin, df * l, dr * l)->Some_0,
                            ) by {
                                if l == k {
                                }
                            }
                        }
                    }
                }
            },
        }
    }
}

/// Probes one cell for a single-step or sliding mover: pushes it onto
/// `valid_cells` when it is an on-board empty cell or holds an enemy piece,
/// and reports whether a sliding ray may continue past it.
pub fn attempt_to_add_as_valid_cell(
    cell_opt: Option<Cell>,
    board: &Board,
    valid_cells: &mut Vec<Cell>,
    white: bool,
) -> (cont: bool)
    requires
        board_wf(board@),
    ensures
        final(valid_cells)@ == old(valid_cells)@ + added_cells(board@, cell_opt, white),
        cont == ray_continues(board@, cell_opt, white),
{
    let mut cont = true;
    if let Some(cell) = cell_opt {
        match board.get_piece_at_cell(&cell) {
            Some(piece) => {
                if piece.is_white() != white {
                    valid_cells.push(cell);
                    proof {
                        assert(final(valid_cells)@ =~= old(valid_cells)@ + seq![cell]);
                    }
                } else {
                    proof {
                        assert(final(valid_cells)@ =~= old(valid_cells)@ + Seq::<Cell>::empty());
                    }
                }
                cont = false;
            },
            None => {
                valid_cells.push(cell);
                proof {
                    assert(final(valid_cells)@ =~= old(valid_cells)@ + seq![cell]);
                }
            },
        }
    } else {
        cont = false;
        proof {
            assert(final(valid_cells)@ =~= old(valid_cells)@ + Seq::<Cell>::empty());
        }
    }
    cont
}

/// Walks one sliding ray, appending its legal cells in step order.
fn walk_ray(
    board: &Board,
    origin: &Cell,
    df: i32,
    dr: i32,
    white: bool,
    valid_cells: &mut Vec<Cell>,
)
    requires
        board_wf(board@),
        -1 <= df <= 1,
        -1 <= dr <= 1,
    ensures
        final(valid_cells)@ == old(valid_cells)@ + ray_cells(
            board@,
            *origin,
            df as int,
            dr as int,
            white,
            1,
        ),
{
    let ghost s = board@;
    let ghost full = ray_cells(s, *origin, df as int, dr as int, white, 1);
    let mut stop = false;
    let mut o: i32 = 1;
    while o <= 7 && !stop
        invariant
            1 <= o <= 8,
            board_wf(s),
            s == board@,
            full == ray_cells(s, *origin, df as int, dr as int, white, 1),
            -1 <= df <= 1,
            -1 <= dr <= 1,
            old(valid_cells)@ + full == valid_cells@ + (if stop {
                Seq::<Cell>::empty()
            } else {
                ray_cells(s, *origin, df as int, dr as int, white, o as int)
            }),
        decreases 8 - o + (if stop { 0int } else { 1int }),
    {
        assert(-7 <= df * o <= 7 && -7 <= dr * o <= 7) by (nonlinear_arith)
            requires
                -1 <= df <= 1,
                -1 <= dr <= 1,
                1 <= o <= 7,
        ;
        let cell_opt = Cell::new_from_cell(origin, df * o, dr * o);
        let ghost before = valid_cells@;
        let cont = attempt_to_add_as_valid_cell(cell_opt, board, valid_cells, white);
        proof {
            let k = o as int;
            assert(ray_cells(s, *origin, df as int, dr as int, white, k) == added_cells(
                s,
                cell_opt,
                white,
            ) + (if ray_continues(s, cell_opt, white) {
                ray_cells(s, *origin, df as int, dr as int, white, k + 1)
            } else {
                Seq::<Cell>::empty()
            }));
            if ray_continues(s, cell_opt, white) {
                assert(before + (added_cells(s, cell_opt, white) + ray_cells(
                    s,
                    *origin,
                    df as int,
                    dr as int,
                    white,
                    k + 1,
                )) =~= valid_cells@ + ray_cells(s, *origin, df as int, dr as int, white, k + 1));
            } else {
                assert(before + (added_cells(s, cell_opt, white) + Seq::<Cell>::empty()) =~= (
                valid_cells@ + Seq::<Cell>::empty()));
            }
        }
        stop = !cont;
        o = o + 1;
        proof {
            if o == 8 && !stop {
                assert(ray_cells(s, *origin, df as int, dr as int, white, 8)
                    =~= Seq::<Cell>::empty());
            }
        }
    }
    proof {
        assert(old(valid_cells)@ + full =~= valid_cells@);
    }
}


/// What one probed cell contributes to a pawn's destinations: a forward
/// probe adds only an empty cell, a capture probe adds only an
/// enemy-occupied cell.
pub open spec fn pawn_added(
    s: Seq<PieceModel>,
    cell_opt: Option<Cell>,
    is_take: bool,
    white: bool,
) -> Seq<Cell> {
    match cell_opt {
        Some(c) => if has_live_at(s, c) {
            if is_take && s[live_index_at(s, c)].white != white {
                seq![c]
            } else {
                Seq::empty()
            }
        } else {
            if !is_take {
                seq![c]
            } else {
                Seq::empty()
            }
        },
        None => Seq::empty(),
    }
}

/// A pawn's legal destinations: the double push while it has never moved
/// (onto an empty cell only), the two diagonal captures (onto enemy pieces
/// only), and the single push (onto an empty cell only), in that order.
pub open spec fn pawn_targets(s: Seq<PieceModel>, p: PieceModel) -> Seq<Cell> {
    let dir: int = if p.white {
        1
    } else {
        -1
    };
    let c = p.cell->Some_0;
    (if p.first_move {
        pawn_added(s, offset_spec(c, 0, 2 * dir), false, p.white)
    } else {
        Seq::empty()
    }) + pawn_added(s, offset_spec(c, -1, dir), true, p.white) + pawn_added(
        s,
        offset_spec(c, 1, dir),
        true,
        p.white,
    ) + pawn_added(s, offset_spec(c, 0, dir), false, p.white)
}

/// A knight's legal destinations: the eight jump offsets in probe order,
/// each kept when the cell is on the board and empty or enemy-occupied.
pub open spec fn knight_targets(s: Seq<PieceModel>, c: Cell, white: bool) -> Seq<Cell> {
    added_cells(s, offset_spec(c, 1, 2), white) + added_cells(s, offset_spec(c, 2, 1), white)
        + added_cells(s, offset_spec(c, 2, -1), white) + added_cells(
        s,
        offset_spec(c, 1, -2),
        white,
    ) + added_cells(s, offset_spec(c, -1, -2), white) + added_cells(
        s,
        offset_spec(c, -2, -1),
        white,
    ) + added_cells(s, offset_spec(c, -2, 1), white) + added_cells(s, offset_spec(c, -1, 2), white)
}

/// A king's legal destinations: the eight adjacent cells in probe order,
/// each kept when on the board and empty or enemy-occupied.
pub open spec fn king_targets(s: Seq<PieceModel>, c: Cell, white: bool) -> Seq<Cell> {
    added_cells(s, offset_spec(c, 0, 1), white) + added_cells(s, offset_spec(c, 1, 1), white)
        + added_cells(s, offset_spec(c, 1, 0), white) + added_cells(s, offset_spec(c, 1, -1), white)
        + added_cells(s, offset_spec(c, 0, -1), white) + added_cells(
        s,
        offset_spec(c, -1, -1),
        white,
    ) + added_cells(s, offset_spec(c, -1, 0), white) + added_cells(s, offset_spec(c, -1, 1), white)
}

/// A bishop's legal destinations: the four diagonal rays, walked north-east,
/// south-east, south-west, north-west.
pub open spec fn bishop_targets(s: Seq<PieceModel>, c: Cell, white: bool) -> Seq<Cell> {
    ray_cells(s, c, 1, 1, white, 1) + ray_cells(s, c, 1, -1, white, 1) + ray_cells(
        s,
        c,
        -1,
        -1,
        white,
        1,
    ) + ray_cells(s, c, -1, 1, white, 1)
}

/// A rook's legal destinations: the four orthogonal rays, walked right,
/// left, up, down.
pub open spec fn rook_targets(s: Seq<PieceModel>, c: Cell, white: bool) -> Seq<Cell> {
    ray_cells(s, c, 1, 0, white, 1) + ray_cells(s, c, -1, 0, white, 1) + ray_cells(
        s,
        c,
        0,
        1,
        white,
        1,
    ) + ray_cells(s, c, 0, -1, white, 1)
}

/// A queen's legal destinations: the bishop rays followed by the rook rays.
pub open spec fn queen_targets(s: Seq<PieceModel>, c: Cell, white: bool) -> Seq<Cell> {
    bishop_targets(s, c, white) + rook_targets(s, c, white)
}

/// The legal destinations of a live piece, by its role.
pub open spec fn valid_cells_spec(s: Seq<PieceModel>, p: PieceModel) -> Seq<Cell> {
    let c = p.cell->Some_0;
    match p.role {
        Role::Pawn => pawn_targets(s, p),
        Role::Knight => knight_targets(s, c, p.white),
        Role::Bishop => bishop_targets(s, c, p.white),
        Role::Rook => rook_targets(s, c, p.white),
        Role::Queen => queen_targets(s, c, p.white),
        Role::King => king_targets(s, c, p.white),
    }
}

/// Probes one pawn destination, with `is_take` deciding whether the cell
/// must hold an enemy (a capture) or must be empty (a push).
fn add_cell_if_valid(
    board: &Board,
    cell_opt: Option<Cell>,
    is_take: bool,
    white: bool,
    valid_cells: Vec<Cell>,
) -> (r: Vec<Cell>)
    requires
        board_wf(board@),
    ensures
        r@ == valid_cells@ + pawn_added(board@, cell_opt, is_take, white),
{
    let mut valid_cells = valid_cells;
    if let Some(cell) = cell_opt {
        match board.get_piece_at_cell(&cell) {
            Some(piece) => {
                if is_take && piece.is_white() != white {
                    valid_cells.push(cell);
                    proof {
                        assert(valid_cells@ =~= valid_cells@.drop_last() + seq![cell]);
                    }
                } else {
                    proof {
                        assert(valid_cells@ =~= valid_cells@ + Seq::<Cell>::empty());
                    }
                }
            },
            None => {
                if !is_take {
                    valid_cells.push(cell);
                    proof {
                        assert(valid_cells@ =~= valid_cells@.drop_last() + seq![cell]);
                    }
                } else {
                    proof {
                        assert(valid_cells@ =~= valid_cells@ + Seq::<Cell>::empty());
                    }
                }
            },
        }
    } else {
        proof {
            assert(valid_cells@ =~= valid_cells@ + Seq::<Cell>::empty());
        }
    }
    valid_cells
}

/// The legal cells of the bishop standing on `curr_cell`, whose colour is
/// read off the board.
pub fn valid_bishop_cells(board: &Board, curr_cell: &Cell) -> (r: Vec<Cell>)
    requires
        board_wf(board@),
        has_live_at(board@, *curr_cell),
    ensures
        r@ == bishop_targets(board@, *curr_cell, board@[live_index_at(board@, *curr_cell)].white),
{
    let white = match board.get_piece_at_cell(curr_cell) {
        Some(piece) => piece.is_white(),
        None => {
            proof {
                assert(false);
            }
            unreached()
        },
    };
    let mut valid_cells: Vec<Cell> = Vec::new();
    walk_ray(board, curr_cell, 1, 1, white, &mut valid_cells);
    walk_ray(board, curr_cell, 1, -1, white, &mut valid_cells);
    walk_ray(board, curr_cell, -1, -1, white, &mut valid_cells);
    walk_ray(board, curr_cell, -1, 1, white, &mut valid_cells);
    proof {
        assert(valid_cells@ =~= bishop_targets(board@, *curr_cell, white));
    }
    valid_cells
}

fn rook_valid_cells(board: &Board, curr_cell: &Cell, white: bool) -> (r: Vec<Cell>)
    requires
        board_wf(board@),
    ensures
        r@ == rook_targets(board@, *curr_cell, white),
{
    let mut valid_cells: Vec<Cell> = Vec::new();
    walk_ray(board, curr_cell, 1, 0, white, &mut valid_cells);
    walk_ray(board, curr_cell, -1, 0, white, &mut valid_cells);
    walk_ray(board, curr_cell, 0, 1, white, &mut valid_cells);
    walk_ray(board, curr_cell, 0, -1, white, &mut valid_cells);
    proof {
        assert(valid_cells@ =~= rook_targets(board@, *curr_cell, white));
    }
    valid_cells
}

fn knight_valid_cells(board: &Board, curr_cell: &Cell, white: bool) -> (r: Vec<Cell>)
    requires
        board_wf(board@),
    ensures
        r@ == knight_targets(board@, *curr_cell, white),
{
    let mut valid_cells: Vec<Cell> = Vec::new();
    attempt_to_add_as_valid_cell(
        Cell::new_from_cell(curr_cell, 1, 2),
        board,
        &mut valid_cells,
        white,
    );
    attempt_to_add_as_valid_cell(
        Cell::new_from_cell(curr_cell, 2, 1),
        board,
        &mut valid_cells,
        white,
    );
    attempt_to_add_as_valid_cell(
        Cell::new_from_cell(curr_cell, 2, -1),
        board,
        &mut valid_cells,
        white,
    );
    attempt_to_add_as_valid_cell(
        Cell::new_from_cell(curr_cell, 1, -2),
        board,
        &mut valid_cells,
        white,
    );
    attempt_to_add_as_valid_cell(
        Cell::new_from_cell(curr_cell, -1, -2),
        board,
        &mut valid_cells,
        white,
    );
    attempt_to_add_as_valid_cell(
        Cell::new_from_cell(curr_cell, -2, -1),
        board,
        &mut valid_cells,
        white,
    );
    attempt_to_add_as_valid_cell(
        Cell::new_from_cell(curr_cell, -2, 1),
        board,
        &mut valid_cells,
        white,
    );
    attempt_to_add_as_valid_cell(
        Cell::new_from_cell(curr_cell, -1, 2),
        board,
        &mut valid_cells,
        white,
    );
    proof {
        assert(valid_cells@ =~= knight_targets(board@, *curr_cell, white));
    }
    valid_cells
}

fn king_valid_cells(board: &Board, curr_cell: &Cell, white: bool) -> (r: Vec<Cell>)
    requires
        board_wf(board@),
    ensures
        r@ == king_targets(board@, *curr_cell, white),
{
    let mut valid_cells: Vec<Cell> = Vec::new();
    attempt_to_add_as_valid_cell(
        Cell::new_from_cell(curr_cell, 0, 1),
        board,
        &mut valid_cells,
        white,
    );
    attempt_to_add_as_valid_cell(
        Cell::new_from_cell(curr_cell, 1, 1),
        board,
        &mut valid_cells,
        white,
    );
    attempt_to_add_as_valid_cell(
        Cell::new_from_cell(curr_cell, 1, 0),
        board,
        &mut valid_cells,
        white,
    );
    attempt_to_add_as_valid_cell(
        Cell::new_from_cell(curr_cell, 1, -1),
        board,
        &mut valid_cells,
        white,
    );
    attempt_to_add_as_valid_cell(
        Cell::new_from_cell(curr_cell, 0, -1),
        board,
        &mut valid_cells,
        white,
    );
    attempt_to_add_as_valid_cell(
        Cell::new_from_cell(curr_cell, -1, -1),
        board,
        &mut valid_cells,
        white,
    );
    attempt_to_add_as_valid_cell(
        Cell::new_from_cell(curr_cell, -1, 0),
        board,
        &mut valid_cells,
        white,
    );
    attempt_to_add_as_valid_cell(
        Cell::new_from_cell(curr_cell, -1, 1),
        board,
        &mut valid_cells,
        white,
    );
    proof {
        assert(valid_cells@ =~= king_targets(board@, *curr_cell, white));
    }
    valid_cells
}

fn cells_contain(v: &Vec<Cell>, c: &Cell) -> (r: bool)
    ensures
        r == v@.contains(*c),
{
    let mut i: usize = 0;
    while i < v.len()
        invariant
            i <= v@.len(),
            forall|j: int| 0 <= j < i ==> v@[j] != *c,
        decreases v@.len() - i,
    {
        if v[i] == *c {
            return true;
        }
        i = i + 1;
    }
    false
}

impl PieceState {
    /// The full list of this live piece's legal destination cells against
    /// the given board.
    #[verifier::rlimit(60)]
    pub fn get_valid_cells(&self, board: &Board) -> (r: Vec<Cell>)
        requires
            board_wf(board@),
            self@.cell is Some,
            self@.role == Role::Bishop ==> has_live_at(board@, self@.cell->Some_0) && board@[
                live_index_at(board@, self@.cell->Some_0)
            ].white == self@.white,
        ensures
            r@ == valid_cells_spec(board@, self@),
    {
        let cell = match self.get_curr_cell() {
            Some(c) => c,
            None => {
                proof {
                    assert(false);
                }
                unreached()
            },
        };
        match self.get_role() {
            Role::Pawn => {
                let mut valid_cells: Vec<Cell> = Vec::new();
                let white = self.is_white();
                let direction: i32 = if white {
                    1
                } else {
                    -1
                };
                if !self.has_moved() {
                    let double_forward = Cell::new_from_cell(&cell, 0, 2 * direction);
                    valid_cells = add_cell_if_valid(board, double_forward, false, white, valid_cells);
                }
                let take_left = Cell::new_from_cell(&cell, -1, direction);
                valid_cells = add_cell_if_valid(board, take_left, true, white, valid_cells);
                let take_right = Cell::new_from_cell(&cell, 1, direction);
                valid_cells = add_cell_if_valid(board, take_right, true, white, valid_cells);
                let single_forward = Cell::new_from_cell(&cell, 0, direction);
                valid_cells = add_cell_if_valid(board, single_forward, false, white, valid_cells);
                proof {
                    assert(valid_cells@ =~= pawn_targets(board@, self@));
                }
                valid_cells
            },
            Role::Knight => knight_valid_cells(board, &cell, self.is_white()),
            Role::Bishop => valid_bishop_cells(board, &cell),
            Role::Rook => rook_valid_cells(board, &cell, self.is_white()),
            Role::Queen => {
                let white = self.is_white();
                let mut valid_cells: Vec<Cell> = Vec::new();
                walk_ray(board, &cell, 1, 1, white, &mut valid_cells);
                walk_ray(board, &cell, 1, -1, white, &mut valid_cells);
                walk_ray(board, &cell, -1, -1, white, &mut valid_cells);
                walk_ray(board, &cell, -1, 1, white, &mut valid_cells);
                walk_ray(board, &cell, 1, 0, white, &mut valid_cells);
                walk_ray(board, &cell, -1, 0, white, &mut valid_cells);
                walk_ray(board, &cell, 0, 1, white, &mut valid_cells);
                walk_ray(board, &cell, 0, -1, white, &mut valid_cells);
                proof {
                    assert(valid_cells@ =~= queen_targets(board@, cell, white));
                }
                valid_cells
            },
            Role::King => king_valid_cells(board, &cell, self.is_white()),
        }
    }

    /// Whether the notated move's destination is among this piece's legal
    /// cells on the given board.
    pub fn is_valid_move(&self, board: &Board, the_move: &Move) -> (r: bool)
        requires
            board_wf(board@),
            self@.cell is Some,
            self@.role == Role::Bishop ==> has_live_at(board@, self@.cell->Some_0) && board@[
                live_index_at(board@, self@.cell->Some_0)
            ].white == self@.white,
        ensures
            r == valid_cells_spec(board@, self@).contains(the_move.cell),
    {
        let valid_cells = self.get_valid_cells(board);
        cells_contain(&valid_cells, &the_move.cell)
    }
}



/// Every cell a ray yields lies some number of steps out along that ray's
/// direction.
proof fn lemma_ray_cells_shape(
    s: Seq<PieceModel>,
    origin: Cell,
    df: int,
    dr: int,
    white: bool,
    k: int,
)
    requires
        1 <= k,
    ensures
        forall|c: Cell|
            #[trigger] ray_cells(s, origin, df, dr, white, k).contains(c) ==> exists|l: int|
                k <= l <= 7 && #[trigger] offset_spec(origin, df * l, dr * l) == Some(c),
    decreases 8 - k,
{
    broadcast use vstd::seq_lib::group_seq_properties;

    if k > 7 {
    } else {
        let step = offset_spec(origin, df * k, dr * k);
        if ray_continues(s, step, white) {
            lemma_ray_cells_shape(s, origin, df, dr, white, k + 1);
        }
        assert forall|c: Cell|
            #[trigger] ray_cells(s, origin, df, dr, white, k).contains(c) implies exists|l: int|
            k <= l <= 7 && #[trigger] offset_spec(origin, df * l, dr * l) == Some(c) by {
            let ray = ray_cells(s, origin, df, dr, white, k);
            let idx = choose|idx: int| 0 <= idx < ray.len() && ray[idx] == c;
            if idx < added_cells(s, step, white).len() {
                assert(c == step->Some_0);
                assert(offset_spec(origin, df * k, dr * k) == Some(c));
            } else {
                let rest = ray_cells(s, origin, df, dr, white, k + 1);
                assert(rest[idx - added_cells(s, step, white).len()] == c);
                assert(rest.contains(c));
            }
        }
    }
}

/// Steps along two different ray directions never land on the same cell.
proof fn lemma_cross_ray_distinct(
    origin: Cell,
    df1: int,
    dr1: int,
    l1: int,
    df2: int,
    dr2: int,
    l2: int,
)
    requires
        -1 <= df1 <= 1,
        -1 <= dr1 <= 1,
        -1 <= df2 <= 1,
        -1 <= dr2 <= 1,
        !(df1 == 0 && dr1 == 0),
        !(df2 == 0 && dr2 == 0),
        !(df1 == df2 && dr1 == dr2),
        1 <= l1,
        1 <= l2,
        offset_spec(origin, df1 * l1, dr1 * l1) is Some,
        offset_spec(origin, df2 * l2, dr2 * l2) is Some,
    ensures
        offset_spec(origin, df1 * l1, dr1 * l1)->Some_0 != offset_spec(
            origin,
            df2 * l2,
            dr2 * l2,
        )->Some_0,
{
    let c1 = offset_spec(origin, df1 * l1, dr1 * l1)->Some_0;
    let c2 = offset_spec(origin, df2 * l2, dr2 * l2)->Some_0;
    if dr1 != dr2 {
        assert(dr1 * l1 != dr2 * l2) by (nonlinear_arith)
            requires
                -1 <= dr1 <= 1,
                -1 <= dr2 <= 1,
                dr1 != dr2,
                1 <= l1,
                1 <= l2,
        ;
        assert(c1.row as int == origin.row as int + dr1 * l1);
        assert(c2.row as int == origin.row as int + dr2 * l2);
    } else {
        assert(df1 != df2);
        assert(df1 * l1 != df2 * l2) by (nonlinear_arith)
            requires
                -1 <= df1 <= 1,
                -1 <= df2 <= 1,
                df1 != df2,
                1 <= l1,
                1 <= l2,
        ;
        if df1 != 0 {
            assert(df1 * l1 != 0) by (nonlinear_arith)
                requires
                    df1 != 0,
                    1 <= l1,
            ;
            let v1 = origin.file as int + df1 * l1;
            assert(c1.file == v1 as char && 97 <= v1 <= 104);
            assert((v1 as char) as int == v1);
        }
        if df2 != 0 {
            assert(df2 * l2 != 0) by (nonlinear_arith)
                requires
                    df2 != 0,
                    1 <= l2,
            ;
            let v2 = origin.file as int + df2 * l2;
            assert(c2.file == v2 as char && 97 <= v2 <= 104);
            assert((v2 as char) as int == v2);
        }
        assert(c1.file as int == origin.file as int + df1 * l1);
        assert(c2.file as int == origin.file as int + df2 * l2);
    }
}

/// The blocking law at the level of a whole target set: the cell `m` steps
/// out along one of the walked directions is among the targets exactly when
/// its own ray admits it, since the other directions never reach it.
proof fn lemma_four_ray_membership(
    s: Seq<PieceModel>,
    origin: Cell,
    white: bool,
    dirs: Seq<(int, int)>,
    which: int,
    m: int,
)
    requires
        dirs.len() == 4,
        forall|d: int|
            0 <= d < 4 ==> -1 <= (#[trigger] dirs[d]).0 <= 1 && -1 <= dirs[d].1 <= 1 && !(dirs[d].0
                == 0 && dirs[d].1 == 0),
        forall|d1: int, d2: int|
            0 <= d1 < d2 < 4 ==> !((#[trigger] dirs[d1]).0 == (#[trigger] dirs[d2]).0 && dirs[d1].1
                == dirs[d2].1),
        0 <= which < 4,
        1 <= m <= 7,
        offset_spec(origin, dirs[which].0 * m, dirs[which].1 * m) is Some,
    ensures
        ({
            let cm = offset_spec(origin, dirs[which].0 * m, dirs[which].1 * m)->Some_0;
            let all = ray_cells(s, origin, dirs[0].0, dirs[0].1, white, 1) + ray_cells(
                s,
                origin,
                dirs[1].0,
                dirs[1].1,
                white,
                1,
            ) + ray_cells(s, origin, dirs[2].0, dirs[2].1, white, 1) + ray_cells(
                s,
                origin,
                dirs[3].0,
                dirs[3].1,
                white,
                1,
            );
            all.contains(cm) <==> ray_cells(
                s,
                origin,
                dirs[which].0,
                dirs[which].1,
                white,
                1,
            ).contains(cm)
        }),
{
    broadcast use vstd::seq_lib::group_seq_properties;

    let cm = offset_spec(origin, dirs[which].0 * m, dirs[which].1 * m)->Some_0;
    assert forall|d: int| 0 <= d < 4 && d != which implies !ray_cells(
        s,
        origin,
        (#[trigger] dirs[d]).0,
        dirs[d].1,
        white,
        1,
    ).contains(cm) by {
        lemma_ray_cells_shape(s, origin, dirs[d].0, dirs[d].1, white, 1);
        if ray_cells(s, origin, dirs[d].0, dirs[d].1, white, 1).contains(cm) {
            let l = choose|l: int|
                1 <= l <= 7 && #[trigger] offset_spec(origin, dirs[d].0 * l, dirs[d].1 * l)
                    == Some(cm);
            lemma_cross_ray_distinct(
                origin,
                dirs[d].0,
                dirs[d].1,
                l,
                dirs[which].0,
                dirs[which].1,
                m,
            );
        }
    }
    let r0 = ray_cells(s, origin, dirs[0].0, dirs[0].1, white, 1);
    let r1 = ray_cells(s, origin, dirs[1].0, dirs[1].1, white, 1);
    let r2 = ray_cells(s, origin, dirs[2].0, dirs[2].1, white, 1);
    let r3 = ray_cells(s, origin, dirs[3].0, dirs[3].1, white, 1);
    vstd::seq_lib::lemma_seq_concat_contains_all_elements(r0, r1, cm);
    vstd::seq_lib::lemma_seq_concat_contains_all_elements(r0 + r1, r2, cm);
    vstd::seq_lib::lemma_seq_concat_contains_all_elements(r0 + r1 + r2, r3, cm);
}

/// The rook ray-walk law (and, over diagonals, the bishop's): a cell `m`
/// steps out along one walked direction is a legal rook destination exactly
/// when every nearer cell on that ray is on the board and empty, and the
/// cell itself is empty or holds an enemy.
pub proof fn lemma_rook_targets_blocking(
    s: Seq<PieceModel>,
    origin: Cell,
    white: bool,
    df: int,
    dr: int,
    m: int,
)
    requires
        (df == 1 && dr == 0) || (df == -1 && dr == 0) || (df == 0 && dr == 1) || (df == 0 && dr
            == -1),
        1 <= m <= 7,
        offset_spec(origin, df * m, dr * m) is Some,
    ensures
        ({
            let cm = offset_spec(origin, df * m, dr * m)->Some_0;
            rook_targets(s, origin, white).contains(cm) <==> (path_clear(s, origin, df, dr, 1, m)
                && (!has_live_at(s, cm) || s[live_index_at(s, cm)].white != white))
        }),
{
    let dirs: Seq<(int, int)> = seq![(1int, 0int), (-1int, 0int), (0int, 1int), (0int, -1int)];
    let which: int = if df == 1 {
        0
    } else if df == -1 {
        1
    } else if dr == 1 {
        2
    } else {
        3
    };
    lemma_four_ray_membership(s, origin, white, dirs, which, m);
    lemma_ray_walk_blocking(s, origin, df, dr, white, 1, m);
    assert(rook_targets(s, origin, white) == ray_cells(s, origin, dirs[0].0, dirs[0].1, white, 1)
        + ray_cells(s, origin, dirs[1].0, dirs[1].1, white, 1) + ray_cells(
        s,
        origin,
        dirs[2].0,
        dirs[2].1,
        white,
        1,
    ) + ray_cells(s, origin, dirs[3].0, dirs[3].1, white, 1));
}

/// The bishop ray-walk law: a cell `m` steps out along one diagonal is a
/// legal bishop destination exactly when every nearer cell on that diagonal
/// is on the board and empty, and the cell itself is empty or holds an
/// enemy: the walk is blocked by, and can capture, the first enemy piece on
/// the diagonal, and can neither pass it nor land on an own-coloured piece.
pub proof fn lemma_bishop_targets_blocking(
    s: Seq<PieceModel>,
    origin: Cell,
    white: bool,
    df: int,
    dr: int,
    m: int,
)
    requires
        (df == 1 && dr == 1) || (df == 1 && dr == -1) || (df == -1 && dr == -1) || (df == -1 && dr
            == 1),
        1 <= m <= 7,
        offset_spec(origin, df * m, dr * m) is Some,
    ensures
        ({
            let cm = offset_spec(origin, df * m, dr * m)->Some_0;
            bishop_targets(s, origin, white).contains(cm) <==> (path_clear(s, origin, df, dr, 1, m)
                && (!has_live_at(s, cm) || s[live_index_at(s, cm)].white != white))
        }),
{
    let dirs: Seq<(int, int)> = seq![(1int, 1int), (1int, -1int), (-1int, -1int), (-1int, 1int)];
    let which: int = if df == 1 && dr == 1 {
        0
    } else if df == 1 {
        1
    } else if dr == -1 {
        2
    } else {
        3
    };
    lemma_four_ray_membership(s, origin, white, dirs, which, m);
    lemma_ray_walk_blocking(s, origin, df, dr, white, 1, m);
    assert(bishop_targets(s, origin, white) == ray_cells(s, origin, dirs[0].0, dirs[0].1, white, 1)
        + ray_cells(s, origin, dirs[1].0, dirs[1].1, white, 1) + ray_cells(
        s,
        origin,
        dirs[2].0,
        dirs[2].1,
        white,
        1,
    ) + ray_cells(s, origin, dirs[3].0, dirs[3].1, white, 1));
}


} // verus!
