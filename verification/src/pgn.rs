use vstd::prelude::*;
use vstd::string::StrSliceExecFns;

use crate::cell::is_digit_char;
use crate::chess_move::ChessError;
use crate::text::str_to_chars;

verus! {

pub open spec fn is_ws(c: char) -> bool {
    c == ' ' || c == '\t' || c == '\r' || c == '\n'
}

/// The first position of `c` at or after `i`, or the end of the text.
pub open spec fn next_char_at(t: Seq<char>, c: char, i: int) -> int
    decreases t.len() - i,
{
    if i < 0 || i >= t.len() {
        t.len() as int
    } else if t[i] == c {
        i
    } else {
        next_char_at(t, c, i + 1)
    }
}

proof fn lemma_next_char_at(t: Seq<char>, c: char, i: int)
    requires
        0 <= i <= t.len(),
    ensures
        i <= next_char_at(t, c, i) <= t.len(),
        next_char_at(t, c, i) < t.len() ==> t[next_char_at(t, c, i)] == c,
        forall|j: int| i <= j < next_char_at(t, c, i) ==> t[j] != c,
    decreases t.len() - i,
{
    if i < t.len() && t[i] != c {
        lemma_next_char_at(t, c, i + 1);
    }
}

/// The bounds of the first line that starts with `1`, scanning line starts
/// from `i`: the line runs to the next newline, with one trailing carriage
/// return stripped.
pub open spec fn moves_line_bounds(t: Seq<char>, i: int) -> Option<(int, int)>
    decreases t.len() + 1 - i
        via moves_line_bounds_decreases
{
    if i < 0 || i >= t.len() {
        None
    } else {
        let e = next_char_at(t, '\n', i);
        let b = if e > i && t[e - 1] == '\r' {
            e - 1
        } else {
            e
        };
        if b > i && t[i] == '1' {
            Some((i, b))
        } else {
            moves_line_bounds(t, e + 1)
        }
    }
}

#[via_fn]
proof fn moves_line_bounds_decreases(t: Seq<char>, i: int) {
    if 0 <= i && i < t.len() {
        lemma_next_char_at(t, '\n', i);
    }
}

/// The end of the run of digits starting at `i`, within the bound `b`.
pub open spec fn digit_run_end(t: Seq<char>, i: int, b: int) -> int
    decreases b - i,
{
    if !(0 <= i && i < b && i < t.len() && is_digit_char(t[i])) {
        i
    } else {
        digit_run_end(t, i + 1, b)
    }
}

proof fn lemma_digit_run_end(t: Seq<char>, i: int, b: int)
    requires
        0 <= i <= b <= t.len(),
    ensures
        i <= digit_run_end(t, i, b) <= b,
        forall|j: int| i <= j < digit_run_end(t, i, b) ==> is_digit_char(t[j]),
        digit_run_end(t, i, b) < b ==> !is_digit_char(t[digit_run_end(t, i, b)]),
    decreases b - i,
{
    if 0 <= i && i < b && is_digit_char(t[i]) {
        lemma_digit_run_end(t, i + 1, b);
    }
}

/// Whether a move-number marker (a digit run followed by `". "`) starts at
/// `i`, within the bound `b`.
pub open spec fn num_match_at(t: Seq<char>, i: int, b: int) -> bool {
    0 <= i < b && b <= t.len() && is_digit_char(t[i]) && {
        let e = digit_run_end(t, i, b);
        b - e >= 2 && t[e] == '.' && t[e + 1] == ' '
    }
}

/// The first marker position at or after `i`, or the bound `b`.
pub open spec fn next_num_match(t: Seq<char>, i: int, b: int) -> int
    decreases b - i,
{
    if i < 0 || i >= b {
        b
    } else if num_match_at(t, i, b) {
        i
    } else {
        next_num_match(t, i + 1, b)
    }
}

proof fn lemma_next_num_match(t: Seq<char>, i: int, b: int)
    requires
        0 <= i <= b <= t.len(),
    ensures
        i <= next_num_match(t, i, b) <= b,
        next_num_match(t, i, b) < b ==> num_match_at(t, next_num_match(t, i, b), b),
        forall|j: int| i <= j < next_num_match(t, i, b) ==> !num_match_at(t, j, b),
    decreases b - i,
{
    if i < b && !num_match_at(t, i, b) {
        lemma_next_num_match(t, i + 1, b);
    }
}

/// The bounds of the stretches between move-number markers, in order: each
/// piece runs from the previous marker's end (or the start) to the next
/// marker (or the bound).
pub open spec fn number_pieces(t: Seq<char>, i: int, b: int) -> Seq<(int, int)>
    decreases b + 1 - i
        via number_pieces_decreases
{
    if i < 0 || i > b || b > t.len() {
        Seq::empty()
    } else {
        let m = next_num_match(t, i, b);
        if m >= b {
            seq![(i, b)]
        } else {
            seq![(i, m)] + number_pieces(t, digit_run_end(t, m, b) + 2, b)
        }
    }
}

#[via_fn]
proof fn number_pieces_decreases(t: Seq<char>, i: int, b: int) {
    if 0 <= i && i <= b && b <= t.len() {
        lemma_next_num_match(t, i, b);
        let m = next_num_match(t, i, b);
        if m < b {
            lemma_digit_run_end(t, m, b);
        }
    }
}

proof fn lemma_number_pieces_bounds(t: Seq<char>, i: int, b: int)
    requires
        0 <= i <= b <= t.len(),
    ensures
        number_pieces(t, i, b).len() >= 1,
        forall|k: int|
            0 <= k < number_pieces(t, i, b).len() ==> i <= (#[trigger] number_pieces(t, i, b)[k]).0
                <= number_pieces(t, i, b)[k].1 <= b,
    decreases b + 1 - i,
{
    lemma_next_num_match(t, i, b);
    let m = next_num_match(t, i, b);
    if m < b {
        lemma_digit_run_end(t, m, b);
        let e2 = digit_run_end(t, m, b) + 2;
        lemma_number_pieces_bounds(t, e2, b);
    }
}

/// The first position of `c` in `[i, b)`, or `b`.
pub open spec fn next_char_in(t: Seq<char>, c: char, i: int, b: int) -> int
    decreases b - i,
{
    if i < 0 || i >= b || i >= t.len() {
        b
    } else if t[i] == c {
        i
    } else {
        next_char_in(t, c, i + 1, b)
    }
}

proof fn lemma_next_char_in(t: Seq<char>, c: char, i: int, b: int)
    requires
        0 <= i <= b <= t.len(),
    ensures
        i <= next_char_in(t, c, i, b) <= b,
        next_char_in(t, c, i, b) < b ==> t[next_char_in(t, c, i, b)] == c,
        forall|j: int| i <= j < next_char_in(t, c, i, b) ==> t[j] != c,
    decreases b - i,
{
    if i < b && t[i] != c {
        lemma_next_char_in(t, c, i + 1, b);
    }
}

/// The bounds of the space-separated parts of `[s, e)`, empty parts kept.
pub open spec fn space_parts(t: Seq<char>, s: int, e: int) -> Seq<(int, int)>
    decreases e + 1 - s
        via space_parts_decreases
{
    if s < 0 || s > e || e > t.len() {
        Seq::empty()
    } else {
        let p = next_char_in(t, ' ', s, e);
        if p >= e {
            seq![(s, e)]
        } else {
            seq![(s, p)] + space_parts(t, p + 1, e)
        }
    }
}

#[via_fn]
proof fn space_parts_decreases(t: Seq<char>, s: int, e: int) {
    if 0 <= s && s <= e && e <= t.len() {
        lemma_next_char_in(t, ' ', s, e);
    }
}

proof fn lemma_space_parts_bounds(t: Seq<char>, s: int, e: int)
    requires
        0 <= s <= e <= t.len(),
    ensures
        space_parts(t, s, e).len() >= 1,
        forall|k: int|
            0 <= k < space_parts(t, s, e).len() ==> s <= (#[trigger] space_parts(t, s, e)[k]).0
                <= space_parts(t, s, e)[k].1 <= e,
    decreases e + 1 - s,
{
    lemma_next_char_in(t, ' ', s, e);
    let p = next_char_in(t, ' ', s, e);
    if p < e {
        lemma_space_parts_bounds(t, p + 1, e);
    }
}

/// The first non-whitespace position in `[s, e)`, or `e`.
pub open spec fn trim_start_pos(t: Seq<char>, s: int, e: int) -> int
    decreases e - s,
{
    if s < 0 || s >= e || e > t.len() {
        s
    } else if is_ws(t[s]) {
        trim_start_pos(t, s + 1, e)
    } else {
        s
    }
}

/// The position after the last non-whitespace character in `[s, e)`, or `s`.
pub open spec fn trim_end_pos(t: Seq<char>, s: int, e: int) -> int
    decreases e - s,
{
    if s < 0 || e <= s || e > t.len() {
        e
    } else if is_ws(t[e - 1]) {
        trim_end_pos(t, s, e - 1)
    } else {
        e
    }
}

/// The bounds of `[s, e)` with leading and trailing whitespace dropped.
pub open spec fn trim_bounds(t: Seq<char>, s: int, e: int) -> (int, int) {
    let ts = trim_start_pos(t, s, e);
    (ts, trim_end_pos(t, ts, e))
}

proof fn lemma_trim_start_pos(t: Seq<char>, s: int, e: int)
    requires
        0 <= s <= e <= t.len(),
    ensures
        s <= trim_start_pos(t, s, e) <= e,
    decreases e - s,
{
    if s < e && is_ws(t[s]) {
        lemma_trim_start_pos(t, s + 1, e);
    }
}

proof fn lemma_trim_end_pos(t: Seq<char>, s: int, e: int)
    requires
        0 <= s <= e <= t.len(),
    ensures
        s <= trim_end_pos(t, s, e) <= e,
    decreases e - s,
{
    if s < e && is_ws(t[e - 1]) {
        lemma_trim_end_pos(t, s, e - 1);
    }
}

/// What one numbered stretch means: two space-separated parts are a lone
/// white move, three are a white and a black move; anything else is a
/// malformed record. Each kept part is trimmed.
pub open spec fn pair_bounds(t: Seq<char>, s: int, e: int) -> Result<
    ((int, int), Option<(int, int)>),
    ChessError,
> {
    let parts = space_parts(t, s, e);
    if parts.len() == 2 {
        Ok((trim_bounds(t, parts[0].0, parts[0].1), None))
    } else if parts.len() == 3 {
        Ok((trim_bounds(t, parts[0].0, parts[0].1), Some(trim_bounds(t, parts[1].0, parts[1].1))))
    } else {
        Err(ChessError::MalformedGameRecord)
    }
}

/// The white/black pair of every piece from index `i` on, stopping at the
/// first malformed one.
pub open spec fn pairs_list(t: Seq<char>, pieces: Seq<(int, int)>, i: int) -> Result<
    Seq<((int, int), Option<(int, int)>)>,
    ChessError,
>
    decreases pieces.len() - i,
{
    if i < 0 || i >= pieces.len() {
        Ok(Seq::empty())
    } else {
        match pair_bounds(t, pieces[i].0, pieces[i].1) {
            Err(e) => Err(e),
            Ok(p) => match pairs_list(t, pieces, i + 1) {
                Err(e) => Err(e),
                Ok(rest) => Ok(seq![p] + rest),
            },
        }
    }
}

proof fn lemma_pairs_list_len(t: Seq<char>, pieces: Seq<(int, int)>, i: int)
    requires
        0 <= i <= pieces.len(),
        pairs_list(t, pieces, i) is Ok,
    ensures
        pairs_list(t, pieces, i)->Ok_0.len() == pieces.len() - i,
    decreases pieces.len() - i,
{
    if i < pieces.len() {
        lemma_pairs_list_len(t, pieces, i + 1);
    }
}

/// The token bounds the pairs flatten to: each white move, then its black
/// move; a pair without a black move ends the list.
pub open spec fn flatten_pairs(ps: Seq<((int, int), Option<(int, int)>)>, i: int) -> Seq<(int, int)>
    decreases ps.len() - i,
{
    if i < 0 || i >= ps.len() {
        Seq::empty()
    } else {
        seq![ps[i].0] + match ps[i].1 {
            Some(bm) => seq![bm] + flatten_pairs(ps, i + 1),
            None => Seq::empty(),
        }
    }
}

/// What extracting the move tokens from a raw game record yields: the first
/// line starting with `1` is split on numbered markers, the leading stretch
/// is dropped, each remaining stretch becomes a white/black pair, and the
/// pairs flatten into tokens; a record whose token count does not match its
/// pair count (a missing black move before the final pair) is malformed.
pub open spec fn parse_moves_tokens(t: Seq<char>) -> Result<Seq<(int, int)>, ChessError> {
    match moves_line_bounds(t, 0) {
        None => Err(ChessError::MalformedGameRecord),
        Some(ab) => {
            let pieces = number_pieces(t, ab.0, ab.1);
            let rest = if pieces.len() >= 1 {
                pieces.drop_first()
            } else {
                pieces
            };
            match pairs_list(t, rest, 0) {
                Err(e) => Err(e),
                Ok(pairs) => {
                    let toks = flatten_pairs(pairs, 0);
                    if toks.len() == 2 * pairs.len() || toks.len() + 1 == 2 * pairs.len() {
                        Ok(toks)
                    } else {
                        Err(ChessError::MalformedGameRecord)
                    }
                },
            }
        },
    }
}

fn next_char_at_exec(t: &Vec<char>, c: char, i: usize) -> (r: usize)
    ensures
        r as int == next_char_at(t@, c, i as int),
        r <= t@.len(),
    decreases t@.len() - i,
{
    if i >= t.len() {
        t.len()
    } else if t[i] == c {
        i
    } else {
        next_char_at_exec(t, c, i + 1)
    }
}

fn find_moves_line(t: &Vec<char>, i: usize) -> (r: Option<(usize, usize)>)
    ensures
        match r {
            Some(ab) => moves_line_bounds(t@, i as int) == Some((ab.0 as int, ab.1 as int)) && ab.0
                <= ab.1 <= t@.len(),
            None => moves_line_bounds(t@, i as int) is None,
        },
    decreases t@.len() + 1 - i,
{
    if i >= t.len() {
        None
    } else {
        let e = next_char_at_exec(t, '\n', i);
        proof {
            lemma_next_char_at(t@, '\n', i as int);
        }
        let b = if e > i && t[e - 1] == '\r' {
            e - 1
        } else {
            e
        };
        if b > i && t[i] == '1' {
            Some((i, b))
        } else if e == t.len() {
            proof {
                assert(moves_line_bounds(t@, e as int + 1) is None);
            }
            None
        } else {
            find_moves_line(t, e + 1)
        }
    }
}

fn digit_run_end_exec(t: &Vec<char>, i: usize, b: usize) -> (r: usize)
    requires
        b <= t@.len(),
    ensures
        r as int == digit_run_end(t@, i as int, b as int),
        i <= r || r == i,
    decreases b - i,
{
    if !(i < b && t[i] >= '0' && t[i] <= '9') {
        i
    } else {
        digit_run_end_exec(t, i + 1, b)
    }
}

fn num_match_at_exec(t: &Vec<char>, i: usize, b: usize) -> (r: bool)
    requires
        b <= t@.len(),
    ensures
        r == num_match_at(t@, i as int, b as int),
{
    if i < b && t[i] >= '0' && t[i] <= '9' {
        let e = digit_run_end_exec(t, i, b);
        proof {
            lemma_digit_run_end(t@, i as int, b as int);
        }
        b - e >= 2 && t[e] == '.' && t[e + 1] == ' '
    } else {
        false
    }
}

fn next_num_match_exec(t: &Vec<char>, i: usize, b: usize) -> (r: usize)
    requires
        b <= t@.len(),
    ensures
        r as int == next_num_match(t@, i as int, b as int),
        r <= b,
    decreases b - i,
{
    if i >= b {
        b
    } else if num_match_at_exec(t, i, b) {
        i
    } else {
        next_num_match_exec(t, i + 1, b)
    }
}

fn number_pieces_exec(t: &Vec<char>, i: usize, b: usize) -> (r: Vec<(usize, usize)>)
    requires
        i <= b,
        b <= t@.len(),
    ensures
        r@.len() == number_pieces(t@, i as int, b as int).len(),
        forall|k: int|
            0 <= k < r@.len() ==> ((#[trigger] r@[k]).0 as int, r@[k].1 as int) == number_pieces(
                t@,
                i as int,
                b as int,
            )[k],
    decreases b + 1 - i,
{
    let m = next_num_match_exec(t, i, b);
    proof {
        lemma_next_num_match(t@, i as int, b as int);
    }
    if m >= b {
        let mut v: Vec<(usize, usize)> = Vec::new();
        v.push((i, b));
        v
    } else {
        let e = digit_run_end_exec(t, m, b);
        proof {
            lemma_digit_run_end(t@, m as int, b as int);
        }
        let mut rest = number_pieces_exec(t, e + 2, b);
        rest.insert(0, (i, m));
        rest
    }
}

fn next_char_in_exec(t: &Vec<char>, c: char, i: usize, b: usize) -> (r: usize)
    requires
        b <= t@.len(),
    ensures
        r as int == next_char_in(t@, c, i as int, b as int),
        r <= b,
    decreases b - i,
{
    if i >= b {
        b
    } else if t[i] == c {
        i
    } else {
        next_char_in_exec(t, c, i + 1, b)
    }
}

fn space_parts_exec(t: &Vec<char>, s: usize, e: usize) -> (r: Vec<(usize, usize)>)
    requires
        s <= e,
        e <= t@.len(),
    ensures
        r@.len() == space_parts(t@, s as int, e as int).len(),
        forall|k: int|
            0 <= k < r@.len() ==> ((#[trigger] r@[k]).0 as int, r@[k].1 as int) == space_parts(
                t@,
                s as int,
                e as int,
            )[k],
    decreases e + 1 - s,
{
    let p = next_char_in_exec(t, ' ', s, e);
    proof {
        lemma_next_char_in(t@, ' ', s as int, e as int);
    }
    if p >= e {
        let mut v: Vec<(usize, usize)> = Vec::new();
        v.push((s, e));
        v
    } else {
        let mut rest = space_parts_exec(t, p + 1, e);
        rest.insert(0, (s, p));
        rest
    }
}

fn trim_start_pos_exec(t: &Vec<char>, s: usize, e: usize) -> (r: usize)
    requires
        s <= e,
        e <= t@.len(),
    ensures
        r as int == trim_start_pos(t@, s as int, e as int),
        s <= r <= e,
    decreases e - s,
{
    if s < e && (t[s] == ' ' || t[s] == '\t' || t[s] == '\r' || t[s] == '\n') {
        trim_start_pos_exec(t, s + 1, e)
    } else {
        s
    }
}

fn trim_end_pos_exec(t: &Vec<char>, s: usize, e: usize) -> (r: usize)
    requires
        s <= e,
        e <= t@.len(),
    ensures
        r as int == trim_end_pos(t@, s as int, e as int),
        s <= r <= e,
    decreases e - s,
{
    if s < e && (t[e - 1] == ' ' || t[e - 1] == '\t' || t[e - 1] == '\r' || t[e - 1] == '\n') {
        trim_end_pos_exec(t, s, e - 1)
    } else {
        e
    }
}

fn trim_bounds_exec(t: &Vec<char>, s: usize, e: usize) -> (r: (usize, usize))
    requires
        s <= e,
        e <= t@.len(),
    ensures
        (r.0 as int, r.1 as int) == trim_bounds(t@, s as int, e as int),
        s <= r.0 <= r.1 <= e,
{
    let ts = trim_start_pos_exec(t, s, e);
    let te = trim_end_pos_exec(t, ts, e);
    proof {
        lemma_trim_end_pos(t@, ts as int, e as int);
    }
    (ts, te)
}

fn pair_bounds_exec(t: &Vec<char>, s: usize, e: usize) -> (r: Result<
    ((usize, usize), Option<(usize, usize)>),
    ChessError,
>)
    requires
        s <= e,
        e <= t@.len(),
    ensures
        match r {
            Ok(p) => ({
                let w = p.0;
                let bl = p.1;
                &&& pair_bounds(t@, s as int, e as int) == Ok::<
                    ((int, int), Option<(int, int)>),
                    ChessError,
                >(
                    (
                        (w.0 as int, w.1 as int),
                        match bl {
                            Some(bm) => Some((bm.0 as int, bm.1 as int)),
                            None => None,
                        },
                    ),
                )
                &&& w.0 <= w.1 <= t@.len()
                &&& (bl is Some ==> (bl->0).0 <= (bl->0).1 <= t@.len())
            }),
            Err(err) => pair_bounds(t@, s as int, e as int) == Err::<
                ((int, int), Option<(int, int)>),
                ChessError,
            >(err),
        },
{
    let parts = space_parts_exec(t, s, e);
    proof {
        lemma_space_parts_bounds(t@, s as int, e as int);
    }
    if parts.len() == 2 {
        let (p0s, p0e) = parts[0];
        let w = trim_bounds_exec(t, p0s, p0e);
        Ok((w, None))
    } else if parts.len() == 3 {
        let (p0s, p0e) = parts[0];
        let (p1s, p1e) = parts[1];
        let w = trim_bounds_exec(t, p0s, p0e);
        let bl = trim_bounds_exec(t, p1s, p1e);
        Ok((w, Some(bl)))
    } else {
        Err(ChessError::MalformedGameRecord)
    }
}

/// The view of a vector of exec bounds as mathematical pairs.
pub open spec fn bounds_view(v: Seq<(usize, usize)>) -> Seq<(int, int)> {
    v.map_values(|p: (usize, usize)| (p.0 as int, p.1 as int))
}

fn pairs_list_exec(t: &Vec<char>, pieces: &Vec<(usize, usize)>, i: usize) -> (r: Result<
    Vec<((usize, usize), Option<(usize, usize)>)>,
    ChessError,
>)
    requires
        forall|k: int|
            0 <= k < pieces@.len() ==> (#[trigger] pieces@[k]).0 <= pieces@[k].1 <= t@.len(),
    ensures
        match r {
            Ok(ps) => {
                &&& pairs_list(t@, bounds_view(pieces@), i as int) is Ok
                &&& ps@.len() == pairs_list(t@, bounds_view(pieces@), i as int)->Ok_0.len()
                &&& forall|k: int|
                    0 <= k < ps@.len() ==> {
                        let sp = pairs_list(t@, bounds_view(pieces@), i as int)->Ok_0[k];
                        let w = (#[trigger] ps@[k]).0;
                        let bl = ps@[k].1;
                        &&& (w.0 as int, w.1 as int) == sp.0
                        &&& (bl is Some <==> sp.1 is Some)
                        &&& (bl is Some ==> ((bl->0).0 as int, (bl->0).1 as int) == sp.1->0)
                        &&& w.0 <= w.1 <= t@.len()
                        &&& (bl is Some ==> (bl->0).0 <= (bl->0).1 <= t@.len())
                    }
            },
            Err(e) => pairs_list(t@, bounds_view(pieces@), i as int) == Err::<
                Seq<((int, int), Option<(int, int)>)>,
                ChessError,
            >(e),
        },
    decreases pieces@.len() - i,
{
    if i >= pieces.len() {
        Ok(Vec::new())
    } else {
        let (s, e) = pieces[i];
        assert(bounds_view(pieces@)[i as int] == (s as int, e as int));
        match pair_bounds_exec(t, s, e) {
            Err(err) => Err(err),
            Ok(p) => match pairs_list_exec(t, pieces, i + 1) {
                Err(err) => Err(err),
                Ok(mut rest) => {
                    rest.insert(0, p);
                    Ok(rest)
                },
            },
        }
    }
}

proof fn lemma_flatten_pairs_bounds(
    ps: Seq<((int, int), Option<(int, int)>)>,
    i: int,
    limit: int,
)
    requires
        forall|k: int|
            0 <= k < ps.len() ==> {
                let w = (#[trigger] ps[k]).0;
                let bl = ps[k].1;
                &&& 0 <= w.0 <= w.1 <= limit
                &&& (bl is Some ==> 0 <= (bl->0).0 <= (bl->0).1 <= limit)
            },
    ensures
        forall|j: int|
            0 <= j < flatten_pairs(ps, i).len() ==> 0 <= (#[trigger] flatten_pairs(ps, i)[j]).0
                <= flatten_pairs(ps, i)[j].1 <= limit,
    decreases ps.len() - i,
{
    if 0 <= i && i < ps.len() {
        lemma_flatten_pairs_bounds(ps, i + 1, limit);
        let f = flatten_pairs(ps, i);
        let w = ps[i].0;
        assert(0 <= w.0 <= w.1 <= limit);
        match ps[i].1 {
            Some(bm) => {
                assert(f == seq![w] + (seq![bm] + flatten_pairs(ps, i + 1)));
                assert forall|j: int|
                    0 <= j < f.len() implies 0 <= (#[trigger] f[j]).0 <= f[j].1 <= limit by {
                    if j == 0 {
                        assert(f[j] == w);
                    } else if j == 1 {
                        assert(f[j] == bm);
                    } else {
                        assert(f[j] == flatten_pairs(ps, i + 1)[j - 2]);
                    }
                }
            },
            None => {
                assert(f == seq![w] + Seq::<(int, int)>::empty());
                assert forall|j: int|
                    0 <= j < f.len() implies 0 <= (#[trigger] f[j]).0 <= f[j].1 <= limit by {
                    assert(f[j] == w);
                }
            },
        }
    }
}

fn flatten_pairs_exec(ps: &Vec<((usize, usize), Option<(usize, usize)>)>, i: usize) -> (r: Vec<
    (usize, usize),
>)
    ensures
        ({
            let sview = ps@.map_values(
                |p: ((usize, usize), Option<(usize, usize)>)|
                    (
                        ((p.0).0 as int, (p.0).1 as int),
                        match p.1 {
                            Some(bm) => Some((bm.0 as int, bm.1 as int)),
                            None => None::<(int, int)>,
                        },
                    ),
            );
            &&& r@.len() == flatten_pairs(sview, i as int).len()
            &&& forall|k: int|
                0 <= k < r@.len() ==> ((#[trigger] r@[k]).0 as int, r@[k].1 as int) == flatten_pairs(
                    sview,
                    i as int,
                )[k]
        }),
    decreases ps@.len() - i,
{
    if i >= ps.len() {
        Vec::new()
    } else {
        let (w, b_opt) = ps[i];
        match b_opt {
            Some(bm) => {
                let mut rest = flatten_pairs_exec(ps, i + 1);
                rest.insert(0, bm);
                rest.insert(0, w);
                rest
            },
            None => {
                let mut v: Vec<(usize, usize)> = Vec::new();
                v.push(w);
                v
            },
        }
    }
}

/// Extracts the per-ply notation tokens from a raw game record: the first
/// line starting with `1` holds the numbered moves. A record with no such
/// line, a stretch that is not one or two moves, or a black move missing
/// before the final pair is malformed.
pub fn parse_moves(game: &str) -> (r: Result<Vec<&str>, ChessError>)
    ensures
        match r {
            Ok(tokens) => {
                &&& parse_moves_tokens(game@) is Ok
                &&& tokens@.len() == parse_moves_tokens(game@)->Ok_0.len()
                &&& forall|k: int|
                    0 <= k < tokens@.len() ==> (#[trigger] tokens@[k])@ == game@.subrange(
                        parse_moves_tokens(game@)->Ok_0[k].0,
                        parse_moves_tokens(game@)->Ok_0[k].1,
                    )
            },
            Err(e) => parse_moves_tokens(game@) == Err::<Seq<(int, int)>, ChessError>(e),
        },
{
    let chars = str_to_chars(game);
    let line = find_moves_line(&chars, 0);
    let (a, b) = match line {
        Some(ab) => ab,
        None => {
            return Err(ChessError::MalformedGameRecord);
        },
    };
    let mut pieces = number_pieces_exec(&chars, a, b);
    proof {
        lemma_number_pieces_bounds(chars@, a as int, b as int);
    }
    let ghost spec_pieces = number_pieces(chars@, a as int, b as int);
    pieces.remove(0);
    proof {
        assert(bounds_view(pieces@) =~= spec_pieces.drop_first());
    }
    let pairs = match pairs_list_exec(&chars, &pieces, 0) {
        Ok(ps) => ps,
        Err(e) => {
            return Err(e);
        },
    };
    let ghost spec_pairs = pairs_list(chars@, spec_pieces.drop_first(), 0)->Ok_0;
    let tok_bounds = flatten_pairs_exec(&pairs, 0);
    proof {
        let sview = pairs@.map_values(
            |p: ((usize, usize), Option<(usize, usize)>)|
                (
                    ((p.0).0 as int, (p.0).1 as int),
                    match p.1 {
                        Some(bm) => Some((bm.0 as int, bm.1 as int)),
                        None => None::<(int, int)>,
                    },
                ),
        );
        assert(sview =~= spec_pairs);
        lemma_pairs_list_len(chars@, spec_pieces.drop_first(), 0);
    }
    let token_count = tok_bounds.len() as u128;
    let pair_count = pairs.len() as u128;
    let ghost sview = pairs@.map_values(
        |p: ((usize, usize), Option<(usize, usize)>)|
            (
                ((p.0).0 as int, (p.0).1 as int),
                match p.1 {
                    Some(bm) => Some((bm.0 as int, bm.1 as int)),
                    None => None::<(int, int)>,
                },
            ),
    );
    proof {
        assert(sview =~= spec_pairs);
        assert(tok_bounds@.len() == flatten_pairs(spec_pairs, 0).len());
        assert(token_count as int == flatten_pairs(spec_pairs, 0).len());
        assert(pair_count as int == spec_pairs.len());
    }
    if !(token_count == 2 * pair_count || token_count + 1 == 2 * pair_count) {
        proof {
            assert(!(flatten_pairs(spec_pairs, 0).len() == 2 * spec_pairs.len() || flatten_pairs(
                spec_pairs,
                0,
            ).len() + 1 == 2 * spec_pairs.len()));
        }
        return Err(ChessError::MalformedGameRecord);
    }
    let ghost toks = parse_moves_tokens(game@)->Ok_0;
    proof {
        assert(parse_moves_tokens(game@) == Ok::<Seq<(int, int)>, ChessError>(
            flatten_pairs(spec_pairs, 0),
        ));
        assert forall|k: int|
            0 <= k < spec_pairs.len() implies {
            let w = (#[trigger] spec_pairs[k]).0;
            let bl = spec_pairs[k].1;
            &&& 0 <= w.0 <= w.1 <= game@.len()
            &&& (bl is Some ==> 0 <= (bl->0).0 <= (bl->0).1 <= game@.len())
        } by {
            assert(spec_pairs[k] == sview[k]);
        }
        lemma_flatten_pairs_bounds(spec_pairs, 0, game@.len() as int);
    }
    let mut out: Vec<&str> = Vec::new();
    let n = tok_bounds.len();
    let mut k: usize = 0;
    while k < n
        invariant
            k <= n,
            n == tok_bounds@.len(),
            chars@ == game@,
            tok_bounds@.len() == toks.len(),
            forall|j: int|
                0 <= j < n ==> ((#[trigger] tok_bounds@[j]).0 as int, tok_bounds@[j].1 as int)
                    == toks[j],
            forall|j: int|
                0 <= j < n ==> (#[trigger] tok_bounds@[j]).0 <= tok_bounds@[j].1 <= game@.len(),
            out@.len() == k,
            forall|j: int|
                0 <= j < k ==> (#[trigger] out@[j])@ == game@.subrange(toks[j].0, toks[j].1),
        decreases n - k,
    {
        let (ts, te) = tok_bounds[k];
        out.push(game.substring_char(ts, te));
        k = k + 1;
    }
    Ok(out)
}

/// Splits one numbered stretch into its white move and, when present, its
/// black move, both trimmed.
pub fn parse_move_pair(move_str: &str) -> (r: Result<(&str, Option<&str>), ChessError>)
    ensures
        match r {
            Ok(p) => {
                &&& pair_bounds(move_str@, 0, move_str@.len() as int) is Ok
                &&& ({
                    let sp = pair_bounds(move_str@, 0, move_str@.len() as int)->Ok_0;
                    let wsp = sp.0;
                    &&& p.0@ == move_str@.subrange(wsp.0, wsp.1)
                    &&& (p.1 is Some <==> sp.1 is Some)
                    &&& (p.1 is Some ==> p.1->0@ == move_str@.subrange((sp.1->0).0, (sp.1->0).1))
                })
            },
            Err(e) => pair_bounds(move_str@, 0, move_str@.len() as int) == Err::<
                ((int, int), Option<(int, int)>),
                ChessError,
            >(e),
        },
{
    let chars = str_to_chars(move_str);
    let e = chars.len();
    match pair_bounds_exec(&chars, 0, e) {
        Err(err) => Err(err),
        Ok(p) => {
            let (w, b_opt) = p;
            let white = move_str.substring_char(w.0, w.1);
            match b_opt {
                Some(bm) => {
                    let black = move_str.substring_char(bm.0, bm.1);
                    Ok((white, Some(black)))
                },
                None => Ok((white, None)),
            }
        },
    }
}

} // verus!
