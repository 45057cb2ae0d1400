use vstd::prelude::*;

use crate::cell::{digit_value, is_digit_char, Cell};
use crate::text::{chars_contain, str_to_chars};
use crate::types::{role_of_char, MoveType, Role};

verus! {

/// One parsed ply of notation: which role moved, the kind of move, an
/// optional file hint for disambiguation (`' '` when absent), whether the
/// token carried a check mark, and the destination cell.
#[derive(Debug, Clone, Copy, PartialEq, Eq, Structural)]
pub struct Move {
    pub role: Role,
    pub move_type: MoveType,
    pub file_hint: char,
    pub check: bool,
    pub cell: Cell,
}

/// The failures that parsing and replaying a game can surface.
#[derive(Debug, Clone, Copy, PartialEq, Eq, Structural)]
pub enum ChessError {
    /// A notation token does not match the move grammar.
    MalformedMove,
    /// No live piece of the side to move can carry out the move.
    UnresolvableMove { white: bool, the_move: Move },
    /// A game record holds no usable move list.
    MalformedGameRecord,
}

/// The placeholder move: a pawn move of no kind towards no cell.
pub open spec fn null_move() -> Move {
    Move {
        role: Role::Pawn,
        move_type: MoveType::Null,
        file_hint: ' ',
        check: false,
        cell: Cell { file: ' ', row: 0 },
    }
}

pub open spec fn is_role_char(c: char) -> bool {
    c == 'R' || c == 'N' || c == 'B' || c == 'Q' || c == 'K'
}

pub open spec fn is_file_char(c: char) -> bool {
    crate::cell::valid_file(c)
}

/// A castle marker `O-O` starting at position `i`.
pub open spec fn castle_at(s: Seq<char>, i: int) -> bool {
    0 <= i && i + 3 <= s.len() && s[i] == 'O' && s[i + 1] == '-' && s[i + 2] == 'O'
}

pub open spec fn has_castle_marker(s: Seq<char>) -> bool {
    exists|i: int| castle_at(s, i)
}

pub open spec fn keep_in_castle(c: char) -> bool {
    c != '+' && c != '#'
}

pub open spec fn strip_castle_chars(s: Seq<char>) -> Seq<char> {
    s.filter(|c: char| keep_in_castle(c))
}

pub open spec fn keep_in_move(c: char) -> bool {
    c != 'x' && c != '+' && c != '#'
}

pub open spec fn strip_move_chars(s: Seq<char>) -> Seq<char> {
    s.filter(|c: char| keep_in_move(c))
}

/// What a castle token means: `O-O` castles kingside, anything else holding
/// the marker castles queenside; a `+` anywhere marks check.
pub open spec fn parse_castle_spec(s: Seq<char>) -> Move {
    Move {
        role: Role::King,
        move_type: if strip_castle_chars(s) == seq!['O', '-', 'O'] {
            MoveType::CastleKing
        } else {
            MoveType::CastleQueen
        },
        file_hint: ' ',
        check: s.contains('+'),
        cell: Cell { file: ' ', row: 0 },
    }
}

/// The matched groups of the move pattern at one position of the cleaned
/// token: an optional role letter, an optional file hint, then the
/// destination file and row digit. The alternatives stand in the order the
/// pattern prefers them: role with hint, role without, hint without role,
/// bare destination.
pub open spec fn match_at(t: Seq<char>, i: int) -> Option<(Option<char>, Option<char>, char, char)> {
    if 0 <= i && i + 4 <= t.len() && is_role_char(t[i]) && is_file_char(t[i + 1]) && is_file_char(
        t[i + 2],
    ) && is_digit_char(t[i + 3]) {
        Some((Some(t[i]), Some(t[i + 1]), t[i + 2], t[i + 3]))
    } else if 0 <= i && i + 3 <= t.len() && is_role_char(t[i]) && is_file_char(t[i + 1])
        && is_digit_char(t[i + 2]) {
        Some((Some(t[i]), None, t[i + 1], t[i + 2]))
    } else if 0 <= i && i + 3 <= t.len() && is_file_char(t[i]) && is_file_char(t[i + 1])
        && is_digit_char(t[i + 2]) {
        Some((None, Some(t[i]), t[i + 1], t[i + 2]))
    } else if 0 <= i && i + 2 <= t.len() && is_file_char(t[i]) && is_digit_char(t[i + 1]) {
        Some((None, None, t[i], t[i + 1]))
    } else {
        None
    }
}

/// The leftmost position at which the move pattern matches, if any.
pub open spec fn first_match_from(t: Seq<char>, i: int) -> Option<
    (Option<char>, Option<char>, char, char),
>
    decreases t.len() - i,
{
    if i < 0 || i >= t.len() {
        None
    } else if match_at(t, i) is Some {
        match_at(t, i)
    } else {
        first_match_from(t, i + 1)
    }
}

/// What a non-castle token means. The empty token is the placeholder move;
/// otherwise the token, with `x`, `+` and `#` removed, must hold the pattern
/// role-letter? file-hint? destination-file destination-digit, and the raw
/// token's `x` decides a capture, its `+` a check.
pub open spec fn parse_non_castle_spec(s: Seq<char>) -> Result<Move, ChessError> {
    if s.len() == 0 {
        Ok(null_move())
    } else {
        let clean = strip_move_chars(s);
        match first_match_from(clean, 0) {
            Some((role_c, hint_c, dest_file, dest_digit)) => Ok(
                Move {
                    role: match role_c {
                        Some(c) => role_of_char(c),
                        None => Role::Pawn,
                    },
                    move_type: if s.contains('x') {
                        MoveType::Take
                    } else {
                        MoveType::Simple
                    },
                    file_hint: match hint_c {
                        Some(c) => c,
                        None => ' ',
                    },
                    check: s.contains('+'),
                    cell: Cell { file: dest_file, row: digit_value(dest_digit) as i32 },
                },
            ),
            None => Err(ChessError::MalformedMove),
        }
    }
}

/// What parsing a token yields: a token holding `O-O` is a castle, every
/// other token goes through the move pattern.
#[verifier::opaque]
pub open spec fn parse_spec(s: Seq<char>) -> Result<Move, ChessError> {
    if has_castle_marker(s) {
        Ok(parse_castle_spec(s))
    } else {
        parse_non_castle_spec(s)
    }
}

/// Whatever the pattern matches is made of characters of the right classes.
proof fn lemma_first_match_classes(t: Seq<char>, i: int)
    requires
        first_match_from(t, i) is Some,
    ensures
        ({
            let (role_c, hint_c, dest_file, dest_digit) = first_match_from(t, i)->Some_0;
            &&& (role_c is Some ==> is_role_char(role_c->0))
            &&& (hint_c is Some ==> is_file_char(hint_c->0))
            &&& is_file_char(dest_file)
            &&& is_digit_char(dest_digit)
        }),
    decreases t.len() - i,
{
    if i < 0 || i >= t.len() {
    } else if match_at(t, i) is Some {
    } else {
        lemma_first_match_classes(t, i + 1);
    }
}

/// What parsing a whole token list yields: each token in order, stopping at
/// the first malformed one.
pub open spec fn parse_moves_spec(ms: Seq<&str>) -> Result<Seq<Move>, ChessError>
    decreases ms.len(),
{
    if ms.len() == 0 {
        Ok(Seq::empty())
    } else {
        match parse_spec(ms[0]@) {
            Err(e) => Err(e),
            Ok(m) => match parse_moves_spec(ms.drop_first()) {
                Err(e) => Err(e),
                Ok(rest) => Ok(seq![m] + rest),
            },
        }
    }
}


/// What parsing a list of tokens, given directly as character sequences,
/// yields: each token in order, stopping at the first malformed one.
pub open spec fn parse_token_list(ts: Seq<Seq<char>>) -> Result<Seq<Move>, ChessError>
    decreases ts.len(),
{
    if ts.len() == 0 {
        Ok(Seq::empty())
    } else {
        match parse_spec(ts[0]) {
            Err(e) => Err(e),
            Ok(m) => match parse_token_list(ts.drop_first()) {
                Err(e) => Err(e),
                Ok(rest) => Ok(seq![m] + rest),
            },
        }
    }
}

/// Parsing a list of string tokens is parsing their character sequences.
pub proof fn lemma_parse_moves_spec_views(ms: Seq<&str>)
    ensures
        parse_moves_spec(ms) == parse_token_list(ms.map_values(|s: &str| s@)),
    decreases ms.len(),
{
    let views = ms.map_values(|s: &str| s@);
    if ms.len() == 0 {
    } else {
        lemma_parse_moves_spec_views(ms.drop_first());
        assert(views[0] == ms[0]@);
        assert(ms.drop_first().map_values(|s: &str| s@) =~= views.drop_first());
    }
}

/// Splits the token-list spec at position `i`: once the first `i` tokens are
/// known to parse to `pre`, the whole result is `pre` followed by whatever
/// the remaining tokens yield.
proof fn lemma_parse_moves_prefix(ms: Seq<&str>, i: int, pre: Seq<Move>)
    requires
        0 <= i <= ms.len(),
        pre.len() == i,
        forall|j: int| 0 <= j < i ==> parse_spec(ms[j]@) == Ok::<Move, ChessError>(pre[j]),
    ensures
        parse_moves_spec(ms) == (match parse_moves_spec(ms.subrange(i, ms.len() as int)) {
            Ok(rest) => Ok::<Seq<Move>, ChessError>(pre + rest),
            Err(e) => Err::<Seq<Move>, ChessError>(e),
        }),
    decreases i,
{
    if i == 0 {
        assert(ms.subrange(0, ms.len() as int) =~= ms);
        match parse_moves_spec(ms) {
            Ok(rest) => {
                assert(pre + rest =~= rest);
            },
            Err(_) => {},
        }
    } else {
        lemma_parse_moves_prefix(ms, i - 1, pre.take(i - 1));
        let mid = ms.subrange(i - 1, ms.len() as int);
        assert(mid.len() > 0);
        assert(mid[0] == ms[i - 1]);
        assert(parse_spec(mid[0]@) == Ok::<Move, ChessError>(pre[i - 1]));
        assert(mid.drop_first() =~= ms.subrange(i, ms.len() as int));
        match parse_moves_spec(ms.subrange(i, ms.len() as int)) {
            Ok(rest) => {
                assert(parse_moves_spec(mid) == Ok::<Seq<Move>, ChessError>(
                    seq![pre[i - 1]] + rest,
                ));
                assert(pre.take(i - 1) + (seq![pre[i - 1]] + rest) =~= pre + rest);
            },
            Err(e) => {
                assert(parse_moves_spec(mid) == Err::<Seq<Move>, ChessError>(e));
            },
        }
    }
}

fn is_role_char_exec(c: char) -> (r: bool)
    ensures
        r == is_role_char(c),
{
    c == 'R' || c == 'N' || c == 'B' || c == 'Q' || c == 'K'
}

fn is_file_char_exec(c: char) -> (r: bool)
    ensures
        r == is_file_char(c),
{
    'a' <= c && c <= 'h'
}

fn is_digit_char_exec(c: char) -> (r: bool)
    ensures
        r == is_digit_char(c),
{
    '0' <= c && c <= '9'
}

fn has_castle_exec(t: &Vec<char>) -> (r: bool)
    ensures
        r == has_castle_marker(t@),
{
    let n = t.len();
    let mut i: usize = 0;
    while i < n
        invariant
            i <= n,
            n == t@.len(),
            forall|j: int| 0 <= j < i ==> !castle_at(t@, j),
        decreases n - i,
    {
        if n - i >= 3 {
            if t[i] == 'O' && t[i + 1] == '-' && t[i + 2] == 'O' {
                assert(castle_at(t@, i as int));
                return true;
            }
        }
        assert(!castle_at(t@, i as int));
        i = i + 1;
    }
    assert forall|j: int| !castle_at(t@, j) by {
        if 0 <= j && j + 3 <= t@.len() {
            assert(j < i);
        }
    }
    false
}

fn strip_with_castle_filter(t: &Vec<char>) -> (r: Vec<char>)
    ensures
        r@ == strip_castle_chars(t@),
{
    let mut out: Vec<char> = Vec::new();
    let mut i: usize = 0;
    proof {
        assert(t@.subrange(0, 0) =~= Seq::<char>::empty());
        reveal(Seq::filter);
    }
    while i < t.len()
        invariant
            i <= t@.len(),
            out@ == strip_castle_chars(t@.subrange(0, i as int)),
        decreases t@.len() - i,
    {
        let c = t[i];
        proof {
            reveal(Seq::filter);
            let pre = t@.subrange(0, i as int);
            let post = t@.subrange(0, i + 1);
            assert(post.drop_last() =~= pre);
            assert(post.last() == t@[i as int]);
        }
        if c != '+' && c != '#' {
            out.push(c);
        }
        i = i + 1;
    }
    proof {
        assert(t@.subrange(0, t@.len() as int) =~= t@);
    }
    out
}

fn strip_with_move_filter(t: &Vec<char>) -> (r: Vec<char>)
    ensures
        r@ == strip_move_chars(t@),
{
    let mut out: Vec<char> = Vec::new();
    let mut i: usize = 0;
    proof {
        assert(t@.subrange(0, 0) =~= Seq::<char>::empty());
        reveal(Seq::filter);
    }
    while i < t.len()
        invariant
            i <= t@.len(),
            out@ == strip_move_chars(t@.subrange(0, i as int)),
        decreases t@.len() - i,
    {
        let c = t[i];
        proof {
            reveal(Seq::filter);
            let pre = t@.subrange(0, i as int);
            let post = t@.subrange(0, i + 1);
            assert(post.drop_last() =~= pre);
            assert(post.last() == t@[i as int]);
        }
        if c != 'x' && c != '+' && c != '#' {
            out.push(c);
        }
        i = i + 1;
    }
    proof {
        assert(t@.subrange(0, t@.len() as int) =~= t@);
    }
    out
}

fn match_at_exec(t: &Vec<char>, i: usize) -> (r: Option<(Option<char>, Option<char>, char, char)>)
    requires
        i < t@.len(),
    ensures
        r == match_at(t@, i as int),
{
    let n = t.len();
    if n - i >= 4 && is_role_char_exec(t[i]) && is_file_char_exec(t[i + 1]) && is_file_char_exec(
        t[i + 2],
    ) && is_digit_char_exec(t[i + 3]) {
        Some((Some(t[i]), Some(t[i + 1]), t[i + 2], t[i + 3]))
    } else if n - i >= 3 && is_role_char_exec(t[i]) && is_file_char_exec(t[i + 1])
        && is_digit_char_exec(t[i + 2]) {
        Some((Some(t[i]), None, t[i + 1], t[i + 2]))
    } else if n - i >= 3 && is_file_char_exec(t[i]) && is_file_char_exec(t[i + 1])
        && is_digit_char_exec(t[i + 2]) {
        Some((None, Some(t[i]), t[i + 1], t[i + 2]))
    } else if n - i >= 2 && is_file_char_exec(t[i]) && is_digit_char_exec(t[i + 1]) {
        Some((None, None, t[i], t[i + 1]))
    } else {
        None
    }
}

fn find_first_match(t: &Vec<char>) -> (r: Option<(Option<char>, Option<char>, char, char)>)
    ensures
        r == first_match_from(t@, 0),
{
    let n = t.len();
    let mut i: usize = 0;
    while i < n
        invariant
            i <= n,
            n == t@.len(),
            first_match_from(t@, 0) == first_match_from(t@, i as int),
        decreases n - i,
    {
        let m = match_at_exec(t, i);
        if m.is_some() {
            return m;
        }
        i = i + 1;
    }
    None
}

fn role_of_char_exec(c: char) -> (r: Role)
    ensures
        r == role_of_char(c),
{
    if c == 'B' {
        Role::Bishop
    } else if c == 'N' {
        Role::Knight
    } else if c == 'R' {
        Role::Rook
    } else if c == 'Q' {
        Role::Queen
    } else if c == 'K' {
        Role::King
    } else {
        Role::Pawn
    }
}

impl Move {
    fn new() -> (r: Move)
        ensures
            r == null_move(),
    {
        Move {
            role: Role::Pawn,
            move_type: MoveType::Null,
            file_hint: ' ',
            check: false,
            cell: Cell { file: ' ', row: 0 },
        }
    }

    /// A placeholder move towards the named cell: the name's first character
    /// is the file, the digit after it the row.
    pub fn new_with_cell_name(cell_name: &str) -> (r: Move)
        requires
            cell_name@.len() >= 2,
            is_digit_char(cell_name@[1]),
        ensures
            r.role == Role::Pawn,
            r.move_type == MoveType::Null,
            r.file_hint == ' ',
            r.check == false,
            r.cell.file == cell_name@[0],
            r.cell.row as int == digit_value(cell_name@[1]),
    {
        Move {
            role: Role::Pawn,
            move_type: MoveType::Null,
            file_hint: ' ',
            check: false,
            cell: Cell::new(cell_name),
        }
    }

    /// A placeholder move towards the given cell.
    pub fn new_with_cell(cell: Cell) -> (r: Move)
        ensures
            r == (Move {
                role: Role::Pawn,
                move_type: MoveType::Null,
                file_hint: ' ',
                check: false,
                cell,
            }),
    {
        Move { role: Role::Pawn, move_type: MoveType::Null, file_hint: ' ', check: false, cell }
    }

    fn parse_castle_move(chars: &Vec<char>) -> (r: Move)
        ensures
            r == parse_castle_spec(chars@),
    {
        let clean = strip_with_castle_filter(chars);
        let mut the_move = Move::new();
        the_move.check = chars_contain(chars, '+');
        the_move.role = Role::King;
        if clean.len() == 3 && clean[0] == 'O' && clean[1] == '-' && clean[2] == 'O' {
            proof {
                assert(strip_castle_chars(chars@) =~= seq!['O', '-', 'O']);
            }
            the_move.move_type = MoveType::CastleKing;
        } else {
            proof {
                if strip_castle_chars(chars@) == seq!['O', '-', 'O'] {
                    assert(strip_castle_chars(chars@)[0] == 'O');
                    assert(strip_castle_chars(chars@)[1] == '-');
                    assert(strip_castle_chars(chars@)[2] == 'O');
                }
            }
            the_move.move_type = MoveType::CastleQueen;
        }
        the_move
    }

    fn parse_non_castle_move(chars: &Vec<char>) -> (r: Result<Move, ChessError>)
        ensures
            r == parse_non_castle_spec(chars@),
    {
        if chars.len() == 0 {
            return Ok(Move::new());
        }
        let clean = strip_with_move_filter(chars);
        match find_first_match(&clean) {
            Some((role_c, hint_c, dest_file, dest_digit)) => {
                proof {
                    lemma_first_match_classes(clean@, 0);
                }
                let role = match role_c {
                    Some(c) => role_of_char_exec(c),
                    None => Role::Pawn,
                };
                let move_type = if chars_contain(chars, 'x') {
                    MoveType::Take
                } else {
                    MoveType::Simple
                };
                let file_hint = match hint_c {
                    Some(c) => c,
                    None => ' ',
                };
                let check = chars_contain(chars, '+');
                let row = (dest_digit as u32 as i32) - 48;
                Ok(Move { role, move_type, file_hint, check, cell: Cell { file: dest_file, row } })
            },
            None => Err(ChessError::MalformedMove),
        }
    }

    /// Parses one notation token, such as `"e4"`, `"Nbd2"`, `"dxe5"`,
    /// `"Qxg2#"`, `"O-O"` or `"O-O-O"`. A token that fits neither the castle
    /// form nor the move pattern is a malformed move.
    pub fn parse(move_str: &str) -> (r: Result<Move, ChessError>)
        ensures
            r == parse_spec(move_str@),
    {
        proof {
            reveal(parse_spec);
        }
        let chars = str_to_chars(move_str);
        if has_castle_exec(&chars) {
            Ok(Move::parse_castle_move(&chars))
        } else {
            Move::parse_non_castle_move(&chars)
        }
    }

    /// Parses a whole token list, stopping at the first malformed token.
    pub fn parse_moves(moves: &[&str]) -> (r: Result<Vec<Move>, ChessError>)
        ensures
            match r {
                Ok(v) => parse_moves_spec(moves@) == Ok::<Seq<Move>, ChessError>(v@),
                Err(e) => parse_moves_spec(moves@) == Err::<Seq<Move>, ChessError>(e),
            },
    {
        let mut out: Vec<Move> = Vec::new();
        let n = moves.len();
        let mut i: usize = 0;
        while i < n
            invariant
                i <= n,
                n == moves@.len(),
                out@.len() == i,
                forall|j: int|
                    0 <= j < i ==> parse_spec(moves@[j]@) == Ok::<Move, ChessError>(out@[j]),
            decreases n - i,
        {
            let m = Move::parse(moves[i]);
            match m {
                Ok(mv) => {
                    out.push(mv);
                },
                Err(e) => {
                    proof {
                        lemma_parse_moves_prefix(moves@, i as int, out@);
                        let tail = moves@.subrange(i as int, moves@.len() as int);
                        assert(tail.len() > 0);
                        assert(tail[0] == moves@[i as int]);
                        assert(parse_moves_spec(tail) == Err::<Seq<Move>, ChessError>(e));
                    }
                    return Err(e);
                },
            }
            i = i + 1;
        }
        proof {
            lemma_parse_moves_prefix(moves@, n as int, out@);
            let tail = moves@.subrange(n as int, moves@.len() as int);
            assert(tail.len() == 0);
            assert(parse_moves_spec(tail) == Ok::<Seq<Move>, ChessError>(Seq::empty()));
            assert(out@ + Seq::<Move>::empty() =~= out@);
        }
        Ok(out)
    }
}

} // verus!
