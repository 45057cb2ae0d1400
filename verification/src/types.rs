use vstd::prelude::*;
use vstd::string::StrSliceExecFns;

use crate::cell::Cell;

verus! {

#[derive(Debug, PartialEq, Eq, Hash, Clone, Copy, Structural)]
pub enum Role {
    Pawn,
    Bishop,
    Knight,
    Rook,
    Queen,
    King,
}

#[derive(Debug, PartialEq, Eq, Hash, Clone, Copy, Structural)]
pub enum MoveType {
    Null,
    Simple,
    Take,
    CastleKing,
    CastleQueen,
}

/// The sixteen fixed piece identities of one side.
#[derive(Debug, PartialEq, Eq, Clone, Copy, Structural)]
pub enum PieceName {
    Apawn,
    Bpawn,
    Cpawn,
    Dpawn,
    Epawn,
    Fpawn,
    Gpawn,
    Hpawn,
    Qrook,
    Qknight,
    Qbishop,
    Queen,
    King,
    Kbishop,
    Kknight,
    Krook,
}

/// The role that a single notation letter stands for; any other character
/// stands for a pawn.
pub open spec fn role_of_char(c: char) -> Role {
    if c == 'B' {
        Role::Bishop
    } else if c == 'N' {
        Role::Knight
    } else if c == 'R' {
        Role::Rook
    } else if c == 'Q' {
        Role::Queen
    } else if c == 'K' {
        Role::King
    } else {
        Role::Pawn
    }
}

pub open spec fn role_char_to_role_spec(s: Seq<char>) -> Role {
    if s.len() == 1 {
        role_of_char(s[0])
    } else {
        Role::Pawn
    }
}

/// Maps a role letter (`"B"`, `"N"`, `"R"`, `"Q"`, `"K"`) to its role; the
/// empty string and anything unrecognised mean a pawn.
pub fn role_char_to_role(role_char: &str) -> (r: Role)
    ensures
        r == role_char_to_role_spec(role_char@),
{
    if role_char.unicode_len() == 1 {
        let c = role_char.get_char(0);
        if c == 'B' {
            Role::Bishop
        } else if c == 'N' {
            Role::Knight
        } else if c == 'R' {
            Role::Rook
        } else if c == 'Q' {
            Role::Queen
        } else if c == 'K' {
            Role::King
        } else {
            Role::Pawn
        }
    } else {
        Role::Pawn
    }
}

/// The role that a piece identity is born with and keeps for its lifetime.
pub open spec fn role_of_name(name: PieceName) -> Role {
    match name {
        PieceName::Apawn => Role::Pawn,
        PieceName::Bpawn => Role::Pawn,
        PieceName::Cpawn => Role::Pawn,
        PieceName::Dpawn => Role::Pawn,
        PieceName::Epawn => Role::Pawn,
        PieceName::Fpawn => Role::Pawn,
        PieceName::Gpawn => Role::Pawn,
        PieceName::Hpawn => Role::Pawn,
        PieceName::Qrook => Role::Rook,
        PieceName::Krook => Role::Rook,
        PieceName::Qknight => Role::Knight,
        PieceName::Kknight => Role::Knight,
        PieceName::Qbishop => Role::Bishop,
        PieceName::Kbishop => Role::Bishop,
        PieceName::Queen => Role::Queen,
        PieceName::King => Role::King,
    }
}

/// The fixed starting file of each identity.
pub open spec fn start_file(name: PieceName) -> char {
    match name {
        PieceName::Apawn => 'a',
        PieceName::Bpawn => 'b',
        PieceName::Cpawn => 'c',
        PieceName::Dpawn => 'd',
        PieceName::Epawn => 'e',
        PieceName::Fpawn => 'f',
        PieceName::Gpawn => 'g',
        PieceName::Hpawn => 'h',
        PieceName::Qrook => 'a',
        PieceName::Krook => 'h',
        PieceName::Qknight => 'b',
        PieceName::Kknight => 'g',
        PieceName::Qbishop => 'c',
        PieceName::Kbishop => 'f',
        PieceName::Queen => 'd',
        PieceName::King => 'e',
    }
}

/// The fixed starting cell of each identity: pawns on row 2 or 7, all other
/// pieces on the home row 1 or 8.
pub open spec fn start_cell_spec(name: PieceName, white: bool) -> Cell {
    let row: i32 = if role_of_name(name) == Role::Pawn {
        if white {
            2
        } else {
            7
        }
    } else {
        if white {
            1
        } else {
            8
        }
    };
    Cell { file: start_file(name), row }
}

pub fn role_of_name_exec(name: PieceName) -> (r: Role)
    ensures
        r == role_of_name(name),
{
    match name {
        PieceName::Apawn => Role::Pawn,
        PieceName::Bpawn => Role::Pawn,
        PieceName::Cpawn => Role::Pawn,
        PieceName::Dpawn => Role::Pawn,
        PieceName::Epawn => Role::Pawn,
        PieceName::Fpawn => Role::Pawn,
        PieceName::Gpawn => Role::Pawn,
        PieceName::Hpawn => Role::Pawn,
        PieceName::Qrook => Role::Rook,
        PieceName::Krook => Role::Rook,
        PieceName::Qknight => Role::Knight,
        PieceName::Kknight => Role::Knight,
        PieceName::Qbishop => Role::Bishop,
        PieceName::Kbishop => Role::Bishop,
        PieceName::Queen => Role::Queen,
        PieceName::King => Role::King,
    }
}

pub fn start_cell(name: PieceName, white: bool) -> (r: Cell)
    ensures
        r == start_cell_spec(name, white),
{
    let file = match name {
        PieceName::Apawn => 'a',
        PieceName::Bpawn => 'b',
        PieceName::Cpawn => 'c',
        PieceName::Dpawn => 'd',
        PieceName::Epawn => 'e',
        PieceName::Fpawn => 'f',
        PieceName::Gpawn => 'g',
        PieceName::Hpawn => 'h',
        PieceName::Qrook => 'a',
        PieceName::Krook => 'h',
        PieceName::Qknight => 'b',
        PieceName::Kknight => 'g',
        PieceName::Qbishop => 'c',
        PieceName::Kbishop => 'f',
        PieceName::Queen => 'd',
        PieceName::King => 'e',
    };
    let role = role_of_name_exec(name);
    let row: i32 = if matches!(role, Role::Pawn) {
        if white {
            2
        } else {
            7
        }
    } else {
        if white {
            1
        } else {
            8
        }
    };
    Cell { file, row }
}

} // verus!
