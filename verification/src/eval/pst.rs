//! Piece-square tables (the classical "simplified evaluation" values). Each
//! table is 64 entries in visual order: index 0 = a8 ... 7 = h8, 56 = a1 ...
//! 63 = h1. The endgame tables reuse the middlegame ones for every piece but
//! the king.
use vstd::prelude::*;
use crate::{Color, Piece};

verus! {

pub const PAWN_MG: [i32; 64] = [
    0, 0, 0, 0, 0, 0, 0, 0,
    50, 50, 50, 50, 50, 50, 50, 50,
    10, 10, 20, 30, 30, 20, 10, 10,
    5, 5, 10, 25, 25, 10, 5, 5,
    0, 0, 0, 20, 20, 0, 0, 0,
    5, -5, -10, 0, 0, -10, -5, 5,
    5, 10, 10, -20, -20, 10, 10, 5,
    0, 0, 0, 0, 0, 0, 0, 0,
];

pub const KNIGHT_MG: [i32; 64] = [
    -50, -40, -30, -30, -30, -30, -40, -50,
    -40, -20, 0, 0, 0, 0, -20, -40,
    -30, 0, 10, 15, 15, 10, 0, -30,
    -30, 5, 15, 20, 20, 15, 5, -30,
    -30, 0, 15, 20, 20, 15, 0, -30,
    -30, 5, 10, 15, 15, 10, 5, -30,
    -40, -20, 0, 5, 5, 0, -20, -40,
    -50, -40, -30, -30, -30, -30, -40, -50,
];

pub const BISHOP_MG: [i32; 64] = [
    -20, -10, -10, -10, -10, -10, -10, -20,
    -10, 0, 0, 0, 0, 0, 0, -10,
    -10, 0, 5, 10, 10, 5, 0, -10,
    -10, 5, 5, 10, 10, 5, 5, -10,
    -10, 0, 10, 10, 10, 10, 0, -10,
    -10, 10, 10, 10, 10, 10, 10, -10,
    -10, 5, 0, 0, 0, 0, 5, -10,
    -20, -10, -10, -10, -10, -10, -10, -20,
];

pub const ROOK_MG: [i32; 64] = [
    0, 0, 0, 0, 0, 0, 0, 0,
    5, 10, 10, 10, 10, 10, 10, 5,
    -5, 0, 0, 0, 0, 0, 0, -5,
    -5, 0, 0, 0, 0, 0, 0, -5,
    -5, 0, 0, 0, 0, 0, 0, -5,
    -5, 0, 0, 0, 0, 0, 0, -5,
    -5, 0, 0, 0, 0, 0, 0, -5,
    0, 0, 0, 5, 5, 0, 0, 0,
];

pub const QUEEN_MG: [i32; 64] = [
    -20, -10, -10, -5, -5, -10, -10, -20,
    -10, 0, 0, 0, 0, 0, 0, -10,
    -10, 0, 5, 5, 5, 5, 0, -10,
    -5, 0, 5, 5, 5, 5, 0, -5,
    0, 0, 5, 5, 5, 5, 0, -5,
    -10, 5, 5, 5, 5, 5, 0, -10,
    -10, 0, 5, 0, 0, 0, 0, -10,
    -20, -10, -10, -5, -5, -10, -10, -20,
];

pub const KING_MG: [i32; 64] = [
    -30, -40, -40, -50, -50, -40, -40, -30,
    -30, -40, -40, -50, -50, -40, -40, -30,
    -30, -40, -40, -50, -50, -40, -40, -30,
    -30, -40, -40, -50, -50, -40, -40, -30,
    -20, -30, -30, -40, -40, -30, -30, -20,
    -10, -20, -20, -20, -20, -20, -20, -10,
    20, 20, 0, 0, 0, 0, 20, 20,
    20, 30, 10, 0, 0, 10, 30, 20,
];

pub const KING_EG: [i32; 64] = [
    -50, -40, -30, -20, -20, -30, -40, -50,
    -30, -20, -10, 0, 0, -10, -20, -30,
    -30, -10, 20, 30, 30, 20, -10, -30,
    -30, -10, 30, 40, 40, 30, -10, -30,
    -30, -10, 30, 40, 40, 30, -10, -30,
    -30, -10, 20, 30, 30, 20, -10, -30,
    -30, -30, 0, 0, 0, 0, -30, -30,
    -50, -30, -30, -30, -30, -30, -30, -50,
];

/// Visual-order index (a8 = 0 .. h1 = 63) of a square, mirrored for Black.
pub open spec fn table_index_spec(color: Color, sq: u8) -> int {
    let f = sq % 8;
    let r = sq / 8;
    let row = if color == Color::White { 7 - r } else { r as int };
    row * 8 + f
}

pub fn table_index(color: Color, sq: u8) -> (i: usize)
    requires
        sq < 64,
    ensures
        i == table_index_spec(color, sq),
        i < 64,
{
    let f = (sq % 8) as usize;
    let r = (sq / 8) as usize;
    let row = if color == Color::White { 7 - r } else { r };
    row * 8 + f
}

/// The middlegame table of a piece type.
pub open spec fn mg_table(piece: Piece) -> [i32; 64] {
    match piece {
        Piece::Pawn => PAWN_MG,
        Piece::Knight => KNIGHT_MG,
        Piece::Bishop => BISHOP_MG,
        Piece::Rook => ROOK_MG,
        Piece::Queen => QUEEN_MG,
        Piece::King => KING_MG,
    }
}

fn mg_entry(piece: Piece, i: usize) -> (v: i32)
    requires
        i < 64,
    ensures
        v == mg_table(piece)[i as int],
{
    match piece {
        Piece::Pawn => PAWN_MG[i],
        Piece::Knight => KNIGHT_MG[i],
        Piece::Bishop => BISHOP_MG[i],
        Piece::Rook => ROOK_MG[i],
        Piece::Queen => QUEEN_MG[i],
        Piece::King => KING_MG[i],
    }
}

/// Middlegame bonus for a piece of `color` on `sq` (own perspective).
pub fn pst_mg(piece: Piece, color: Color, sq: u8) -> (v: i32)
    requires
        sq < 64,
    ensures
        v == mg_table(piece)[table_index_spec(color, sq)],
{
    mg_entry(piece, table_index(color, sq))
}

/// Endgame bonus: the king has its own table, every other piece uses its
/// middlegame table.
pub fn pst_eg(piece: Piece, color: Color, sq: u8) -> (v: i32)
    requires
        sq < 64,
    ensures
        v == (if piece == Piece::King { KING_EG } else { mg_table(piece) })[table_index_spec(color, sq)],
{
    let i = table_index(color, sq);
    match piece {
        Piece::King => KING_EG[i],
        _ => mg_entry(piece, i),
    }
}

} // verus!
