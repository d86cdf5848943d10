//! Material and phase measures of a position.
use vstd::prelude::*;
use crate::bits::{bit, count_ones, popcount, lemma_bit_and, lemma_bit_or, lemma_bit_zero, lemma_bits_ext};
use crate::position::{Position, square_ok, lemma_board_bits_from_wf, lemma_union6_bit};

pub mod cvs_features;
pub mod model_header;
pub mod pst;
pub mod residual_hybrid;

verus! {

/// Phase weight per piece type (pawn..king).
pub const PHASE_VALUE: [i32; 6] = [0, 1, 1, 2, 4, 0];
/// Full non-pawn army of both sides.
pub const MAX_PHASE: i32 = 24;

/// Phase units of one side: a knight or bishop counts 1, a rook 2, a queen 4.
pub open spec fn side_phase(b: [u64; 6]) -> nat {
    popcount(b[1]) + popcount(b[2]) + 2 * popcount(b[3]) + 4 * popcount(b[4])
}

/// Non-pawn material on the board (0..24), used to taper middlegame and endgame terms.
pub fn phase_units(pos: &Position) -> (u: i32)
    ensures
        u == if side_phase(pos.pieces[0]) + side_phase(pos.pieces[1]) > MAX_PHASE {
            MAX_PHASE as int
        } else {
            (side_phase(pos.pieces[0]) + side_phase(pos.pieces[1])) as int
        },
{
    let w = &pos.pieces[0];
    let b = &pos.pieces[1];
    let units = count_ones(w[1]) as i32 + count_ones(w[2]) as i32 + 2 * count_ones(w[3]) as i32 + 4 * count_ones(w[4]) as i32
        + count_ones(b[1]) as i32 + count_ones(b[2]) as i32 + 2 * count_ones(b[3]) as i32 + 4 * count_ones(b[4]) as i32;
    if units > MAX_PHASE {
        MAX_PHASE
    } else {
        units
    }
}

/// Non-king material of one side in centipawns.
pub open spec fn side_material(b: [u64; 6]) -> nat {
    100 * popcount(b[0]) + 320 * popcount(b[1]) + 330 * popcount(b[2]) + 500 * popcount(b[3]) + 900 * popcount(b[4])
}

fn material_of(b: &[u64; 6]) -> (m: i32)
    ensures
        m == side_material(*b),
        0 <= m <= 137_600,
{
    100 * count_ones(b[0]) as i32 + 320 * count_ones(b[1]) as i32 + 330 * count_ones(b[2]) as i32 + 500 * count_ones(b[3]) as i32
        + 900 * count_ones(b[4]) as i32
}

/// White material minus Black material, excluding kings.
pub fn material_balance_cp(pos: &Position) -> (s: i32)
    ensures
        s == side_material(pos.pieces[0]) - side_material(pos.pieces[1]),
{
    material_of(&pos.pieces[0]) - material_of(&pos.pieces[1])
}

/// Total non-king material remaining on the board.
pub fn non_king_material_cp(pos: &Position) -> (t: i32)
    ensures
        t == side_material(pos.pieces[0]) + side_material(pos.pieces[1]),
{
    material_of(&pos.pieces[0]) + material_of(&pos.pieces[1])
}

/// The light squares (a1 is dark).
pub const LIGHT_SQUARES: u64 = 0x55AA55AA55AA55AA;

/// Insufficient mating material: king against king; king and one minor piece
/// against king; or kings and bishops only, all bishops on one square color.
pub open spec fn insufficient_spec(pos: Position) -> bool {
    let total = popcount(pos.all);
    let knights = pos.pieces[0][1] | pos.pieces[1][1];
    let bishops = pos.pieces[0][2] | pos.pieces[1][2];
    if total == 2 {
        true
    } else if total == 3 && (popcount(knights) == 1 || popcount(bishops) == 1) {
        true
    } else if total == popcount(bishops) + 2 {
        let on_light = popcount(bishops & LIGHT_SQUARES);
        on_light == 0 || on_light == popcount(bishops)
    } else {
        false
    }
}

pub fn insufficient_material(pos: &Position) -> (b: bool)
    ensures
        b == insufficient_spec(*pos),
{
    let total = count_ones(pos.all);
    if total == 2 {
        return true;
    }
    let knights = pos.pieces[0][1] | pos.pieces[1][1];
    let bishops = pos.pieces[0][2] | pos.pieces[1][2];
    let nb = count_ones(bishops);
    if total == 3 && (count_ones(knights) == 1 || nb == 1) {
        return true;
    }
    if total == nb + 2 {
        let on_light = count_ones(bishops & LIGHT_SQUARES);
        return on_light == 0 || on_light == nb;
    }
    false
}


/// Pieces of type `p`, both colors.
pub open spec fn both_colors(pos: Position, p: int) -> u64 {
    pos.pieces[0][p] | pos.pieces[1][p]
}

/// Pawns, rooks and queens of both colors.
pub open spec fn heavy_or_pawn(pos: Position) -> u64 {
    both_colors(pos, 0) | both_colors(pos, 3) | both_colors(pos, 4)
}

/// Mating material is never judged insufficient: on a well-formed board with a
/// king of each color, a position judged insufficient has no pawn, rook or
/// queen, at most one knight, and no knight beside bishops.
pub proof fn law_insufficient_only_minor_pieces(pos: Position)
    requires
        pos.board_wf(),
        pos.pieces[0][5] != 0,
        pos.pieces[1][5] != 0,
    ensures
        insufficient_spec(pos) ==> {
            &&& forall|c: int| 0 <= c < 2 ==> pos.pieces[c][0] == 0 && pos.pieces[c][3] == 0 && pos.pieces[c][4] == 0
            &&& popcount(pos.pieces[0][1] | pos.pieces[1][1]) <= 1
            &&& (pos.pieces[0][1] | pos.pieces[1][1]) != 0 ==> (pos.pieces[0][2] | pos.pieces[1][2]) == 0
        },
{
    lemma_material_split(pos);
    let r = heavy_or_pawn(pos);
    crate::bits::lemma_popcount_zero(r);
    crate::bits::lemma_popcount_zero(both_colors(pos, 1));
    crate::bits::lemma_popcount_zero(both_colors(pos, 2));
    let (a0, a1, b0, b1, c0, c1) = (pos.pieces[0][0], pos.pieces[1][0], pos.pieces[0][3], pos.pieces[1][3],
        pos.pieces[0][4], pos.pieces[1][4]);
    assert((a0 | a1) | (b0 | b1) | (c0 | c1) == 0 ==> a0 == 0 && a1 == 0 && b0 == 0 && b1 == 0 && c0 == 0 && c1 == 0)
        by (bit_vector);
}

/// King against king, and king and one minor piece against king, are
/// insufficient material.
pub proof fn law_lone_minor_insufficient(pos: Position)
    requires
        pos.board_wf(),
        popcount(pos.pieces[0][5]) == 1,
        popcount(pos.pieces[1][5]) == 1,
        heavy_or_pawn(pos) == 0,
        popcount(both_colors(pos, 1)) + popcount(both_colors(pos, 2)) <= 1,
    ensures
        insufficient_spec(pos),
{
    lemma_material_split(pos);
    crate::bits::lemma_popcount_zero(heavy_or_pawn(pos));
}

/// Kings and bishops alone (one king each): insufficient material exactly
/// when every bishop stands on squares of one colour.
pub proof fn law_bishops_one_colour(pos: Position)
    requires
        pos.board_wf(),
        popcount(pos.pieces[0][5]) == 1,
        popcount(pos.pieces[1][5]) == 1,
        heavy_or_pawn(pos) == 0,
        both_colors(pos, 1) == 0,
    ensures
        insufficient_spec(pos) == ((forall|t: u64| t < 64 && #[trigger] bit(both_colors(pos, 2), t) ==> bit(
            LIGHT_SQUARES,
            t,
        )) || (forall|t: u64| t < 64 && #[trigger] bit(both_colors(pos, 2), t) ==> !bit(LIGHT_SQUARES, t))),
{
    let b = both_colors(pos, 2);
    lemma_material_split(pos);
    crate::bits::lemma_popcount_zero(heavy_or_pawn(pos));
    crate::bits::lemma_popcount_zero(0u64);
    lemma_split_by_colour(b);
    crate::bits::lemma_popcount_zero(b & LIGHT_SQUARES);
    crate::bits::lemma_popcount_zero(b & !LIGHT_SQUARES);
    crate::bits::lemma_popcount_zero(b);
}

/// A bitboard splits into its light and its dark squares.
proof fn lemma_split_by_colour(b: u64)
    ensures
        popcount(b) == popcount(b & LIGHT_SQUARES) + popcount(b & !LIGHT_SQUARES),
        (b & LIGHT_SQUARES == 0) == (forall|t: u64| t < 64 && #[trigger] bit(b, t) ==> !bit(LIGHT_SQUARES, t)),
        (b & !LIGHT_SQUARES == 0) == (forall|t: u64| t < 64 && #[trigger] bit(b, t) ==> bit(LIGHT_SQUARES, t)),
{
    let l = b & LIGHT_SQUARES;
    let d = b & !LIGHT_SQUARES;
    assert forall|t: u64| t < 64 implies #[trigger] bit(l | d, t) == bit(b, t) by {
        lemma_colour_at(b, t);
    }
    assert forall|t: u64| t < 64 implies #[trigger] bit(l & d, t) == bit(0u64, t) by {
        lemma_colour_at(b, t);
    }
    lemma_bits_ext(l | d, b);
    lemma_bits_ext(l & d, 0u64);
    crate::bits::lemma_popcount_disjoint(l, d);
    if l == 0 {
        assert forall|t: u64| t < 64 && #[trigger] bit(b, t) implies !bit(LIGHT_SQUARES, t) by {
            lemma_colour_at(b, t);
        }
    }
    if forall|t: u64| t < 64 && #[trigger] bit(b, t) ==> !bit(LIGHT_SQUARES, t) {
        assert forall|t: u64| t < 64 implies #[trigger] bit(l, t) == bit(0u64, t) by {
            lemma_colour_at(b, t);
        }
        lemma_bits_ext(l, 0u64);
    }
    if d == 0 {
        assert forall|t: u64| t < 64 && #[trigger] bit(b, t) implies bit(LIGHT_SQUARES, t) by {
            lemma_colour_at(b, t);
        }
    }
    if forall|t: u64| t < 64 && #[trigger] bit(b, t) ==> bit(LIGHT_SQUARES, t) {
        assert forall|t: u64| t < 64 implies #[trigger] bit(d, t) == bit(0u64, t) by {
            lemma_colour_at(b, t);
        }
        lemma_bits_ext(d, 0u64);
    }
}

/// Square `t` of a bitboard is either light or dark.
proof fn lemma_colour_at(b: u64, t: u64)
    requires
        t < 64,
    ensures
        bit(b & LIGHT_SQUARES, t) == (bit(b, t) && bit(LIGHT_SQUARES, t)),
        bit(b & !LIGHT_SQUARES, t) == (bit(b, t) && !bit(LIGHT_SQUARES, t)),
        bit((b & LIGHT_SQUARES) | (b & !LIGHT_SQUARES), t) == bit(b, t),
        bit((b & LIGHT_SQUARES) & (b & !LIGHT_SQUARES), t) == bit(0u64, t),
        !bit(0u64, t),
{
    let l = b & LIGHT_SQUARES;
    let d = b & !LIGHT_SQUARES;
    lemma_bit_and(b, LIGHT_SQUARES, t);
    lemma_bit_and(b, !LIGHT_SQUARES, t);
    crate::bits::lemma_bit_not(LIGHT_SQUARES, t);
    lemma_bit_or(l, d, t);
    lemma_bit_and(l, d, t);
    lemma_bit_zero(t);
}

/// The men on a well-formed board split into kings, knights, bishops and the
/// rest, and are counted group by group.
proof fn lemma_material_split(pos: Position)
    requires
        pos.board_wf(),
    ensures
        popcount(pos.all) == popcount(both_colors(pos, 5)) + popcount(both_colors(pos, 1)) + popcount(
            both_colors(pos, 2),
        ) + popcount(heavy_or_pawn(pos)),
        popcount(both_colors(pos, 5)) == popcount(pos.pieces[0][5]) + popcount(pos.pieces[1][5]),
        pos.pieces[0][5] != 0 ==> popcount(pos.pieces[0][5]) >= 1,
        pos.pieces[1][5] != 0 ==> popcount(pos.pieces[1][5]) >= 1,
{
    let k = both_colors(pos, 5);
    let n = both_colors(pos, 1);
    let b = both_colors(pos, 2);
    let r = heavy_or_pawn(pos);
    lemma_board_bits_from_wf(pos);
    assert forall|t: u64| t < 64 implies #[trigger] bit(pos.all, t) == bit(k | (n | (b | r)), t) by {
        lemma_groups_at(pos, t);
    }
    assert forall|t: u64| t < 64 implies #[trigger] bit(b & r, t) == bit(0u64, t) by {
        lemma_groups_at(pos, t);
    }
    assert forall|t: u64| t < 64 implies #[trigger] bit(n & (b | r), t) == bit(0u64, t) by {
        lemma_groups_at(pos, t);
    }
    assert forall|t: u64| t < 64 implies #[trigger] bit(k & (n | (b | r)), t) == bit(0u64, t) by {
        lemma_groups_at(pos, t);
    }
    lemma_bits_ext(pos.all, k | (n | (b | r)));
    lemma_bits_ext(b & r, 0u64);
    lemma_bits_ext(n & (b | r), 0u64);
    lemma_bits_ext(k & (n | (b | r)), 0u64);
    crate::bits::lemma_popcount_disjoint(b, r);
    crate::bits::lemma_popcount_disjoint(n, b | r);
    crate::bits::lemma_popcount_disjoint(k, n | (b | r));
    assert(pos.pieces[0][5] & pos.pieces[1][5] == 0);
    crate::bits::lemma_popcount_disjoint(pos.pieces[0][5], pos.pieces[1][5]);
    crate::bits::lemma_popcount_zero(pos.pieces[0][5]);
    crate::bits::lemma_popcount_zero(pos.pieces[1][5]);
}


/// Square `t` of a square-wise well-formed board: the groups cover the
/// occupied squares and share none.
proof fn lemma_groups_at(pos: Position, t: u64)
    requires
        crate::position::board_bits_ok(pos),
        t < 64,
    ensures
        ({
            let k = both_colors(pos, 5);
            let n = both_colors(pos, 1);
            let b = both_colors(pos, 2);
            let r = heavy_or_pawn(pos);
            &&& bit(pos.all, t) == bit(k | (n | (b | r)), t)
            &&& bit(b & r, t) == bit(0u64, t)
            &&& bit(n & (b | r), t) == bit(0u64, t)
            &&& bit(k & (n | (b | r)), t) == bit(0u64, t)
        }),
{
    let k = both_colors(pos, 5);
    let n = both_colors(pos, 1);
    let b = both_colors(pos, 2);
    let r = heavy_or_pawn(pos);
    assert(square_ok(pos, t));
    lemma_union6_bit(pos.pieces[0], t);
    lemma_union6_bit(pos.pieces[1], t);
    lemma_bit_zero(t);
    assert forall|p: int| 0 <= p < 6 implies bit(#[trigger] both_colors(pos, p), t) == (bit(pos.pieces[0][p], t)
        || bit(pos.pieces[1][p], t)) by {
        lemma_bit_or(pos.pieces[0][p], pos.pieces[1][p], t);
    }
    lemma_bit_or(both_colors(pos, 0), both_colors(pos, 3), t);
    lemma_bit_or(both_colors(pos, 0) | both_colors(pos, 3), both_colors(pos, 4), t);
    lemma_bit_or(b, r, t);
    lemma_bit_or(n, b | r, t);
    lemma_bit_or(k, n | (b | r), t);
    lemma_bit_and(b, r, t);
    lemma_bit_and(n, b | r, t);
    lemma_bit_and(k, n | (b | r), t);
}

} // verus!
