//! Slider lines: which squares a bishop, rook or queen reaches, the first square
//! of a line that meets a condition, and the squares strictly between two
//! aligned squares.
use vstd::prelude::*;
use crate::attacks::{bishop_attacks, bishop_hits, dist, offset, queen_attacks, rook_attacks, rook_hits, sq_file, sq_rank};
use crate::bits::{bit, lemma_bit_or};
use vstd::std_specs::bits::u64_trailing_zeros;
use crate::facts::position::{square_name, square_name_spec};
use crate::{Color, Piece};

verus! {

pub open spec fn is_slider(p: Piece) -> bool {
    p == Piece::Bishop || p == Piece::Rook || p == Piece::Queen
}

/// A slider of type `p` on `s` reaches `t` through occupancy `occ`.
pub open spec fn slider_reach(p: Piece, s: int, t: int, occ: u64) -> bool {
    match p {
        Piece::Bishop => bishop_hits(s, t, occ),
        Piece::Rook => rook_hits(s, t, occ),
        Piece::Queen => bishop_hits(s, t, occ) || rook_hits(s, t, occ),
        _ => false,
    }
}

/// The least `t < n` with `f(t)`.
pub open spec fn least_below(f: spec_fn(int) -> bool, n: nat) -> Option<int>
    decreases n,
{
    if n == 0 {
        None
    } else {
        match least_below(f, (n - 1) as nat) {
            Some(t) => Some(t),
            None => if f(n - 1) {
                Some(n - 1)
            } else {
                None
            },
        }
    }
}

/// `least_below` is the least member below `n`, or none when there is none.
pub proof fn lemma_least_below(f: spec_fn(int) -> bool, n: nat)
    ensures
        least_below(f, n) matches Some(z) ==> 0 <= z < n && f(z) && forall|u: int| 0 <= u < z ==> !#[trigger] f(u),
        least_below(f, n) is None ==> forall|u: int| 0 <= u < n ==> !#[trigger] f(u),
    decreases n,
{
    if n > 0 {
        lemma_least_below(f, (n - 1) as nat);
    }
}

/// The set of `t < 64` with `f(t)` held as a bitboard: its lowest member is
/// `least_below(f, 64)`.
pub proof fn lemma_lowest_is_least(f: spec_fn(int) -> bool, x: u64)
    requires
        x != 0,
        forall|t: u64| t < 64 ==> #[trigger] bit(x, t) == f(t as int),
    ensures
        least_below(f, 64) == Some(u64_trailing_zeros(x) as int),
{
    crate::bits::lemma_trailing_zeros_bit(x);
    lemma_least_below(f, 64);
    let z = u64_trailing_zeros(x) as int;
    assert(f(z)) by {
        assert(bit(x, z as u64));
    }
    match least_below(f, 64) {
        Some(w) => {
            if w < z {
                assert(bit(x, w as u64));
            }
        },
        None => {},
    }
}

/// The squares of `c`'s pieces.
pub open spec fn held_by(pieces: [[u64; 6]; 2], c: Color, t: int) -> bool {
    let b = pieces[c.spec_index()];
    ||| bit(b[0], t as u64)
    ||| bit(b[1], t as u64)
    ||| bit(b[2], t as u64)
    ||| bit(b[3], t as u64)
    ||| bit(b[4], t as u64)
    ||| bit(b[5], t as u64)
}

/// The squares that a slider of type `piece` on `sq` reaches, or `None` for a
/// piece that does not slide.
pub fn slider_attacks(piece: Piece, sq: u8, occ: u64) -> (r: Option<u64>)
    requires
        sq < 64,
    ensures
        r is None <==> !is_slider(piece),
        r matches Some(a) ==> forall|t: u64| t < 64 ==> #[trigger] bit(a, t) == slider_reach(piece, sq as int, t as int, occ),
{
    match piece {
        Piece::Bishop => Some(bishop_attacks(sq, occ)),
        Piece::Rook => Some(rook_attacks(sq, occ)),
        Piece::Queen => Some(queen_attacks(sq, occ)),
        _ => None,
    }
}

/// The squares of `c`'s pieces as one bitboard.
pub fn side_occupancy(pieces: &[[u64; 6]; 2], c: Color) -> (r: u64)
    ensures
        forall|t: u64| t < 64 ==> #[trigger] bit(r, t) == held_by(*pieces, c, t as int),
{
    let b = pieces[c.index()];
    let r = b[0] | b[1] | b[2] | b[3] | b[4] | b[5];
    proof {
        assert forall|t: u64| t < 64 implies #[trigger] bit(r, t) == held_by(*pieces, c, t as int) by {
            lemma_bit_or(b[0] | b[1] | b[2] | b[3] | b[4], b[5], t);
            lemma_bit_or(b[0] | b[1] | b[2] | b[3], b[4], t);
            lemma_bit_or(b[0] | b[1] | b[2], b[3], t);
            lemma_bit_or(b[0] | b[1], b[2], t);
            lemma_bit_or(b[0], b[1], t);
        }
    }
    r
}

/// -1, 0 or 1: the direction from `x` toward `y`.
pub open spec fn step_toward(x: int, y: int) -> int {
    if y > x {
        1
    } else if y < x {
        -1
    } else {
        0
    }
}

/// Two distinct squares on one rank, file or diagonal.
pub open spec fn aligned(a: int, b: int) -> bool {
    let df = sq_file(b) - sq_file(a);
    let dr = sq_rank(b) - sq_rank(a);
    &&& 0 <= a < 64
    &&& 0 <= b < 64
    &&& a != b
    &&& (df == 0 || dr == 0 || df == dr || df == -dr)
}

/// The squares strictly between the aligned squares `a` and `b`, from `a`'s side.
pub open spec fn between_squares(a: int, b: int) -> Seq<int> {
    let df = step_toward(sq_file(a), sq_file(b));
    let dr = step_toward(sq_rank(a), sq_rank(b));
    Seq::new(
        (dist(a, b) - 1) as nat,
        |k: int| (sq_rank(a) + offset(dr, k + 1)) * 8 + sq_file(a) + offset(df, k + 1),
    )
}

/// The names of `squares`, in order.
pub open spec fn names_match(names: Seq<String>, squares: Seq<int>) -> bool {
    &&& names.len() == squares.len()
    &&& forall|i: int| 0 <= i < names.len() ==> #[trigger] names[i]@ == square_name_spec(squares[i] as u8)
}

/// A square that a slider reaches is aligned with the slider's square.
pub proof fn lemma_reach_aligned(p: Piece, s: int, t: int, occ: u64)
    requires
        slider_reach(p, s, t, occ),
    ensures
        aligned(s, t),
{
}

/// The names of the squares strictly between the aligned squares `a` and `b`.
pub fn squares_between(a: u8, b: u8) -> (v: Vec<String>)
    requires
        aligned(a as int, b as int),
    ensures
        names_match(v@, between_squares(a as int, b as int)),
{
    let fa = (a % 8) as i32;
    let ra = (a / 8) as i32;
    let fb = (b % 8) as i32;
    let rb = (b / 8) as i32;
    let df: i32 = if fb > fa { 1 } else if fb < fa { -1 } else { 0 };
    let dr: i32 = if rb > ra { 1 } else if rb < ra { -1 } else { 0 };
    let adf = if fb > fa { fb - fa } else { fa - fb };
    let adr = if rb > ra { rb - ra } else { ra - rb };
    let n = if adf > adr { adf } else { adr };
    assert(n == dist(a as int, b as int));
    let ghost squares = between_squares(a as int, b as int);
    let mut out: Vec<String> = Vec::new();
    let mut k: i32 = 1;
    while k < n
        invariant
            1 <= k <= n,
            n <= 7,
            n == dist(a as int, b as int),
            aligned(a as int, b as int),
            fa == sq_file(a as int),
            ra == sq_rank(a as int),
            fb == sq_file(b as int),
            rb == sq_rank(b as int),
            df == step_toward(sq_file(a as int), sq_file(b as int)),
            dr == step_toward(sq_rank(a as int), sq_rank(b as int)),
            squares == between_squares(a as int, b as int),
            out@.len() == k - 1,
            forall|i: int| 0 <= i < out@.len() ==> #[trigger] out@[i]@ == square_name_spec(squares[i] as u8),
        decreases n - k,
    {
        let f = if df > 0 { fa + k } else if df < 0 { fa - k } else { fa };
        let r = if dr > 0 { ra + k } else if dr < 0 { ra - k } else { ra };
        assert(0 <= f < 8 && 0 <= r < 8);
        let sq = (r * 8 + f) as u8;
        assert(sq as int == squares[k - 1]);
        let ghost before = out@;
        out.push(square_name(sq));
        assert forall|i: int| 0 <= i < out@.len() implies #[trigger] out@[i]@ == square_name_spec(squares[i] as u8) by {
            if i < before.len() {
                assert(out@[i] == before[i]);
            }
        }
        k = k + 1;
    }
    out
}

/// A square held by `c` holds some piece.
pub proof fn lemma_held_piece(a: crate::position::Position, c: Color, t: int)
    requires
        0 <= t < 64,
        held_by(a.pieces, c, t),
    ensures
        crate::position::spec_piece_at(a, t as u64) is Some,
{
    reveal_with_fuel(crate::position::first_piece_from, 7);
}

} // verus!
