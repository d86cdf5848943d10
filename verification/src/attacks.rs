//! Attack generation. Leaper attacks (pawn/knight/king) come from the board
//! geometry; sliding attacks (bishop/rook/queen) walk each ray until the first
//! blocker, which is included in the attack set.
use vstd::prelude::*;
use crate::bits::{bit, lemma_bit_and, lemma_bit_or, lemma_bit_set, lemma_bit_zero};
use crate::{Color, Piece};

verus! {

/// File and rank coordinates are on the board.
pub open spec fn on_board(f: int, r: int) -> bool {
    0 <= f < 8 && 0 <= r < 8
}

pub open spec fn sq_file(s: int) -> int {
    s % 8
}

pub open spec fn sq_rank(s: int) -> int {
    s / 8
}

pub open spec fn abs(x: int) -> int {
    if x < 0 {
        -x
    } else {
        x
    }
}

/// A knight on `s` attacks `t`.
pub open spec fn knight_hop(s: int, t: int) -> bool {
    let df = abs(sq_file(t) - sq_file(s));
    let dr = abs(sq_rank(t) - sq_rank(s));
    0 <= s < 64 && 0 <= t < 64 && ((df == 1 && dr == 2) || (df == 2 && dr == 1))
}

/// A king on `s` attacks `t`.
pub open spec fn king_step(s: int, t: int) -> bool {
    let df = abs(sq_file(t) - sq_file(s));
    let dr = abs(sq_rank(t) - sq_rank(s));
    0 <= s < 64 && 0 <= t < 64 && df <= 1 && dr <= 1 && !(df == 0 && dr == 0)
}

/// A pawn of `color` on `s` attacks `t` (one rank forward, one file aside).
pub open spec fn pawn_hit(color: Color, s: int, t: int) -> bool {
    let df = abs(sq_file(t) - sq_file(s));
    let dr = sq_rank(t) - sq_rank(s);
    0 <= s < 64 && 0 <= t < 64 && df == 1 && dr == (if color == Color::White {
        1int
    } else {
        -1int
    })
}

/// File step of direction `d` (0=N 1=S 2=E 3=W 4=NE 5=NW 6=SE 7=SW).
pub open spec fn dir_df(d: int) -> int {
    if d == 2 || d == 4 || d == 6 {
        1
    } else if d == 3 || d == 5 || d == 7 {
        -1
    } else {
        0
    }
}

/// Rank step of direction `d`.
pub open spec fn dir_dr(d: int) -> int {
    if d == 0 || d == 4 || d == 5 {
        1
    } else if d == 1 || d == 6 || d == 7 {
        -1
    } else {
        0
    }
}

/// `k` steps of size `delta` (delta in -1..=1).
pub open spec fn offset(delta: int, k: int) -> int {
    if delta > 0 {
        k
    } else if delta < 0 {
        -k
    } else {
        0
    }
}

/// The square `k` steps from `s` along direction `d` is on the board.
pub open spec fn ray_on(s: int, d: int, k: int) -> bool {
    on_board(sq_file(s) + offset(dir_df(d), k), sq_rank(s) + offset(dir_dr(d), k))
}

/// The square index `k` steps from `s` along direction `d`.
pub open spec fn ray_sq(s: int, d: int, k: int) -> int {
    (sq_rank(s) + offset(dir_dr(d), k)) * 8 + sq_file(s) + offset(dir_df(d), k)
}

/// Chebyshev distance between two squares.
pub open spec fn dist(s: int, t: int) -> int {
    let df = abs(sq_file(t) - sq_file(s));
    let dr = abs(sq_rank(t) - sq_rank(s));
    if df > dr {
        df
    } else {
        dr
    }
}

/// `t` lies on the ray from `s` in direction `d`, at least one step away.
pub open spec fn on_ray(s: int, d: int, t: int) -> bool {
    &&& 0 <= s < 64
    &&& 0 <= t < 64
    &&& dist(s, t) >= 1
    &&& sq_file(t) - sq_file(s) == offset(dir_df(d), dist(s, t))
    &&& sq_rank(t) - sq_rank(s) == offset(dir_dr(d), dist(s, t))
}

/// A slider on `s` moving in direction `d` reaches `t`: `t` is on the ray and no
/// square strictly between them is occupied.
pub open spec fn slides_to(s: int, d: int, t: int, occ: u64) -> bool {
    &&& on_ray(s, d, t)
    &&& forall|j: int| 1 <= j < dist(s, t) ==> !#[trigger] bit(occ, ray_sq(s, d, j) as u64)
}

/// A bishop on `s` attacks `t` given occupancy `occ`.
pub open spec fn bishop_hits(s: int, t: int, occ: u64) -> bool {
    slides_to(s, 4, t, occ) || slides_to(s, 5, t, occ) || slides_to(s, 6, t, occ) || slides_to(
        s,
        7,
        t,
        occ,
    )
}

/// A rook on `s` attacks `t` given occupancy `occ`.
pub open spec fn rook_hits(s: int, t: int, occ: u64) -> bool {
    slides_to(s, 0, t, occ) || slides_to(s, 1, t, occ) || slides_to(s, 2, t, occ) || slides_to(
        s,
        3,
        t,
        occ,
    )
}

/// A piece of type `p` and color `c` on `s` attacks `t` given occupancy `occ`.
pub open spec fn piece_attacks(p: Piece, c: Color, s: int, t: int, occ: u64) -> bool {
    match p {
        Piece::Pawn => pawn_hit(c, s, t),
        Piece::Knight => knight_hop(s, t),
        Piece::Bishop => bishop_hits(s, t, occ),
        Piece::Rook => rook_hits(s, t, occ),
        Piece::Queen => bishop_hits(s, t, occ) || rook_hits(s, t, occ),
        Piece::King => king_step(s, t),
    }
}

/// Adds square (f, r) to `bb` when it is on the board.
fn add_target(bb: u64, f: i32, r: i32) -> (res: u64)
    ensures
        forall|t: u64| t < 64 ==> #[trigger] bit(res, t) == (bit(bb, t) || (on_board(f as int, r as int) && t == r * 8 + f)),
{
    if 0 <= f && f < 8 && 0 <= r && r < 8 {
        let s = (r * 8 + f) as u64;
        let res = bb | (1u64 << s);
        proof {
            assert forall|t: u64| t < 64 implies #[trigger] bit(res, t) == (bit(bb, t) || (on_board(f as int, r as int) && t == r * 8 + f)) by {
                lemma_bit_set(bb, s, t);
            }
        }
        res
    } else {
        bb
    }
}

/// A square index equals the index of on-board coordinates exactly when its
/// own coordinates match them.
proof fn lemma_sq_coords(t: int, f: int, r: int)
    requires
        0 <= t < 64,
    ensures
        (on_board(f, r) && t == r * 8 + f) == (on_board(f, r) && sq_file(t) == f && sq_rank(t) == r),
{
}

/// Knight geometry in coordinates.
proof fn lemma_knight_coords(s: int, t: int)
    requires
        0 <= s < 64,
        0 <= t < 64,
    ensures
        knight_hop(s, t) == {
            let f = sq_file(s);
            let r = sq_rank(s);
            let tf = sq_file(t);
            let tr = sq_rank(t);
            (tf == f + 1 && tr == r + 2) || (tf == f + 2 && tr == r + 1) || (tf == f + 2 && tr == r
                - 1) || (tf == f + 1 && tr == r - 2) || (tf == f - 1 && tr == r - 2) || (tf == f - 2
                && tr == r - 1) || (tf == f - 2 && tr == r + 1) || (tf == f - 1 && tr == r + 2)
        },
{
}

/// King geometry in coordinates.
proof fn lemma_king_coords(s: int, t: int)
    requires
        0 <= s < 64,
        0 <= t < 64,
    ensures
        king_step(s, t) == {
            let f = sq_file(s);
            let r = sq_rank(s);
            let tf = sq_file(t);
            let tr = sq_rank(t);
            (tf == f + 1 && tr == r + 1) || (tf == f + 1 && tr == r) || (tf == f + 1 && tr == r - 1)
                || (tf == f && tr == r - 1) || (tf == f - 1 && tr == r - 1) || (tf == f - 1 && tr
                == r) || (tf == f - 1 && tr == r + 1) || (tf == f && tr == r + 1)
        },
{
}

/// Squares attacked by a knight on `sq`.
pub fn knight_attacks(sq: u8) -> (a: u64)
    requires
        sq < 64,
    ensures
        forall|t: u64| t < 64 ==> #[trigger] bit(a, t) == knight_hop(sq as int, t as int),
{
    let f = (sq % 8) as i32;
    let r = (sq / 8) as i32;
    let mut a: u64 = 0;
    a = add_target(a, f + 1, r + 2);
    let a1 = a;
    a = add_target(a, f + 2, r + 1);
    let a2 = a;
    a = add_target(a, f + 2, r - 1);
    let a3 = a;
    a = add_target(a, f + 1, r - 2);
    let a4 = a;
    a = add_target(a, f - 1, r - 2);
    let a5 = a;
    a = add_target(a, f - 2, r - 1);
    let a6 = a;
    a = add_target(a, f - 2, r + 1);
    let a7 = a;
    a = add_target(a, f - 1, r + 2);
    proof {
        assert forall|t: u64| t < 64 implies #[trigger] bit(a, t) == knight_hop(sq as int, t as int) by {
            lemma_bit_zero(t);
            assert(bit(a7, t) == bit(a7, t));
            assert(bit(a6, t) == bit(a6, t));
            assert(bit(a5, t) == bit(a5, t));
            assert(bit(a4, t) == bit(a4, t));
            assert(bit(a3, t) == bit(a3, t));
            assert(bit(a2, t) == bit(a2, t));
            assert(bit(a1, t) == bit(a1, t));
            assert(bit(a, t) == ((on_board(f as int + (1), r as int + (2)) && t == (r as int + (2)) * 8 + f as int + (1)) || (on_board(f as int + (2), r as int + (1)) && t == (r as int + (1)) * 8 + f as int + (2)) || (on_board(f as int + (2), r as int + (-1)) && t == (r as int + (-1)) * 8 + f as int + (2)) || (on_board(f as int + (1), r as int + (-2)) && t == (r as int + (-2)) * 8 + f as int + (1)) || (on_board(f as int + (-1), r as int + (-2)) && t == (r as int + (-2)) * 8 + f as int + (-1)) || (on_board(f as int + (-2), r as int + (-1)) && t == (r as int + (-1)) * 8 + f as int + (-2)) || (on_board(f as int + (-2), r as int + (1)) && t == (r as int + (1)) * 8 + f as int + (-2)) || (on_board(f as int + (-1), r as int + (2)) && t == (r as int + (2)) * 8 + f as int + (-1))));
            lemma_sq_coords(t as int, f as int + (1), r as int + (2)); lemma_sq_coords(t as int, f as int + (2), r as int + (1)); lemma_sq_coords(t as int, f as int + (2), r as int + (-1)); lemma_sq_coords(t as int, f as int + (1), r as int + (-2)); lemma_sq_coords(t as int, f as int + (-1), r as int + (-2)); lemma_sq_coords(t as int, f as int + (-2), r as int + (-1)); lemma_sq_coords(t as int, f as int + (-2), r as int + (1)); lemma_sq_coords(t as int, f as int + (-1), r as int + (2));
            lemma_knight_coords(sq as int, t as int);
        }
    }
    a
}

/// Squares attacked by a king on `sq`.
pub fn king_attacks(sq: u8) -> (a: u64)
    requires
        sq < 64,
    ensures
        forall|t: u64| t < 64 ==> #[trigger] bit(a, t) == king_step(sq as int, t as int),
{
    let f = (sq % 8) as i32;
    let r = (sq / 8) as i32;
    let mut a: u64 = 0;
    a = add_target(a, f + 1, r + 1);
    let a1 = a;
    a = add_target(a, f + 1, r);
    let a2 = a;
    a = add_target(a, f + 1, r - 1);
    let a3 = a;
    a = add_target(a, f, r - 1);
    let a4 = a;
    a = add_target(a, f - 1, r - 1);
    let a5 = a;
    a = add_target(a, f - 1, r);
    let a6 = a;
    a = add_target(a, f - 1, r + 1);
    let a7 = a;
    a = add_target(a, f, r + 1);
    proof {
        assert forall|t: u64| t < 64 implies #[trigger] bit(a, t) == king_step(sq as int, t as int) by {
            lemma_bit_zero(t);
            assert(bit(a7, t) == bit(a7, t));
            assert(bit(a6, t) == bit(a6, t));
            assert(bit(a5, t) == bit(a5, t));
            assert(bit(a4, t) == bit(a4, t));
            assert(bit(a3, t) == bit(a3, t));
            assert(bit(a2, t) == bit(a2, t));
            assert(bit(a1, t) == bit(a1, t));
            assert(bit(a, t) == ((on_board(f as int + (1), r as int + (1)) && t == (r as int + (1)) * 8 + f as int + (1)) || (on_board(f as int + (1), r as int + (0)) && t == (r as int + (0)) * 8 + f as int + (1)) || (on_board(f as int + (1), r as int + (-1)) && t == (r as int + (-1)) * 8 + f as int + (1)) || (on_board(f as int + (0), r as int + (-1)) && t == (r as int + (-1)) * 8 + f as int + (0)) || (on_board(f as int + (-1), r as int + (-1)) && t == (r as int + (-1)) * 8 + f as int + (-1)) || (on_board(f as int + (-1), r as int + (0)) && t == (r as int + (0)) * 8 + f as int + (-1)) || (on_board(f as int + (-1), r as int + (1)) && t == (r as int + (1)) * 8 + f as int + (-1)) || (on_board(f as int + (0), r as int + (1)) && t == (r as int + (1)) * 8 + f as int + (0))));
            lemma_sq_coords(t as int, f as int + (1), r as int + (1)); lemma_sq_coords(t as int, f as int + (1), r as int + (0)); lemma_sq_coords(t as int, f as int + (1), r as int + (-1)); lemma_sq_coords(t as int, f as int + (0), r as int + (-1)); lemma_sq_coords(t as int, f as int + (-1), r as int + (-1)); lemma_sq_coords(t as int, f as int + (-1), r as int + (0)); lemma_sq_coords(t as int, f as int + (-1), r as int + (1)); lemma_sq_coords(t as int, f as int + (0), r as int + (1));
            lemma_king_coords(sq as int, t as int);
        }
    }
    a
}

/// Squares attacked by a pawn of `color` on `sq`.
pub fn pawn_attacks(color: Color, sq: u8) -> (a: u64)
    requires
        sq < 64,
    ensures
        forall|t: u64| t < 64 ==> #[trigger] bit(a, t) == pawn_hit(color, sq as int, t as int),
{
    let f = (sq % 8) as i32;
    let r = (sq / 8) as i32;
    let dr: i32 = match color {
        Color::White => 1,
        Color::Black => -1,
    };
    let mut a: u64 = 0;
    a = add_target(a, f - 1, r + dr);
    let a1 = a;
    a = add_target(a, f + 1, r + dr);
    proof {
        assert forall|t: u64| t < 64 implies #[trigger] bit(a, t) == pawn_hit(color, sq as int, t as int) by {
            lemma_bit_zero(t);
            assert(bit(a1, t) == bit(a1, t));
        }
    }
    a
}

} // verus!

verus! {

/// Facts about a ray square that lies on the board.
proof fn lemma_ray_point(s: int, d: int, k: int)
    requires
        0 <= s < 64,
        0 <= d < 8,
        1 <= k,
        ray_on(s, d, k),
    ensures
        0 <= ray_sq(s, d, k) < 64,
        on_ray(s, d, ray_sq(s, d, k)),
        dist(s, ray_sq(s, d, k)) == k,
        k <= 7,
{
    let t = ray_sq(s, d, k);
    let tf = sq_file(s) + offset(dir_df(d), k);
    let tr = sq_rank(s) + offset(dir_dr(d), k);
    assert(t == tr * 8 + tf);
    assert(sq_file(t) == tf && sq_rank(t) == tr);
}

/// A point on a ray is the ray square at its distance.
proof fn lemma_on_ray_point(s: int, d: int, t: int)
    requires
        0 <= d < 8,
        on_ray(s, d, t),
    ensures
        t == ray_sq(s, d, dist(s, t)),
        ray_on(s, d, dist(s, t)),
        dist(s, t) <= 7,
{
}

/// Along a ray the board is convex: an on-board far point implies every nearer
/// point is on the board.
proof fn lemma_ray_convex(s: int, d: int, k: int, m: int)
    requires
        0 <= s < 64,
        0 <= d < 8,
        1 <= k <= m,
        ray_on(s, d, m),
    ensures
        ray_on(s, d, k),
{
}

/// Squares attacked along direction `dir` from `sq`, the first blocker included.
fn ray(dir: usize, sq: u8, occ: u64) -> (a: u64)
    requires
        dir < 8,
        sq < 64,
    ensures
        forall|t: u64| t < 64 ==> #[trigger] bit(a, t) == slides_to(sq as int, dir as int, t as int, occ),
{
    let df: i32 = if dir == 2 || dir == 4 || dir == 6 {
        1
    } else if dir == 3 || dir == 5 || dir == 7 {
        -1
    } else {
        0
    };
    let dr: i32 = if dir == 0 || dir == 4 || dir == 5 {
        1
    } else if dir == 1 || dir == 6 || dir == 7 {
        -1
    } else {
        0
    };
    let f0 = (sq % 8) as i32;
    let r0 = (sq / 8) as i32;
    let mut cf = f0 + df;
    let mut cr = r0 + dr;
    let mut k: i32 = 1;
    let mut a: u64 = 0;
    let ghost s = sq as int;
    let ghost d = dir as int;
    proof {
        assert forall|t: u64| t < 64 implies #[trigger] bit(a, t) == (on_ray(s, d, t as int) && dist(s, t as int) < k) by {
            lemma_bit_zero(t);
            if on_ray(s, d, t as int) {
                lemma_on_ray_point(s, d, t as int);
            }
        }
    }
    while 0 <= cf && cf < 8 && 0 <= cr && cr < 8
        invariant
            s == sq,
            d == dir,
            0 <= s < 64,
            0 <= d < 8,
            df == dir_df(d),
            dr == dir_dr(d),
            f0 == sq_file(s),
            r0 == sq_rank(s),
            1 <= k <= 8,
            cf == f0 + offset(df as int, k as int),
            cr == r0 + offset(dr as int, k as int),
            forall|j: int| 1 <= j < k ==> ray_on(s, d, j) && !#[trigger] bit(occ, ray_sq(s, d, j) as u64),
            forall|t: u64| t < 64 ==> #[trigger] bit(a, t) == (on_ray(s, d, t as int) && dist(s, t as int) < k),
        decreases 8 - k,
    {
        proof {
            assert(ray_on(s, d, k as int));
            lemma_ray_point(s, d, k as int);
        }
        let t0 = (cr * 8 + cf) as u64;
        assert(t0 == ray_sq(s, d, k as int));
        let a2 = a | (1u64 << t0);
        proof {
            assert forall|t: u64| t < 64 implies #[trigger] bit(a2, t) == (on_ray(s, d, t as int) && dist(s, t as int) <= k) by {
                lemma_bit_set(a, t0, t);
                if on_ray(s, d, t as int) {
                    lemma_on_ray_point(s, d, t as int);
                }
            }
        }
        if occ & (1u64 << t0) != 0 {
            proof {
                assert(bit(occ, ray_sq(s, d, k as int) as u64));
                assert forall|t: u64| t < 64 implies #[trigger] bit(a2, t) == slides_to(s, d, t as int, occ) by {
                    if on_ray(s, d, t as int) {
                        lemma_on_ray_point(s, d, t as int);
                        if dist(s, t as int) > k && slides_to(s, d, t as int, occ) {
                            assert(1 <= k < dist(s, t as int));
                            assert(!bit(occ, ray_sq(s, d, k as int) as u64));
                        }
                    }
                }
            }
            return a2;
        }
        a = a2;
        cf = cf + df;
        cr = cr + dr;
        k = k + 1;
    }
    proof {
        assert(!ray_on(s, d, k as int));
        assert forall|t: u64| t < 64 implies #[trigger] bit(a, t) == slides_to(s, d, t as int, occ) by {
            if on_ray(s, d, t as int) {
                lemma_on_ray_point(s, d, t as int);
                if dist(s, t as int) >= k {
                    lemma_ray_convex(s, d, k as int, dist(s, t as int));
                }
            }
        }
    }
    a
}

/// Squares attacked by a bishop on `sq` given occupancy `occ`.
pub fn bishop_attacks(sq: u8, occ: u64) -> (a: u64)
    requires
        sq < 64,
    ensures
        forall|t: u64| t < 64 ==> #[trigger] bit(a, t) == bishop_hits(sq as int, t as int, occ),
{
    let r4 = ray(4, sq, occ);
    let r5 = ray(5, sq, occ);
    let r6 = ray(6, sq, occ);
    let r7 = ray(7, sq, occ);
    let a = r4 | r5 | r6 | r7;
    proof {
        assert forall|t: u64| t < 64 implies #[trigger] bit(a, t) == bishop_hits(sq as int, t as int, occ) by {
            lemma_bit_or(r4 | r5 | r6, r7, t);
            lemma_bit_or(r4 | r5, r6, t);
            lemma_bit_or(r4, r5, t);
        }
    }
    a
}

/// Squares attacked by a rook on `sq` given occupancy `occ`.
pub fn rook_attacks(sq: u8, occ: u64) -> (a: u64)
    requires
        sq < 64,
    ensures
        forall|t: u64| t < 64 ==> #[trigger] bit(a, t) == rook_hits(sq as int, t as int, occ),
{
    let r0 = ray(0, sq, occ);
    let r1 = ray(1, sq, occ);
    let r2 = ray(2, sq, occ);
    let r3 = ray(3, sq, occ);
    let a = r0 | r1 | r2 | r3;
    proof {
        assert forall|t: u64| t < 64 implies #[trigger] bit(a, t) == rook_hits(sq as int, t as int, occ) by {
            lemma_bit_or(r0 | r1 | r2, r3, t);
            lemma_bit_or(r0 | r1, r2, t);
            lemma_bit_or(r0, r1, t);
        }
    }
    a
}

/// Squares attacked by a queen on `sq` given occupancy `occ`.
pub fn queen_attacks(sq: u8, occ: u64) -> (a: u64)
    requires
        sq < 64,
    ensures
        forall|t: u64| t < 64 ==> #[trigger] bit(a, t) == (bishop_hits(sq as int, t as int, occ)
            || rook_hits(sq as int, t as int, occ)),
{
    let b = bishop_attacks(sq, occ);
    let r = rook_attacks(sq, occ);
    let a = b | r;
    proof {
        assert forall|t: u64| t < 64 implies #[trigger] bit(a, t) == (bishop_hits(sq as int, t as int, occ)
            || rook_hits(sq as int, t as int, occ)) by {
            lemma_bit_or(b, r, t);
        }
    }
    a
}

} // verus!

verus! {

/// The piece of `side` on `t` attacks `sq` (given occupancy `occ`), reading the
/// side's bitboards in `pieces`.
pub open spec fn attacker_on(pieces: [[u64; 6]; 2], side: Color, t: u64, sq: int, occ: u64) -> bool {
    let b = pieces[side.spec_index()];
    ||| bit(b[0], t) && pawn_hit(side, t as int, sq)
    ||| bit(b[1], t) && knight_hop(t as int, sq)
    ||| bit(b[5], t) && king_step(t as int, sq)
    ||| (bit(b[2], t) || bit(b[4], t)) && bishop_hits(sq, t as int, occ)
    ||| (bit(b[3], t) || bit(b[4], t)) && rook_hits(sq, t as int, occ)
}

/// `sq` is attacked by some piece of `side`.
pub open spec fn square_attacked(pieces: [[u64; 6]; 2], sq: int, side: Color, occ: u64) -> bool {
    exists|t: u64| t < 64 && #[trigger] attacker_on(pieces, side, t, sq, occ)
}

/// Pawn geometry seen from the attacked square: a pawn of `c` on `t` hits `s`
/// exactly when a pawn of the other color on `s` would hit `t`.
pub proof fn lemma_pawn_reverse(c: Color, s: int, t: int)
    ensures
        pawn_hit(c.spec_flip(), s, t) == pawn_hit(c, t, s),
{
}

pub proof fn lemma_knight_sym(s: int, t: int)
    ensures
        knight_hop(s, t) == knight_hop(t, s),
{
}

pub proof fn lemma_king_sym(s: int, t: int)
    ensures
        king_step(s, t) == king_step(t, s),
{
}

/// Bitboard of the pieces of `side` that attack `sq` given occupancy `occ`.
pub fn attackers_of(pieces: &[[u64; 6]; 2], sq: u8, side: Color, occ: u64) -> (a: u64)
    requires
        sq < 64,
    ensures
        forall|t: u64| t < 64 ==> #[trigger] bit(a, t) == attacker_on(*pieces, side, t, sq as int, occ),
{
    let s = side.index();
    let b = pieces[s];
    let pa = pawn_attacks(side.flip(), sq);
    let na = knight_attacks(sq);
    let ka = king_attacks(sq);
    let ba = bishop_attacks(sq, occ);
    let ra = rook_attacks(sq, occ);
    let pw = pa & b[0];
    let kn = na & b[1];
    let kg = ka & b[5];
    let bq = ba & (b[2] | b[4]);
    let rq = ra & (b[3] | b[4]);
    let a = pw | kn | kg | bq | rq;
    proof {
        assert forall|t: u64| t < 64 implies #[trigger] bit(a, t) == attacker_on(*pieces, side, t, sq as int, occ) by {
            lemma_bit_or(pw | kn | kg | bq, rq, t);
            lemma_bit_or(pw | kn | kg, bq, t);
            lemma_bit_or(pw | kn, kg, t);
            lemma_bit_or(pw, kn, t);
            lemma_bit_and(pa, b[0], t);
            lemma_bit_and(na, b[1], t);
            lemma_bit_and(ka, b[5], t);
            lemma_bit_and(ba, b[2] | b[4], t);
            lemma_bit_and(ra, b[3] | b[4], t);
            lemma_bit_or(b[2], b[4], t);
            lemma_bit_or(b[3], b[4], t);
            lemma_pawn_reverse(side, sq as int, t as int);
            lemma_knight_sym(sq as int, t as int);
            lemma_king_sym(sq as int, t as int);
        }
    }
    a
}

} // verus!

verus! {

/// Is `sq` attacked by any piece of color `by`, given occupancy `occ`?
pub fn is_square_attacked(pos: &crate::position::Position, sq: u8, by: Color, occ: u64) -> (r: bool)
    requires
        sq < 64,
    ensures
        r == square_attacked(pos.pieces, sq as int, by, occ),
{
    let a = attackers_of(&pos.pieces, sq, by, occ);
    proof {
        if a != 0 {
            crate::bits::lemma_nonzero_has_bit(a);
            let t = choose|t: u64| t < 64 && #[trigger] bit(a, t);
            assert(attacker_on(pos.pieces, by, t, sq as int, occ));
        } else {
            crate::bits::lemma_zero_no_bit(a);
            assert forall|t: u64| t < 64 implies !#[trigger] attacker_on(pos.pieces, by, t, sq as int, occ) by {
                assert(!bit(a, t));
            }
        }
    }
    a != 0
}

} // verus!

verus! {

/// The direction opposite to `d`.
pub open spec fn opposite_dir(d: int) -> int {
    if d == 0 {
        1
    } else if d == 1 {
        0
    } else if d == 2 {
        3
    } else if d == 3 {
        2
    } else if d == 4 {
        7
    } else if d == 7 {
        4
    } else if d == 5 {
        6
    } else {
        5
    }
}

/// Seen from the far end, a ray runs back in the opposite direction over the
/// same squares.
proof fn lemma_ray_reverse(s: int, d: int, t: int, j: int)
    requires
        0 <= d < 8,
        on_ray(s, d, t),
        0 <= j <= dist(s, t),
    ensures
        on_ray(t, opposite_dir(d), s),
        dist(t, s) == dist(s, t),
        ray_sq(t, opposite_dir(d), j) == ray_sq(s, d, dist(s, t) - j),
{
}

/// A slider reaches `t` from `s` exactly when it would reach `s` from `t`.
pub proof fn lemma_slides_sym(s: int, d: int, t: int, occ: u64)
    requires
        0 <= d < 8,
    ensures
        slides_to(s, d, t, occ) == slides_to(t, opposite_dir(d), s, occ),
{
    let e = opposite_dir(d);
    if on_ray(s, d, t) {
        lemma_ray_reverse(s, d, t, 0);
        let k = dist(s, t);
        if slides_to(s, d, t, occ) {
            assert forall|j: int| 1 <= j < dist(t, s) implies !#[trigger] bit(occ, ray_sq(t, e, j) as u64) by {
                lemma_ray_reverse(s, d, t, j);
                assert(!bit(occ, ray_sq(s, d, k - j) as u64));
            }
        }
        if slides_to(t, e, s, occ) {
            assert forall|j: int| 1 <= j < dist(s, t) implies !#[trigger] bit(occ, ray_sq(s, d, j) as u64) by {
                lemma_ray_reverse(s, d, t, k - j);
                assert(!bit(occ, ray_sq(t, e, k - j) as u64));
            }
        }
    } else if on_ray(t, e, s) {
        assert(opposite_dir(e) == d);
        lemma_ray_reverse(t, e, s, 0);
    }
}

/// Bishop and rook attacks are symmetric.
pub proof fn lemma_line_attacks_sym(s: int, t: int, occ: u64)
    ensures
        bishop_hits(s, t, occ) == bishop_hits(t, s, occ),
        rook_hits(s, t, occ) == rook_hits(t, s, occ),
{
    lemma_slides_sym(s, 0, t, occ);
    lemma_slides_sym(s, 1, t, occ);
    lemma_slides_sym(s, 2, t, occ);
    lemma_slides_sym(s, 3, t, occ);
    lemma_slides_sym(s, 4, t, occ);
    lemma_slides_sym(s, 5, t, occ);
    lemma_slides_sym(s, 6, t, occ);
    lemma_slides_sym(s, 7, t, occ);
}

} // verus!
