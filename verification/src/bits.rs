//! Bitboard arithmetic: the per-square view of a `u64` board set and the
//! lemmas that connect word-level operations to it.
use vstd::prelude::*;
use vstd::std_specs::bits::{u64_trailing_zeros, axiom_u64_trailing_zeros};

verus! {

/// Square `s` (0..64) is a member of the bitboard `x`.
pub open spec fn bit(x: u64, s: u64) -> bool {
    x & (1u64 << s) != 0
}

/// `x` with square `s` added.
pub open spec fn put(x: u64, s: u64) -> u64 {
    x | (1u64 << s)
}

/// `x` with square `s` removed.
pub open spec fn del(x: u64, s: u64) -> u64 {
    x & !(1u64 << s)
}

pub broadcast proof fn lemma_put_bit(x: u64, s: u64, t: u64)
    requires
        s < 64,
        t < 64,
    ensures
        #[trigger] bit(put(x, s), t) == (s == t || bit(x, t)),
{
    lemma_bit_set(x, s, t);
}

pub broadcast proof fn lemma_del_bit(x: u64, s: u64, t: u64)
    requires
        s < 64,
        t < 64,
    ensures
        #[trigger] bit(del(x, s), t) == (s != t && bit(x, t)),
{
    lemma_bit_clear(x, s, t);
}

/// Single-square bitboard.
pub open spec fn sq_bb(s: u64) -> u64 {
    1u64 << s
}

pub proof fn lemma_bit_or(x: u64, y: u64, t: u64)
    requires
        t < 64,
    ensures
        bit(x | y, t) == (bit(x, t) || bit(y, t)),
{
    assert(((x | y) & (1u64 << t) != 0) == ((x & (1u64 << t) != 0) || (y & (1u64 << t) != 0)))
        by (bit_vector)
        requires
            t < 64,
    ;
}

pub proof fn lemma_bit_and(x: u64, y: u64, t: u64)
    requires
        t < 64,
    ensures
        bit(x & y, t) == (bit(x, t) && bit(y, t)),
{
    assert(((x & y) & (1u64 << t) != 0) == ((x & (1u64 << t) != 0) && (y & (1u64 << t) != 0)))
        by (bit_vector)
        requires
            t < 64,
    ;
}

pub proof fn lemma_bit_xor(x: u64, y: u64, t: u64)
    requires
        t < 64,
    ensures
        bit(x ^ y, t) == (bit(x, t) != bit(y, t)),
{
    assert(((x ^ y) & (1u64 << t) != 0) == ((x & (1u64 << t) != 0) != (y & (1u64 << t) != 0)))
        by (bit_vector)
        requires
            t < 64,
    ;
}

pub proof fn lemma_bit_not(x: u64, t: u64)
    requires
        t < 64,
    ensures
        bit(!x, t) == !bit(x, t),
{
    assert(((!x) & (1u64 << t) != 0) == !(x & (1u64 << t) != 0)) by (bit_vector)
        requires
            t < 64,
    ;
}

pub proof fn lemma_bit_single(s: u64, t: u64)
    requires
        s < 64,
        t < 64,
    ensures
        bit(1u64 << s, t) == (s == t),
{
    assert(((1u64 << s) & (1u64 << t) != 0) == (s == t)) by (bit_vector)
        requires
            s < 64,
            t < 64,
    ;
}

pub proof fn lemma_bit_zero(t: u64)
    requires
        t < 64,
    ensures
        !bit(0, t),
{
    assert(0u64 & (1u64 << t) == 0) by (bit_vector);
}

pub proof fn lemma_bit_set(x: u64, s: u64, t: u64)
    requires
        s < 64,
        t < 64,
    ensures
        bit(x | (1u64 << s), t) == (s == t || bit(x, t)),
{
    lemma_bit_or(x, 1u64 << s, t);
    lemma_bit_single(s, t);
}

pub proof fn lemma_bit_clear(x: u64, s: u64, t: u64)
    requires
        s < 64,
        t < 64,
    ensures
        bit(x & !(1u64 << s), t) == (s != t && bit(x, t)),
{
    lemma_bit_and(x, !(1u64 << s), t);
    lemma_bit_not(1u64 << s, t);
    lemma_bit_single(s, t);
}

/// The lowest member of a nonempty bitboard.
pub proof fn lemma_trailing_zeros_bit(x: u64)
    requires
        x != 0,
    ensures
        u64_trailing_zeros(x) < 64,
        bit(x, u64_trailing_zeros(x) as u64),
        forall|t: u64| t < u64_trailing_zeros(x) ==> !#[trigger] bit(x, t),
{
    axiom_u64_trailing_zeros(x);
    let z = u64_trailing_zeros(x) as u64;
    assert((x >> z) & 1u64 == 1u64 ==> x & (1u64 << z) != 0) by (bit_vector);
    assert forall|t: u64| t < u64_trailing_zeros(x) implies !#[trigger] bit(x, t) by {
        assert((x >> t) & 1u64 == 0u64);
        assert((x >> t) & 1u64 == 0u64 ==> x & (1u64 << t) == 0) by (bit_vector);
    }
}

/// A nonzero bitboard has a member.
pub proof fn lemma_nonzero_has_bit(x: u64)
    requires
        x != 0,
    ensures
        exists|t: u64| t < 64 && #[trigger] bit(x, t),
{
    lemma_trailing_zeros_bit(x);
    let z = u64_trailing_zeros(x) as u64;
    assert(bit(x, z));
}

/// A zero bitboard has no member.
pub proof fn lemma_zero_no_bit(x: u64)
    requires
        x == 0,
    ensures
        forall|t: u64| t < 64 ==> !#[trigger] bit(x, t),
{
    assert forall|t: u64| t < 64 implies !#[trigger] bit(x, t) by {
        lemma_bit_zero(t);
    }
}

/// Two bitboards with the same members are equal.
pub proof fn lemma_bits_ext(x: u64, y: u64)
    requires
        forall|t: u64| t < 64 ==> #[trigger] bit(x, t) == bit(y, t),
    ensures
        x == y,
{
    if x != y {
        assert(x ^ y != 0) by (bit_vector)
            requires
                x != y,
        ;
        lemma_nonzero_has_bit(x ^ y);
        let t = choose|t: u64| t < 64 && #[trigger] bit(x ^ y, t);
        lemma_bit_xor(x, y, t);
        assert(bit(x, t) == bit(y, t));
    }
}

/// `x & y` is nonzero exactly when the two sets share a member.
pub proof fn lemma_and_nonzero(x: u64, y: u64)
    ensures
        (x & y != 0) == (exists|t: u64| t < 64 && #[trigger] bit(x, t) && bit(y, t)),
{
    if x & y != 0 {
        lemma_nonzero_has_bit(x & y);
        let t = choose|t: u64| t < 64 && #[trigger] bit(x & y, t);
        lemma_bit_and(x, y, t);
    } else {
        assert forall|t: u64| t < 64 && #[trigger] bit(x, t) implies !bit(y, t) by {
            lemma_bit_and(x, y, t);
            lemma_bit_zero(t);
        }
    }
}

/// Number of members of a bitboard.
pub open spec fn popcount(x: u64) -> nat
    decreases x,
{
    if x == 0 {
        0
    } else {
        (x % 2) as nat + popcount(x / 2)
    }
}

pub proof fn lemma_popcount_le(x: u64)
    ensures
        popcount(x) <= 64,
{
    assert(x >> 64u64 == 0) by (bit_vector);
    lemma_popcount_bound(x, 64);
}

proof fn lemma_popcount_bound(x: u64, n: u64)
    requires
        n <= 64,
        x >> n == 0,
    ensures
        popcount(x) <= n,
    decreases n,
{
    if x == 0 {
    } else if n == 0 {
        assert(x >> 0u64 == x) by (bit_vector);
    } else {
        assert(x >> n == 0 && n >= 1 && n <= 64 ==> (x / 2) >> ((n - 1) as u64) == 0) by (bit_vector);
        lemma_popcount_bound(x / 2, (n - 1) as u64);
    }
}

/// Disjoint bitboards count separately.
pub proof fn lemma_popcount_disjoint(a: u64, b: u64)
    requires
        a & b == 0,
    ensures
        popcount(a | b) == popcount(a) + popcount(b),
    decreases a,
{
    assert(a & b == 0 ==> ((a | b) == 0 ==> a == 0 && b == 0) && (a | b) % 2 == a % 2 + b % 2 && (a | b) / 2 == (a
        / 2) | (b / 2) && (a / 2) & (b / 2) == 0) by (bit_vector);
    if a != 0 {
        lemma_popcount_disjoint(a / 2, b / 2);
    } else {
        assert(0u64 | b == b) by (bit_vector);
    }
}

/// A bitboard counts zero members exactly when it is empty.
pub proof fn lemma_popcount_zero(x: u64)
    ensures
        (popcount(x) == 0) == (x == 0),
    decreases x,
{
    if x != 0 && x % 2 == 0 {
        lemma_popcount_zero(x / 2);
    }
}

/// Population count of a bitboard, computed one bit at a time.
pub fn count_ones(x: u64) -> (r: u32)
    ensures
        r as nat == popcount(x),
        r <= 64,
{
    proof {
        lemma_popcount_le(x);
    }
    let mut y = x;
    let mut n: u32 = 0;
    while y != 0
        invariant
            n as nat + popcount(y) == popcount(x),
            popcount(x) <= 64,
        decreases y,
    {
        n = n + (y % 2) as u32;
        y = y / 2;
    }
    n
}

/// Index of the lowest member of a nonempty bitboard, and the board without it.
pub fn pop_lsb(b: &mut u64) -> (s: u8)
    requires
        *old(b) != 0,
    ensures
        s < 64,
        bit(*old(b), s as u64),
        forall|t: u64| t < s ==> !#[trigger] bit(*old(b), t),
        *final(b) == *old(b) & !(1u64 << s),
        *final(b) < *old(b),
{
    let x = *b;
    proof {
        lemma_trailing_zeros_bit(x);
    }
    let z = x.trailing_zeros();
    let s = z as u8;
    proof {
        let zz = z as u64;
        axiom_u64_trailing_zeros(x);
        assert(x << ((64 - zz) as u64) == 0);
        assert(x & (1u64 << zz) != 0 && x << ((64 - zz) as u64) == 0 ==> x & ((x - 1) as u64) == x
            & !(1u64 << zz)) by (bit_vector)
            requires
                zz < 64,
        ;
        assert(x != 0 ==> x & ((x - 1) as u64) < x) by (bit_vector);
    }
    *b = x & (x - 1);
    s
}

} // verus!
