//! Search scoring helpers: mate scores relative to the root and to a node, and
//! the root king-danger classifier.
use vstd::prelude::*;
use crate::attacks::{attackers_of, attacker_on, king_attacks, king_step, square_attacked};
use crate::bits::bit;
use crate::movegen::king_square;
use crate::position::Position;
use crate::{Color, Piece};

pub mod alphabeta;
pub mod deepening;
pub mod ordering;
pub mod stability;
pub mod tables;
pub mod types;
pub use types::{Lane, PartialIteration, RootCandidateProgress, RootGeometryCacheEntry, RootScope, SearchIteration,
    SearchResult, SearchResultSource, SearchTermination, Telemetry, TELEMETRY_PLY_BUCKETS};

verus! {

pub const MATE_SCORE: i32 = 1_000_000;
pub const MATE_THRESHOLD: i32 = 999_000;

/// A score beyond the threshold is a mate score.
pub open spec fn is_mate_score(score: int) -> bool {
    score > MATE_THRESHOLD || score < -MATE_THRESHOLD
}

/// The adjustment `mate_store_adjust` makes, as a mathematical value.
pub open spec fn store_adjusted(score: int, ply: int) -> int {
    if score > MATE_THRESHOLD {
        score + ply
    } else if score < -MATE_THRESHOLD {
        score - ply
    } else {
        score
    }
}

/// The adjustment `mate_probe_adjust` makes, as a mathematical value.
pub open spec fn probe_adjusted(score: int, ply: int) -> int {
    if score > MATE_THRESHOLD {
        score - ply
    } else if score < -MATE_THRESHOLD {
        score + ply
    } else {
        score
    }
}

/// Search mate scores are root-relative (`±(MATE_SCORE - ply from root)`), but
/// the table is keyed by position, which can occur at different plies: convert
/// a mate score to a node-intrinsic mate distance before storing. Non-mate
/// scores are unchanged.
pub fn mate_store_adjust(score: i32, ply: i32) -> (r: i32)
    requires
        i32::MIN <= store_adjusted(score as int, ply as int) <= i32::MAX,
    ensures
        r == store_adjusted(score as int, ply as int),
{
    if score > MATE_THRESHOLD {
        score + ply
    } else if score < -MATE_THRESHOLD {
        score - ply
    } else {
        score
    }
}

/// Inverse of `mate_store_adjust`: a stored node-intrinsic score, made
/// root-relative at `ply`.
pub fn mate_probe_adjust(score: i32, ply: i32) -> (r: i32)
    requires
        i32::MIN <= probe_adjusted(score as int, ply as int) <= i32::MAX,
    ensures
        r == probe_adjusted(score as int, ply as int),
{
    if score > MATE_THRESHOLD {
        score - ply
    } else if score < -MATE_THRESHOLD {
        score + ply
    } else {
        score
    }
}

/// Probing at the ply a score was stored at gives the score back.
pub proof fn lemma_mate_roundtrip(score: int, ply: int)
    requires
        ply >= 0,
    ensures
        probe_adjusted(store_adjusted(score, ply), ply) == score,
{
}

/// A mate found `n` plies below a node reached at ply `p1` reads, when the
/// same entry is probed at ply `p2`, as the mate `n` plies below ply `p2`, on
/// both the winning and the losing side.
pub proof fn lemma_mate_distance(n: int, p1: int, p2: int)
    requires
        n >= 0,
        p1 >= 0,
        p2 >= 0,
        n + p1 < MATE_SCORE - MATE_THRESHOLD,
        n < MATE_SCORE - MATE_THRESHOLD,
    ensures
        store_adjusted(MATE_SCORE - (p1 + n), p1) == MATE_SCORE - n,
        probe_adjusted(store_adjusted(MATE_SCORE - (p1 + n), p1), p2) == MATE_SCORE - (p2 + n),
        store_adjusted(-(MATE_SCORE - (p1 + n)), p1) == -(MATE_SCORE - n),
        probe_adjusted(store_adjusted(-(MATE_SCORE - (p1 + n)), p1), p2) == -(MATE_SCORE - (p2 + n)),
{
}

/// `t` is in the zone of a king on `k`: the king's square and its neighbours.
pub open spec fn in_king_zone(k: int, t: int) -> bool {
    t == k || king_step(k, t)
}

/// The number of squares below `n` in the zone of a king on `k` that `them` attacks.
pub open spec fn zone_pressure(pos: Position, k: int, them: Color, n: int) -> nat
    decreases n,
{
    if n <= 0 {
        0
    } else {
        zone_pressure(pos, k, them, n - 1) + if in_king_zone(k, n - 1) && square_attacked(pos.pieces, n - 1, them, pos.all) {
            1nat
        } else {
            0nat
        }
    }
}

/// The king-danger level of the side to move: 0 without an enemy queen;
/// otherwise one step for two or more attacked zone squares and one more for
/// the king off its home rank under any pressure (or four or more attacked
/// squares), at most 2.
pub open spec fn danger_spec(pos: Position) -> u32 {
    let us = pos.stm;
    let them = us.spec_flip();
    if pos.pieces[them.spec_index()][4] == 0 {
        0
    } else {
        let k = king_square(pos.pieces, us.spec_index());
        let p = zone_pressure(pos, k, them, 64);
        let home: int = if us == Color::White { 0 } else { 7 };
        let off_home = k / 8 != home;
        let d1: u32 = if p >= 2 { 1 } else { 0 };
        let d2: u32 = if (off_home && p >= 1) || p >= 4 { 1 } else { 0 };
        if d1 + d2 > 2 { 2 } else { (d1 + d2) as u32 }
    }
}

/// Root-level king-danger classifier: 0 = normal, 1 = danger, 2 = critical.
/// Fires only with an enemy queen on the board; combines king-zone pressure
/// (attacked squares of the king's 9-square zone) with the king being off its
/// home rank.
pub fn danger_level(pos: &Position) -> (d: u32)
    requires
        pos.pieces[pos.stm.spec_index()][5] != 0,
    ensures
        d == danger_spec(*pos),
        d <= 2,
{
    let us = pos.stm;
    let them = us.flip();
    if pos.pieces[them.index()][Piece::Queen.index()] == 0 {
        return 0;
    }
    let ksq = pos.king_sq(us);
    let ka = king_attacks(ksq);
    let zone = ka | (1u64 << ksq);
    proof {
        assert forall|t: u64| t < 64 implies #[trigger] bit(zone, t) == in_king_zone(ksq as int, t as int) by {
            crate::bits::lemma_bit_or(ka, 1u64 << ksq, t);
            crate::bits::lemma_bit_single(ksq as u64, t);
        }
    }
    let mut pressure: u32 = 0;
    let mut sq: u8 = 0;
    while sq < 64
        invariant
            sq <= 64,
            ksq < 64,
            ksq == king_square(pos.pieces, us.spec_index()),
            them == us.spec_flip(),
            forall|t: u64| t < 64 ==> #[trigger] bit(zone, t) == in_king_zone(ksq as int, t as int),
            pressure == zone_pressure(*pos, ksq as int, them, sq as int),
            pressure <= sq,
        decreases 64 - sq,
    {
        let ghost before = pressure;
        assert(zone_pressure(*pos, ksq as int, them, sq + 1) == zone_pressure(*pos, ksq as int, them, sq as int) + if in_king_zone(
            ksq as int, sq as int) && square_attacked(pos.pieces, sq as int, them, pos.all) {
            1nat
        } else {
            0nat
        });
        assert(bit(zone, sq as u64) == in_king_zone(ksq as int, sq as int));
        if zone & (1u64 << sq) != 0 {
            let a = attackers_of(&pos.pieces, sq, them, pos.all);
            proof {
                if a != 0 {
                    crate::bits::lemma_nonzero_has_bit(a);
                    let t = choose|t: u64| t < 64 && #[trigger] bit(a, t);
                    assert(attacker_on(pos.pieces, them, t, sq as int, pos.all));
                } else {
                    crate::bits::lemma_zero_no_bit(a);
                    assert forall|t: u64| t < 64 implies !#[trigger] attacker_on(pos.pieces, them, t, sq as int, pos.all) by {
                        assert(!bit(a, t));
                    }
                }
            }
            if a != 0 {
                pressure = pressure + 1;
            }
        }
        sq = sq + 1;
    }
    let home: u8 = if us == Color::White { 0 } else { 7 };
    let off_home = crate::rank_of(ksq) != home;
    let mut danger: u32 = 0;
    if pressure >= 2 {
        danger = danger + 1;
    }
    if (off_home && pressure >= 1) || pressure >= 4 {
        danger = danger + 1;
    }
    if danger > 2 { 2 } else { danger }
}

} // verus!
