//! Pins: a slider move after which an enemy piece on the slider's line shields
//! the enemy king (an absolute pin) or a piece worth more than itself (a
//! relative pin), while the slider cannot be won back.
use vstd::prelude::*;
use crate::facts::types::unavailable_because;
use crate::bits::{bit, del};
use crate::facts::captures::{can_win_back, capturable_for_gain, checks, lemma_gain_same_board, rank_value};
use crate::facts::forks::forker;
use crate::facts::lines::{
    between_squares, held_by, is_slider, least_below, lemma_least_below, lemma_lowest_is_least, lemma_reach_aligned, names_match,
    side_occupancy, slider_attacks, slider_reach, squares_between,
};
use crate::facts::piece_safety::{piece_ref, piece_ref_spec};
use crate::facts::position::{analysis_probe, position_for_analysis_side, stm_king_attacked_by};
use crate::facts::types::{FactCollection, PinOpportunity};
use crate::movegen::{generate_legal, legal_move, movable};
use crate::order::{key_sorted, lemma_sorted_by_key, sort_by_key, sorted_by_key};
use crate::perft::{after, lemma_board_moves, lemma_child, perft_ok};
use crate::position::{spec_piece_at, Position};
use crate::{uci_text, Color, Move, Piece};

verus! {

/// An enemy piece on `t` that the slider moved by `m` attacks.
pub open spec fn attacked_enemy(pos: Position, m: Move, t: int) -> bool {
    let a = after(pos, m);
    slider_reach(forker(pos, m), m.to as int, t, a.all) && held_by(a.pieces, pos.stm.spec_flip(), t)
}

/// The enemy pieces that the slider moved by `m` would newly reach if the
/// piece on `front` were gone.
pub open spec fn behind(pos: Position, m: Move, front: int) -> spec_fn(int) -> bool {
    let a = after(pos, m);
    let p = forker(pos, m);
    |t: int|
        slider_reach(p, m.to as int, t, del(a.all, front as u64)) && !slider_reach(p, m.to as int, t, a.all)
            && held_by(a.pieces, pos.stm.spec_flip(), t)
}

/// The pin of the attacked enemy piece on `t`: the anchor's square and whether
/// the anchor is the king.
pub open spec fn pin_at(pos: Position, m: Move, t: int) -> Option<(int, bool)> {
    let a = after(pos, m);
    if attacked_enemy(pos, m, t) {
        match least_below(behind(pos, m, t), 64) {
            Some(q) => match (spec_piece_at(a, t as u64), spec_piece_at(a, q as u64)) {
                (Some(pp), Some(qq)) => if qq.1 == Piece::King {
                    Some((q, true))
                } else if rank_value(qq.1) > rank_value(pp.1) {
                    Some((q, false))
                } else {
                    None
                },
                _ => None,
            },
            None => None,
        }
    } else {
        None
    }
}

pub open spec fn absolute_pin_at(pos: Position, m: Move) -> spec_fn(int) -> bool {
    |t: int| pin_at(pos, m, t) matches Some(x) && x.1
}

pub open spec fn any_pin_at(pos: Position, m: Move) -> spec_fn(int) -> bool {
    |t: int| pin_at(pos, m, t) is Some
}

/// The pinned square: the lowest absolutely pinned one, else the lowest pinned.
pub open spec fn pinned_square(pos: Position, m: Move) -> Option<int> {
    match least_below(absolute_pin_at(pos, m), 64) {
        Some(t) => Some(t),
        None => least_below(any_pin_at(pos, m), 64),
    }
}

/// `m` is a legal slider move that pins and after which the slider cannot be
/// won back by exchange.
pub open spec fn is_pin(pos: Position, m: Move) -> bool {
    &&& legal_move(pos, m)
    &&& spec_piece_at(pos, m.from as u64) is Some
    &&& is_slider(forker(pos, m))
    &&& !capturable_for_gain(after(pos, m), m.to as int)
    &&& pinned_square(pos, m) is Some
}

/// The fact of the pin made by `m`.
pub open spec fn pin_fact(pos: Position, m: Move, f: PinOpportunity) -> bool {
    let a = after(pos, m);
    let t = pinned_square(pos, m).unwrap();
    let q = pin_at(pos, m, t).unwrap().0;
    let absolute = pin_at(pos, m, t).unwrap().1;
    let e = pos.stm.spec_flip();
    &&& f.kind@ == (if absolute { "absolute"@ } else { "relative"@ })
    &&& f.validator@ == "pin_validation"@
    &&& f.move_uci@ == uci_text(m)
    &&& piece_ref_spec(pos.stm, forker(pos, m), m.to, f.pinner)
    &&& piece_ref_spec(e, spec_piece_at(a, t as u64).unwrap().1, t as u8, f.pinned)
    &&& piece_ref_spec(e, spec_piece_at(a, q as u64).unwrap().1, q as u8, f.anchor)
    &&& names_match(f.ray@, between_squares(m.to as int, q))
    &&& f.gives_check == checks(pos, m)
    &&& f.pinned_immobile == absolute
}

pub open spec fn pin_pred(pos: Position) -> spec_fn(Move) -> bool {
    |m: Move| is_pin(pos, m)
}

pub open spec fn fact_of_a_pin(pos: Position, f: PinOpportunity) -> bool {
    exists|m: Move| #[trigger] is_pin(pos, m) && pin_fact(pos, m, f)
}

pub open spec fn has_pin_fact(pos: Position, m: Move, out: Seq<PinOpportunity>) -> bool {
    exists|i: int| 0 <= i < out.len() && pin_fact(pos, m, #[trigger] out[i])
}

/// One fact per pinning move of the side to move, ascending by move.
pub open spec fn pins_ok(pos: Position, out: Seq<PinOpportunity>) -> bool {
    &&& out.len() == crate::perft::listing_of(pin_pred(pos)).len()
    &&& forall|i: int| 0 <= i < out.len() ==> #[trigger] fact_of_a_pin(pos, out[i])
    &&& forall|m: Move| #[trigger] is_pin(pos, m) ==> has_pin_fact(pos, m, out)
    &&& key_sorted(out)
}

pub open spec fn pins_result(pos: Position, c: FactCollection<PinOpportunity>) -> bool {
    match c {
        FactCollection::Computed { items } => pins_ok(pos, items@),
        _ => false,
    }
}

/// `least_below(f, n)` is `z` when `z` is the least member below `n`.
pub proof fn lemma_least_is(f: spec_fn(int) -> bool, n: nat, z: int)
    requires
        0 <= z < n,
        f(z),
        forall|u: int| 0 <= u < z ==> !#[trigger] f(u),
    ensures
        least_below(f, n) == Some(z),
{
    lemma_least_below(f, n);
    match least_below(f, n) {
        Some(w) => {
            if w > z {
                assert(!f(z));
            }
        },
        None => {},
    }
}

} // verus!

verus! {

/// The pin of the enemy piece on `t`, read from `p1`, the position after `m`;
/// `atk` and `eocc` are the slider's reach and the enemy's squares there.
fn pin_candidate(p1: &Position, Ghost(pos): Ghost<Position>, m: Move, sp: Piece, atk: u64, eocc: u64, t: u8) -> (r: Option<(u8, bool)>)
    requires
        crate::perft::same_board(*p1, after(pos, m)),
        p1.board_wf(),
        m.to < 64,
        t < 64,
        sp == forker(pos, m),
        is_slider(sp),
        forall|u: u64| u < 64 ==> #[trigger] bit(atk, u) == slider_reach(sp, m.to as int, u as int, p1.all),
        forall|u: u64| u < 64 ==> #[trigger] bit(eocc, u) == held_by(p1.pieces, pos.stm.spec_flip(), u as int),
    ensures
        match r {
            Some((q, abs)) => pin_at(pos, m, t as int) == Some((q as int, abs)) && q < 64,
            None => pin_at(pos, m, t as int) is None,
        },
{
    if atk & (1u64 << (t as u64)) == 0 || eocc & (1u64 << (t as u64)) == 0 {
        assert(!bit(atk, t as u64) || !bit(eocc, t as u64));
        return None;
    }
    assert(bit(atk, t as u64) && bit(eocc, t as u64));
    let occ2 = p1.all & !(1u64 << (t as u64));
    assert(occ2 == del(p1.all, t as u64));
    let atk2 = match slider_attacks(sp, m.to, occ2) {
        Some(a) => a,
        None => {
            return None;
        },
    };
    let bb = atk2 & !atk & eocc;
    let ghost f = behind(pos, m, t as int);
    proof {
        assert forall|u: u64| u < 64 implies #[trigger] bit(bb, u) == f(u as int) by {
            crate::bits::lemma_bit_and(atk2 & !atk, eocc, u);
            crate::bits::lemma_bit_and(atk2, !atk, u);
            crate::bits::lemma_bit_not(atk, u);
        }
    }
    if bb == 0 {
        proof {
            crate::bits::lemma_zero_no_bit(bb);
            lemma_least_below(f, 64);
            match least_below(f, 64) {
                Some(z) => {
                    assert(bit(bb, z as u64));
                },
                None => {},
            }
        }
        return None;
    }
    proof {
        lemma_lowest_is_least(f, bb);
        crate::bits::lemma_trailing_zeros_bit(bb);
    }
    let q = bb.trailing_zeros() as u8;
    let pp = match p1.piece_at(t) {
        Some(x) => x,
        None => {
            return None;
        },
    };
    let qq = match p1.piece_at(q) {
        Some(x) => x,
        None => {
            return None;
        },
    };
    if qq.1 == Piece::King {
        Some((q, true))
    } else if crate::facts::forks::value_of_index(qq.1.index()) > crate::facts::forks::value_of_index(pp.1.index()) {
        Some((q, false))
    } else {
        None
    }
}

/// The pin made by `m`: the pinned square, the anchor's square and whether
/// the pin is absolute.
fn find_pin(p1: &Position, Ghost(pos): Ghost<Position>, m: Move, sp: Piece, atk: u64, eocc: u64) -> (r: Option<(u8, u8, bool)>)
    requires
        crate::perft::same_board(*p1, after(pos, m)),
        p1.board_wf(),
        m.to < 64,
        sp == forker(pos, m),
        is_slider(sp),
        forall|u: u64| u < 64 ==> #[trigger] bit(atk, u) == slider_reach(sp, m.to as int, u as int, p1.all),
        forall|u: u64| u < 64 ==> #[trigger] bit(eocc, u) == held_by(p1.pieces, pos.stm.spec_flip(), u as int),
    ensures
        match r {
            Some((t, q, abs)) => pinned_square(pos, m) == Some(t as int) && pin_at(pos, m, t as int) == Some((q as int, abs))
                && q < 64 && t < 64,
            None => pinned_square(pos, m) is None,
        },
{
    let ghost fa = absolute_pin_at(pos, m);
    let ghost fp = any_pin_at(pos, m);
    let mut rel: Option<(u8, u8)> = None;
    let mut t: u8 = 0;
    while t < 64
        invariant
            t <= 64,
            crate::perft::same_board(*p1, after(pos, m)),
            p1.board_wf(),
            m.to < 64,
            sp == forker(pos, m),
            is_slider(sp),
            forall|u: u64| u < 64 ==> #[trigger] bit(atk, u) == slider_reach(sp, m.to as int, u as int, p1.all),
            forall|u: u64| u < 64 ==> #[trigger] bit(eocc, u) == held_by(p1.pieces, pos.stm.spec_flip(), u as int),
            fa == absolute_pin_at(pos, m),
            fp == any_pin_at(pos, m),
            forall|u: int| 0 <= u < t ==> !#[trigger] fa(u),
            match rel {
                Some((s, q)) => least_below(fp, t as nat) == Some(s as int) && pin_at(pos, m, s as int) == Some((q as int, false))
                    && s < 64 && q < 64,
                None => least_below(fp, t as nat) is None,
            },
        decreases 64 - t,
    {
        match pin_candidate(p1, Ghost(pos), m, sp, atk, eocc, t) {
            Some((q, abs)) => {
                if abs {
                    proof {
                        assert(fa(t as int));
                        lemma_least_is(fa, 64, t as int);
                    }
                    return Some((t, q, true));
                }
                if rel.is_none() {
                    rel = Some((t, q));
                }
            },
            None => {},
        }
        assert(!fa(t as int));
        t = t + 1;
    }
    proof {
        lemma_least_below(fa, 64);
        match least_below(fa, 64) {
            Some(z) => {
                assert(fa(z));
            },
            None => {},
        }
    }
    match rel {
        Some((s, q)) => Some((s, q, false)),
        None => None,
    }
}

} // verus!

verus! {

/// The pin fact of the legal move `m`, if it pins. `probe` is a copy of `pos`
/// used to test for check; it is left as it was.
fn pin_of(pos: &Position, probe: &mut Position, m: Move) -> (r: Option<PinOpportunity>)
    requires
        pos.wf(),
        perft_ok(*pos, 2),
        legal_move(*pos, m),
        old(probe).same_state(*pos),
    ensures
        final(probe).same_state(*pos),
        r matches Some(f) ==> is_pin(*pos, m) && pin_fact(*pos, m, f),
        r is None ==> !is_pin(*pos, m),
{
    assert(movable(*pos));
    proof {
        crate::movegen::lemma_pseudo_consistent(*pos, m);
    }
    let mp = match pos.piece_at(m.from) {
        Some((_, p)) => p,
        None => {
            return None;
        },
    };
    let sp = match m.flag.promo_piece() {
        Some(p) => p,
        None => mp,
    };
    assert(sp == forker(*pos, m));
    if slider_attacks(sp, m.to, 0).is_none() {
        return None;
    }
    proof {
        crate::movegen::lemma_same_state_moves(*probe, *pos);
        crate::perft::lemma_board_after(*probe, *pos, m);
        assert(perft_ok(after(*pos, m), 1));
    }
    let gives = crate::movegen::gives_check(probe, m);
    let mut moved = pos.duplicate();
    proof {
        crate::movegen::lemma_same_state_moves(moved, *pos);
        crate::movegen::lemma_pseudo_consistent(moved, m);
    }
    let ghost before_make = moved;
    moved.make(m);
    let ghost p1 = moved;
    proof {
        lemma_child(*pos, before_make, m, moved, 1);
        lemma_board_moves(moved, after(*pos, m));
    }
    let atk = match slider_attacks(sp, m.to, moved.all) {
        Some(a) => a,
        None => {
            return None;
        },
    };
    let enemy = pos.stm.flip();
    let eocc = side_occupancy(&moved.pieces, enemy);
    let found = find_pin(&moved, Ghost(*pos), m, sp, atk, eocc);
    let won_back = can_win_back(&mut moved, m.to);
    proof {
        lemma_gain_same_board(p1, after(*pos, m), m.to as int);
    }
    if won_back {
        return None;
    }
    let (t, q, absolute) = match found {
        Some(x) => x,
        None => {
            return None;
        },
    };
    let ghost a = after(*pos, m);
    let pp = match moved.piece_at(t) {
        Some(x) => x.1,
        None => {
            return None;
        },
    };
    let qp = match moved.piece_at(q) {
        Some(x) => x.1,
        None => {
            return None;
        },
    };
    proof {
        assert(attacked_enemy(*pos, m, t as int));
        let qq = least_below(behind(*pos, m, t as int), 64).unwrap();
        lemma_least_below(behind(*pos, m, t as int), 64);
        assert(qq == q as int);
        lemma_reach_aligned(sp, m.to as int, q as int, del(a.all, t as u64));
    }
    let ray = squares_between(m.to, q);
    Some(PinOpportunity {
        kind: if absolute { String::from_str("absolute") } else { String::from_str("relative") },
        validator: String::from_str("pin_validation"),
        move_uci: m.to_uci(),
        pinner: piece_ref(pos.stm, sp, m.to),
        pinned: piece_ref(enemy, pp, t),
        anchor: piece_ref(enemy, qp, q),
        ray,
        gives_check: gives,
        pinned_immobile: absolute,
    })
}

} // verus!

verus! {

/// The facts of the pins, in the order of the legal moves, with the pins
/// they describe.
fn pin_facts(pos: &Position) -> (res: (Vec<PinOpportunity>, Ghost<Seq<Move>>))
    requires
        pos.wf(),
        perft_ok(*pos, 2),
    ensures
        res.0@.len() == res.1@.len(),
        forall|k: int| 0 <= k < res.1@.len() ==> #[trigger] is_pin(*pos, res.1@[k]) && pin_fact(*pos, res.1@[k], res.0@[k]),
        crate::movegen::lists_exactly(res.1@, pin_pred(*pos)),
{
    assert(movable(*pos));
    let mut probe = pos.duplicate();
    proof {
        crate::movegen::lemma_same_state_moves(probe, *pos);
    }
    let legal = generate_legal(&mut probe);
    let mut facts: Vec<PinOpportunity> = Vec::new();
    let ghost mut ms: Seq<Move> = Seq::empty();
    let ghost mut idx: Seq<int> = Seq::empty();
    let mut i: usize = 0;
    while i < legal.len()
        invariant
            i <= legal@.len(),
            pos.wf(),
            perft_ok(*pos, 2),
            movable(*pos),
            probe.same_state(*pos),
            crate::movegen::lists_exactly(legal@, |m: Move| legal_move(*pos, m)),
            idx.len() == ms.len(),
            facts@.len() == ms.len(),
            forall|k: int| 0 <= k < idx.len() ==> 0 <= #[trigger] idx[k] < i && legal@[idx[k]] == ms[k],
            forall|k: int, l: int| 0 <= k < l < idx.len() ==> #[trigger] idx[k] < #[trigger] idx[l],
            forall|k: int| 0 <= k < ms.len() ==> #[trigger] is_pin(*pos, ms[k]) && pin_fact(*pos, ms[k], facts@[k]),
            forall|j: int| 0 <= j < i && #[trigger] is_pin(*pos, legal@[j]) ==> exists|k: int| 0 <= k < idx.len() && idx[k] == j,
        decreases legal@.len() - i,
    {
        let m = legal[i];
        assert(legal@.contains(m));
        assert(legal_move(*pos, m));
        let ghost old_idx = idx;
        let ghost old_ms = ms;
        let ghost before = facts@;
        match pin_of(pos, &mut probe, m) {
            Some(f) => {
                facts.push(f);
                proof {
                    ms = ms.push(m);
                    idx = idx.push(i as int);
                }
            },
            None => {},
        }
        proof {
            assert forall|k: int| 0 <= k < ms.len() implies #[trigger] is_pin(*pos, ms[k]) && pin_fact(*pos, ms[k], facts@[k]) by {
                if k < old_ms.len() {
                    assert(ms[k] == old_ms[k] && facts@[k] == before[k]);
                }
            }
            assert forall|j: int| 0 <= j < i + 1 && #[trigger] is_pin(*pos, legal@[j]) implies exists|k: int|
                0 <= k < idx.len() && idx[k] == j by {
                if j < i {
                    let k = choose|k: int| 0 <= k < old_idx.len() && old_idx[k] == j;
                    assert(idx[k] == j);
                } else {
                    assert(idx.len() > old_idx.len());
                    assert(idx[idx.len() - 1] == j);
                }
            }
        }
        i = i + 1;
    }
    proof {
        assert forall|a: int, b: int| 0 <= a < ms.len() && 0 <= b < ms.len() && a != b implies ms[a] != ms[b] by {
            if a < b {
                assert(idx[a] < idx[b]);
            } else {
                assert(idx[b] < idx[a]);
            }
        }
        assert forall|m: Move| #![trigger ms.contains(m)] #![trigger pin_pred(*pos)(m)] ms.contains(m) <==> pin_pred(*pos)(m) by {
            if ms.contains(m) {
                let k = choose|k: int| 0 <= k < ms.len() && ms[k] == m;
                assert(is_pin(*pos, ms[k]));
            }
            if is_pin(*pos, m) {
                assert(legal@.contains(m));
                let j = choose|j: int| 0 <= j < legal@.len() && legal@[j] == m;
                assert(is_pin(*pos, legal@[j]));
                let k = choose|k: int| 0 <= k < idx.len() && idx[k] == j;
                assert(ms[k] == m);
            }
        }
    }
    (facts, Ghost(ms))
}

/// Sorting the facts of the pins yields one per pinning move, by move.
#[verifier::spinoff_prover]
proof fn lemma_pin_order(pos: Position, ms: Seq<Move>, unsorted: Seq<PinOpportunity>)
    requires
        unsorted.len() == ms.len(),
        forall|k: int| 0 <= k < ms.len() ==> #[trigger] is_pin(pos, ms[k]) && pin_fact(pos, ms[k], unsorted[k]),
        crate::movegen::lists_exactly(ms, pin_pred(pos)),
    ensures
        pins_ok(pos, sorted_by_key(unsorted)),
{
    lemma_sorted_by_key(unsorted);
    let p = pin_pred(pos);
    assert(crate::movegen::lists_exactly(crate::perft::listing_of(p), p));
    crate::movegen::lemma_listing_len(ms, crate::perft::listing_of(p), p);
    assert forall|i: int| 0 <= i < sorted_by_key(unsorted).len() implies #[trigger] fact_of_a_pin(pos, sorted_by_key(unsorted)[i]) by {
        assert(sorted_by_key(unsorted).contains(sorted_by_key(unsorted)[i]));
        assert(unsorted.contains(sorted_by_key(unsorted)[i]));
        let l = choose|l: int| 0 <= l < unsorted.len() && unsorted[l] == sorted_by_key(unsorted)[i];
        assert(is_pin(pos, ms[l]) && pin_fact(pos, ms[l], unsorted[l]));
    }
    assert forall|m: Move| #[trigger] is_pin(pos, m) implies has_pin_fact(pos, m, sorted_by_key(unsorted)) by {
        assert(p(m));
        assert(ms.contains(m));
        let l = choose|l: int| 0 <= l < ms.len() && ms[l] == m;
        assert(is_pin(pos, ms[l]) && pin_fact(pos, ms[l], unsorted[l]));
        assert(unsorted.contains(unsorted[l]));
        assert(sorted_by_key(unsorted).contains(unsorted[l]));
        let i = choose|i: int| 0 <= i < sorted_by_key(unsorted).len() && sorted_by_key(unsorted)[i] == unsorted[l];
        assert(pin_fact(pos, m, sorted_by_key(unsorted)[i]));
    }
}

/// The pins available to the side to move, ascending by move.
pub fn pin_opportunities(pos: &Position) -> (c: FactCollection<PinOpportunity>)
    requires
        pos.wf(),
        perft_ok(*pos, 2),
    ensures
        pins_result(*pos, c),
{
    let (facts, Ghost(ms)) = pin_facts(pos);
    proof {
        lemma_pin_order(*pos, ms, facts@);
    }
    FactCollection::computed(sort_by_key(facts))
}


/// The pins that `side` could make: refused for the side not to move while
/// the side to move is in check, else those of the probe with `side` to move.
pub fn pin_opportunities_for(pos: &Position, side: Color) -> (c: FactCollection<PinOpportunity>)
    requires
        pos.wf(),
        pos.stm == side ==> perft_ok(*pos, 2),
        pos.stm != side ==> pos.pieces[pos.stm.spec_index()][5] != 0 && (!stm_king_attacked_by(*pos, side) ==> forall|p: Position| #[trigger] crate::facts::position::handed_over(*pos, side, p) ==> perft_ok(p, 2)),
    ensures
        pos.stm != side && stm_king_attacked_by(*pos, side) ==> unavailable_because(c, "opposite_side_probe_while_in_check"@),
        !(pos.stm != side && stm_king_attacked_by(*pos, side)) ==> exists|p: Position| #[trigger] analysis_probe(*pos, side, p) && pins_result(p, c),
{
    match position_for_analysis_side(pos, side) {
        Ok(probe) => {
            proof {
                if pos.stm == side {
                    crate::perft::lemma_board_perft(probe, *pos, 2);
                }
            }
            let c = pin_opportunities(&probe);
            assert(analysis_probe(*pos, side, probe));
            c
        },
        Err(reason) => FactCollection::unavailable(reason),
    }
}

} // verus!
