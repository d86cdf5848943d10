//! Skewers: a slider move that attacks an enemy piece which must step aside
//! (the king, or a piece worth more than the slider) and exposes a lesser
//! enemy piece behind it that can then be won, while the slider cannot be won
//! back.
use vstd::prelude::*;
use crate::facts::types::unavailable_because;
use crate::bits::{bit, del};
use crate::facts::captures::{can_win_back, capturable_for_gain, checks, lemma_gain_same_board, rank_value};
use crate::facts::forks::forker;
use crate::facts::lines::{
    between_squares, is_slider, least_below, lemma_least_below, lemma_lowest_is_least, lemma_reach_aligned, names_match,
    side_occupancy, slider_attacks, slider_reach, squares_between, held_by,
};
use crate::facts::piece_safety::{guard_set, guards, piece_ref, piece_ref_spec};
use crate::facts::pins::{attacked_enemy, behind, lemma_least_is};
use crate::facts::position::{analysis_probe, position_for_analysis_side, stm_king_attacked_by};
use crate::facts::types::{FactCollection, SkewerOpportunity};
use crate::movegen::{generate_legal, legal_move, movable};
use crate::order::{key_sorted, lemma_sorted_by_key, sort_by_key, sorted_by_key};
use crate::perft::{after, lemma_board_moves, lemma_child, perft_ok};
use crate::position::{spec_piece_at, Position};
use crate::{uci_text, Color, Move, Piece};

verus! {

/// No piece of `owner` other than those on `b` and `f` defends `b` in `a`.
pub open spec fn back_undefended(a: Position, owner: Color, b: int, f: int) -> bool {
    forall|u: u64| u < 64 ==> !(#[trigger] guards(a, owner, b, u) && u as int != f)
}

/// The skewer through the attacked enemy piece on `f`: the back piece's square
/// and the material it wins.
pub open spec fn skewer_at(pos: Position, m: Move, f: int) -> Option<(int, int)> {
    let a = after(pos, m);
    let sv = rank_value(forker(pos, m));
    let e = pos.stm.spec_flip();
    if attacked_enemy(pos, m, f) {
        match spec_piece_at(a, f as u64) {
            Some(fp) => if !(fp.1 == Piece::King || rank_value(fp.1) > sv) {
                None
            } else {
                match least_below(behind(pos, m, f), 64) {
                    Some(b) => match spec_piece_at(a, b as u64) {
                        Some(bp) => if bp.1 == Piece::King {
                            None
                        } else if fp.1 != Piece::King && rank_value(fp.1) <= rank_value(bp.1) {
                            None
                        } else if !back_undefended(a, e, b, f) && rank_value(bp.1) <= sv {
                            None
                        } else {
                            Some((b, if back_undefended(a, e, b, f) { rank_value(bp.1) } else { rank_value(bp.1) - sv }))
                        },
                        None => None,
                    },
                    None => None,
                }
            },
            None => None,
        }
    } else {
        None
    }
}

pub open spec fn any_skewer_at(pos: Position, m: Move) -> spec_fn(int) -> bool {
    |t: int| skewer_at(pos, m, t) is Some
}

/// `m` is a legal slider move that skewers and after which the slider cannot
/// be won back by exchange.
pub open spec fn is_skewer(pos: Position, m: Move) -> bool {
    &&& legal_move(pos, m)
    &&& spec_piece_at(pos, m.from as u64) is Some
    &&& is_slider(forker(pos, m))
    &&& !capturable_for_gain(after(pos, m), m.to as int)
    &&& least_below(any_skewer_at(pos, m), 64) is Some
}

/// The fact of the skewer made by `m` (through its lowest front square).
pub open spec fn skewer_fact(pos: Position, m: Move, s: SkewerOpportunity) -> bool {
    let a = after(pos, m);
    let f = least_below(any_skewer_at(pos, m), 64).unwrap();
    let b = skewer_at(pos, m, f).unwrap().0;
    let e = pos.stm.spec_flip();
    &&& s.kind@ == "skewer"@
    &&& s.validator@ == "skewer_validation"@
    &&& s.move_uci@ == uci_text(m)
    &&& piece_ref_spec(pos.stm, forker(pos, m), m.to, s.skewerer)
    &&& piece_ref_spec(e, spec_piece_at(a, f as u64).unwrap().1, f as u8, s.front)
    &&& piece_ref_spec(e, spec_piece_at(a, b as u64).unwrap().1, b as u8, s.back)
    &&& names_match(s.ray@, between_squares(m.to as int, b))
    &&& s.gives_check == checks(pos, m)
    &&& s.material_gain == skewer_at(pos, m, f).unwrap().1
}

pub open spec fn skewer_pred(pos: Position) -> spec_fn(Move) -> bool {
    |m: Move| is_skewer(pos, m)
}

pub open spec fn fact_of_a_skewer(pos: Position, s: SkewerOpportunity) -> bool {
    exists|m: Move| #[trigger] is_skewer(pos, m) && skewer_fact(pos, m, s)
}

pub open spec fn has_skewer_fact(pos: Position, m: Move, out: Seq<SkewerOpportunity>) -> bool {
    exists|i: int| 0 <= i < out.len() && skewer_fact(pos, m, #[trigger] out[i])
}

/// One fact per skewering move of the side to move, ascending by move.
pub open spec fn skewers_ok(pos: Position, out: Seq<SkewerOpportunity>) -> bool {
    &&& out.len() == crate::perft::listing_of(skewer_pred(pos)).len()
    &&& forall|i: int| 0 <= i < out.len() ==> #[trigger] fact_of_a_skewer(pos, out[i])
    &&& forall|m: Move| #[trigger] is_skewer(pos, m) ==> has_skewer_fact(pos, m, out)
    &&& key_sorted(out)
}

pub open spec fn skewers_result(pos: Position, c: FactCollection<SkewerOpportunity>) -> bool {
    match c {
        FactCollection::Computed { items } => skewers_ok(pos, items@),
        _ => false,
    }
}

} // verus!

verus! {

/// The skewer through the enemy piece on `f`, read from `p1`, the position
/// after `m`; `atk` and `eocc` are the slider's reach and the enemy's squares.
fn skewer_candidate(p1: &Position, Ghost(pos): Ghost<Position>, m: Move, sp: Piece, atk: u64, eocc: u64, f: u8) -> (r: Option<(u8, i32)>)
    requires
        crate::perft::same_board(*p1, after(pos, m)),
        p1.board_wf(),
        m.to < 64,
        f < 64,
        sp == forker(pos, m),
        is_slider(sp),
        forall|u: u64| u < 64 ==> #[trigger] bit(atk, u) == slider_reach(sp, m.to as int, u as int, p1.all),
        forall|u: u64| u < 64 ==> #[trigger] bit(eocc, u) == held_by(p1.pieces, pos.stm.spec_flip(), u as int),
    ensures
        match r {
            Some((b, g)) => skewer_at(pos, m, f as int) == Some((b as int, g as int)) && b < 64,
            None => skewer_at(pos, m, f as int) is None,
        },
{
    if atk & (1u64 << (f as u64)) == 0 || eocc & (1u64 << (f as u64)) == 0 {
        assert(!bit(atk, f as u64) || !bit(eocc, f as u64));
        return None;
    }
    assert(bit(atk, f as u64) && bit(eocc, f as u64));
    let fp = match p1.piece_at(f) {
        Some(x) => x.1,
        None => {
            return None;
        },
    };
    let sv = crate::facts::forks::value_of_index(sp.index());
    let fv = crate::facts::forks::value_of_index(fp.index());
    if !(fp == Piece::King || fv > sv) {
        return None;
    }
    let occ2 = p1.all & !(1u64 << (f as u64));
    assert(occ2 == del(p1.all, f as u64));
    let atk2 = match slider_attacks(sp, m.to, occ2) {
        Some(a) => a,
        None => {
            return None;
        },
    };
    let bb = atk2 & !atk & eocc;
    let ghost fb = behind(pos, m, f as int);
    proof {
        assert forall|u: u64| u < 64 implies #[trigger] bit(bb, u) == fb(u as int) by {
            crate::bits::lemma_bit_and(atk2 & !atk, eocc, u);
            crate::bits::lemma_bit_and(atk2, !atk, u);
            crate::bits::lemma_bit_not(atk, u);
        }
    }
    if bb == 0 {
        proof {
            crate::bits::lemma_zero_no_bit(bb);
            lemma_least_below(fb, 64);
            match least_below(fb, 64) {
                Some(z) => {
                    assert(bit(bb, z as u64));
                },
                None => {},
            }
        }
        return None;
    }
    proof {
        lemma_lowest_is_least(fb, bb);
        crate::bits::lemma_trailing_zeros_bit(bb);
    }
    let b = bb.trailing_zeros() as u8;
    let bp = match p1.piece_at(b) {
        Some(x) => x.1,
        None => {
            return None;
        },
    };
    let bv = crate::facts::forks::value_of_index(bp.index());
    if bp == Piece::King {
        return None;
    }
    if fp != Piece::King && fv <= bv {
        return None;
    }
    let enemy = if p1.stm == Color::White { Color::White } else { Color::Black };
    assert(enemy == pos.stm.spec_flip());
    let g0 = guard_set(p1, enemy, b);
    let g = g0 & !(1u64 << (f as u64));
    let undefended = g == 0;
    proof {
        assert forall|u: u64| u < 64 implies #[trigger] bit(g, u) == (guards(after(pos, m), enemy, b as int, u) && u as int != f) by {
            crate::bits::lemma_bit_and(g0, !(1u64 << (f as u64)), u);
            crate::bits::lemma_bit_not(1u64 << (f as u64), u);
            crate::bits::lemma_bit_single(f as u64, u);
        }
        if undefended {
            crate::bits::lemma_zero_no_bit(g);
            assert forall|u: u64| u < 64 implies !(#[trigger] guards(after(pos, m), enemy, b as int, u) && u as int != f) by {
                assert(!bit(g, u));
            }
        } else {
            crate::bits::lemma_nonzero_has_bit(g);
            let u = choose|u: u64| u < 64 && #[trigger] bit(g, u);
            assert(guards(after(pos, m), enemy, b as int, u) && u as int != f);
        }
        assert(undefended == back_undefended(after(pos, m), enemy, b as int, f as int));
    }
    if !undefended && bv <= sv {
        return None;
    }
    Some((b, if undefended { bv } else { bv - sv }))
}

} // verus!

verus! {

/// The skewer made by `m`: its lowest front square, the back piece's square
/// and the material won.
fn find_skewer(p1: &Position, Ghost(pos): Ghost<Position>, m: Move, sp: Piece, atk: u64, eocc: u64) -> (r: Option<(u8, u8, i32)>)
    requires
        crate::perft::same_board(*p1, after(pos, m)),
        p1.board_wf(),
        m.to < 64,
        sp == forker(pos, m),
        is_slider(sp),
        forall|u: u64| u < 64 ==> #[trigger] bit(atk, u) == slider_reach(sp, m.to as int, u as int, p1.all),
        forall|u: u64| u < 64 ==> #[trigger] bit(eocc, u) == held_by(p1.pieces, pos.stm.spec_flip(), u as int),
    ensures
        match r {
            Some((f, b, g)) => least_below(any_skewer_at(pos, m), 64) == Some(f as int) && skewer_at(pos, m, f as int) == Some(
                (b as int, g as int),
            ) && b < 64 && f < 64,
            None => least_below(any_skewer_at(pos, m), 64) is None,
        },
{
    let ghost fs = any_skewer_at(pos, m);
    let mut f: u8 = 0;
    while f < 64
        invariant
            f <= 64,
            crate::perft::same_board(*p1, after(pos, m)),
            p1.board_wf(),
            m.to < 64,
            sp == forker(pos, m),
            is_slider(sp),
            forall|u: u64| u < 64 ==> #[trigger] bit(atk, u) == slider_reach(sp, m.to as int, u as int, p1.all),
            forall|u: u64| u < 64 ==> #[trigger] bit(eocc, u) == held_by(p1.pieces, pos.stm.spec_flip(), u as int),
            fs == any_skewer_at(pos, m),
            forall|u: int| 0 <= u < f ==> !#[trigger] fs(u),
        decreases 64 - f,
    {
        match skewer_candidate(p1, Ghost(pos), m, sp, atk, eocc, f) {
            Some((b, g)) => {
                proof {
                    assert(fs(f as int));
                    lemma_least_is(fs, 64, f as int);
                }
                return Some((f, b, g));
            },
            None => {},
        }
        assert(!fs(f as int));
        f = f + 1;
    }
    proof {
        lemma_least_below(fs, 64);
        match least_below(fs, 64) {
            Some(z) => {
                assert(fs(z));
            },
            None => {},
        }
    }
    None
}

/// The skewer fact of the legal move `m`, if it skewers. `probe` is a copy of
/// `pos` used to test for check; it is left as it was.
fn skewer_of(pos: &Position, probe: &mut Position, m: Move) -> (r: Option<SkewerOpportunity>)
    requires
        pos.wf(),
        perft_ok(*pos, 2),
        legal_move(*pos, m),
        old(probe).same_state(*pos),
    ensures
        final(probe).same_state(*pos),
        r matches Some(f) ==> is_skewer(*pos, m) && skewer_fact(*pos, m, f),
        r is None ==> !is_skewer(*pos, m),
{
    assert(movable(*pos));
    proof {
        crate::movegen::lemma_pseudo_consistent(*pos, m);
    }
    let mp = match pos.piece_at(m.from) {
        Some((_, p)) => p,
        None => {
            return None;
        },
    };
    let sp = match m.flag.promo_piece() {
        Some(p) => p,
        None => mp,
    };
    assert(sp == forker(*pos, m));
    if slider_attacks(sp, m.to, 0).is_none() {
        return None;
    }
    proof {
        crate::movegen::lemma_same_state_moves(*probe, *pos);
        crate::perft::lemma_board_after(*probe, *pos, m);
        assert(perft_ok(after(*pos, m), 1));
    }
    let gives = crate::movegen::gives_check(probe, m);
    let mut moved = pos.duplicate();
    proof {
        crate::movegen::lemma_same_state_moves(moved, *pos);
        crate::movegen::lemma_pseudo_consistent(moved, m);
    }
    let ghost before_make = moved;
    moved.make(m);
    let ghost p1 = moved;
    proof {
        lemma_child(*pos, before_make, m, moved, 1);
        lemma_board_moves(moved, after(*pos, m));
    }
    let atk = match slider_attacks(sp, m.to, moved.all) {
        Some(a) => a,
        None => {
            return None;
        },
    };
    let enemy = pos.stm.flip();
    let eocc = side_occupancy(&moved.pieces, enemy);
    let found = find_skewer(&moved, Ghost(*pos), m, sp, atk, eocc);
    let won_back = can_win_back(&mut moved, m.to);
    proof {
        lemma_gain_same_board(p1, after(*pos, m), m.to as int);
    }
    if won_back {
        return None;
    }
    let (f, b, gain) = match found {
        Some(x) => x,
        None => {
            return None;
        },
    };
    let ghost a = after(*pos, m);
    let fp = match moved.piece_at(f) {
        Some(x) => x.1,
        None => {
            return None;
        },
    };
    let bp = match moved.piece_at(b) {
        Some(x) => x.1,
        None => {
            return None;
        },
    };
    proof {
        assert(attacked_enemy(*pos, m, f as int));
        let bb = least_below(behind(*pos, m, f as int), 64).unwrap();
        lemma_least_below(behind(*pos, m, f as int), 64);
        assert(bb == b as int);
        lemma_reach_aligned(sp, m.to as int, b as int, del(a.all, f as u64));
    }
    let ray = squares_between(m.to, b);
    Some(SkewerOpportunity {
        kind: String::from_str("skewer"),
        validator: String::from_str("skewer_validation"),
        move_uci: m.to_uci(),
        skewerer: piece_ref(pos.stm, sp, m.to),
        front: piece_ref(enemy, fp, f),
        back: piece_ref(enemy, bp, b),
        ray,
        gives_check: gives,
        material_gain: gain,
    })
}

} // verus!

verus! {

/// The facts of the skewers, in the order of the legal moves, with the skewers
/// they describe.
fn skewer_facts(pos: &Position) -> (res: (Vec<SkewerOpportunity>, Ghost<Seq<Move>>))
    requires
        pos.wf(),
        perft_ok(*pos, 2),
    ensures
        res.0@.len() == res.1@.len(),
        forall|k: int| 0 <= k < res.1@.len() ==> #[trigger] is_skewer(*pos, res.1@[k]) && skewer_fact(*pos, res.1@[k], res.0@[k]),
        crate::movegen::lists_exactly(res.1@, skewer_pred(*pos)),
{
    assert(movable(*pos));
    let mut probe = pos.duplicate();
    proof {
        crate::movegen::lemma_same_state_moves(probe, *pos);
    }
    let legal = generate_legal(&mut probe);
    let mut facts: Vec<SkewerOpportunity> = Vec::new();
    let ghost mut ms: Seq<Move> = Seq::empty();
    let ghost mut idx: Seq<int> = Seq::empty();
    let mut i: usize = 0;
    while i < legal.len()
        invariant
            i <= legal@.len(),
            pos.wf(),
            perft_ok(*pos, 2),
            movable(*pos),
            probe.same_state(*pos),
            crate::movegen::lists_exactly(legal@, |m: Move| legal_move(*pos, m)),
            idx.len() == ms.len(),
            facts@.len() == ms.len(),
            forall|k: int| 0 <= k < idx.len() ==> 0 <= #[trigger] idx[k] < i && legal@[idx[k]] == ms[k],
            forall|k: int, l: int| 0 <= k < l < idx.len() ==> #[trigger] idx[k] < #[trigger] idx[l],
            forall|k: int| 0 <= k < ms.len() ==> #[trigger] is_skewer(*pos, ms[k]) && skewer_fact(*pos, ms[k], facts@[k]),
            forall|j: int| 0 <= j < i && #[trigger] is_skewer(*pos, legal@[j]) ==> exists|k: int| 0 <= k < idx.len() && idx[k] == j,
        decreases legal@.len() - i,
    {
        let m = legal[i];
        assert(legal@.contains(m));
        assert(legal_move(*pos, m));
        let ghost old_idx = idx;
        let ghost old_ms = ms;
        let ghost before = facts@;
        match skewer_of(pos, &mut probe, m) {
            Some(f) => {
                facts.push(f);
                proof {
                    ms = ms.push(m);
                    idx = idx.push(i as int);
                }
            },
            None => {},
        }
        proof {
            assert forall|k: int| 0 <= k < ms.len() implies #[trigger] is_skewer(*pos, ms[k]) && skewer_fact(*pos, ms[k], facts@[k]) by {
                if k < old_ms.len() {
                    assert(ms[k] == old_ms[k] && facts@[k] == before[k]);
                }
            }
            assert forall|j: int| 0 <= j < i + 1 && #[trigger] is_skewer(*pos, legal@[j]) implies exists|k: int|
                0 <= k < idx.len() && idx[k] == j by {
                if j < i {
                    let k = choose|k: int| 0 <= k < old_idx.len() && old_idx[k] == j;
                    assert(idx[k] == j);
                } else {
                    assert(idx.len() > old_idx.len());
                    assert(idx[idx.len() - 1] == j);
                }
            }
        }
        i = i + 1;
    }
    proof {
        assert forall|a: int, b: int| 0 <= a < ms.len() && 0 <= b < ms.len() && a != b implies ms[a] != ms[b] by {
            if a < b {
                assert(idx[a] < idx[b]);
            } else {
                assert(idx[b] < idx[a]);
            }
        }
        assert forall|m: Move| #![trigger ms.contains(m)] #![trigger skewer_pred(*pos)(m)] ms.contains(m) <==> skewer_pred(*pos)(m) by {
            if ms.contains(m) {
                let k = choose|k: int| 0 <= k < ms.len() && ms[k] == m;
                assert(is_skewer(*pos, ms[k]));
            }
            if is_skewer(*pos, m) {
                assert(legal@.contains(m));
                let j = choose|j: int| 0 <= j < legal@.len() && legal@[j] == m;
                assert(is_skewer(*pos, legal@[j]));
                let k = choose|k: int| 0 <= k < idx.len() && idx[k] == j;
                assert(ms[k] == m);
            }
        }
    }
    (facts, Ghost(ms))
}

/// Sorting the facts of the skewers yields one per skewering move, by move.
#[verifier::spinoff_prover]
proof fn lemma_skewer_order(pos: Position, ms: Seq<Move>, unsorted: Seq<SkewerOpportunity>)
    requires
        unsorted.len() == ms.len(),
        forall|k: int| 0 <= k < ms.len() ==> #[trigger] is_skewer(pos, ms[k]) && skewer_fact(pos, ms[k], unsorted[k]),
        crate::movegen::lists_exactly(ms, skewer_pred(pos)),
    ensures
        skewers_ok(pos, sorted_by_key(unsorted)),
{
    lemma_sorted_by_key(unsorted);
    let p = skewer_pred(pos);
    assert(crate::movegen::lists_exactly(crate::perft::listing_of(p), p));
    crate::movegen::lemma_listing_len(ms, crate::perft::listing_of(p), p);
    assert forall|i: int| 0 <= i < sorted_by_key(unsorted).len() implies #[trigger] fact_of_a_skewer(pos, sorted_by_key(unsorted)[i]) by {
        assert(sorted_by_key(unsorted).contains(sorted_by_key(unsorted)[i]));
        assert(unsorted.contains(sorted_by_key(unsorted)[i]));
        let l = choose|l: int| 0 <= l < unsorted.len() && unsorted[l] == sorted_by_key(unsorted)[i];
        assert(is_skewer(pos, ms[l]) && skewer_fact(pos, ms[l], unsorted[l]));
    }
    assert forall|m: Move| #[trigger] is_skewer(pos, m) implies has_skewer_fact(pos, m, sorted_by_key(unsorted)) by {
        assert(p(m));
        assert(ms.contains(m));
        let l = choose|l: int| 0 <= l < ms.len() && ms[l] == m;
        assert(is_skewer(pos, ms[l]) && skewer_fact(pos, ms[l], unsorted[l]));
        assert(unsorted.contains(unsorted[l]));
        assert(sorted_by_key(unsorted).contains(unsorted[l]));
        let i = choose|i: int| 0 <= i < sorted_by_key(unsorted).len() && sorted_by_key(unsorted)[i] == unsorted[l];
        assert(skewer_fact(pos, m, sorted_by_key(unsorted)[i]));
    }
}

/// The skewers available to the side to move, ascending by move.
pub fn skewer_opportunities(pos: &Position) -> (c: FactCollection<SkewerOpportunity>)
    requires
        pos.wf(),
        perft_ok(*pos, 2),
    ensures
        skewers_result(*pos, c),
{
    let (facts, Ghost(ms)) = skewer_facts(pos);
    proof {
        lemma_skewer_order(*pos, ms, facts@);
    }
    FactCollection::computed(sort_by_key(facts))
}


/// The skewers that `side` could make: refused for the side not to move while
/// the side to move is in check, else those of the probe with `side` to move.
pub fn skewer_opportunities_for(pos: &Position, side: Color) -> (c: FactCollection<SkewerOpportunity>)
    requires
        pos.wf(),
        pos.stm == side ==> perft_ok(*pos, 2),
        pos.stm != side ==> pos.pieces[pos.stm.spec_index()][5] != 0 && (!stm_king_attacked_by(*pos, side) ==> forall|p: Position| #[trigger] crate::facts::position::handed_over(*pos, side, p) ==> perft_ok(p, 2)),
    ensures
        pos.stm != side && stm_king_attacked_by(*pos, side) ==> unavailable_because(c, "opposite_side_probe_while_in_check"@),
        !(pos.stm != side && stm_king_attacked_by(*pos, side)) ==> exists|p: Position| #[trigger] analysis_probe(*pos, side, p) && skewers_result(p, c),
{
    match position_for_analysis_side(pos, side) {
        Ok(probe) => {
            proof {
                if pos.stm == side {
                    crate::perft::lemma_board_perft(probe, *pos, 2);
                }
            }
            let c = skewer_opportunities(&probe);
            assert(analysis_probe(*pos, side, probe));
            c
        },
        Err(reason) => FactCollection::unavailable(reason),
    }
}

} // verus!
