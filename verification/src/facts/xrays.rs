//! X-ray attacks: a slider move that attacks a defended enemy piece with a
//! second enemy piece, worth at least as much and not the king, behind it on
//! the same line. The front piece is not forced to move, but counting through
//! it wins material: the full exchange on its square, with the slider
//! recapturing down the cleared line, comes out ahead, where before the move no
//! capture of it did.
use vstd::prelude::*;
use crate::facts::types::unavailable_because;
use crate::bits::{bit, del};
use crate::facts::captures::{can_win_back, capturable_for_gain, checks, lemma_gain_same_board, rank_value};
use crate::facts::forks::{forker, undefended};
use crate::facts::lines::{
    between_squares, held_by, is_slider, least_below, lemma_least_below, lemma_lowest_is_least, lemma_reach_aligned, names_match,
    side_occupancy, slider_attacks, slider_reach, squares_between,
};
use crate::facts::piece_safety::{piece_ref, piece_ref_spec};
use crate::facts::pins::{attacked_enemy, behind};
use crate::facts::position::{analysis_probe, ep_short_of_promotion, position_for_analysis_side, stm_king_attacked_by};
use crate::facts::types::{FactCollection, XRayOpportunity};
use crate::movegen::{generate_legal, legal_move, movable};
use crate::order::{key_sorted, lemma_sorted_by_key, sort_by_key, sorted_by_key};
use crate::perft::{after, lemma_board_moves, lemma_child, perft_ok};
use crate::position::{spec_piece_at, Position};
use crate::see::see_spec;
use crate::{uci_text, Color, Move, Piece};

verus! {

/// `a` with `side` to move and no en-passant square.
pub open spec fn handed(a: Position, side: Color) -> Position {
    Position {
        pieces: a.pieces,
        occ: a.occ,
        all: a.all,
        stm: side,
        castling: a.castling,
        ep: None,
        halfmove: a.halfmove,
        fullmove: a.fullmove,
        hash: a.hash,
        history: a.history,
    }
}

/// The piece on `s` has a legal move onto `t` in `p`.
pub open spec fn can_take(p: Position, s: int, t: int) -> bool {
    exists|m2: Move| #[trigger] legal_move(p, m2) && m2.from as int == s && m2.to as int == t
}

/// The x-ray through the attacked enemy piece on `f`: the back piece's square
/// and the material that the exchange on `f` wins.
pub open spec fn xray_at(pos: Position, m: Move, f: int) -> Option<(int, int)> {
    let a = after(pos, m);
    let e = pos.stm.spec_flip();
    let h = handed(a, pos.stm);
    if attacked_enemy(pos, m, f) {
        match spec_piece_at(a, f as u64) {
            Some(fp) => if fp.1 == Piece::King || undefended(a, e, f) {
                None
            } else {
                match least_below(behind(pos, m, f), 64) {
                    Some(b) => match spec_piece_at(a, b as u64) {
                        Some(bp) => if bp.1 == Piece::King || rank_value(fp.1) > rank_value(bp.1) {
                            None
                        } else if capturable_for_gain(pos, f) || see_spec(h, m.to, f as u8) <= 0 || !can_take(h, m.to as int, f) {
                            None
                        } else {
                            Some((b, see_spec(h, m.to, f as u8)))
                        },
                        None => None,
                    },
                    None => None,
                }
            },
            None => None,
        }
    } else {
        None
    }
}

/// The first front below `n` with the highest gain.
pub open spec fn best_front(pos: Position, m: Move, n: nat) -> Option<int>
    decreases n,
{
    if n == 0 {
        None
    } else {
        let prev = best_front(pos, m, (n - 1) as nat);
        match xray_at(pos, m, n - 1) {
            Some(x) => match prev {
                Some(p) => if xray_at(pos, m, p).unwrap().1 >= x.1 {
                    prev
                } else {
                    Some(n - 1)
                },
                None => Some(n - 1),
            },
            None => prev,
        }
    }
}

/// `m` is a legal slider move that x-rays, after which the slider cannot be
/// won back and the side to move is not in check.
pub open spec fn is_xray(pos: Position, m: Move) -> bool {
    let a = after(pos, m);
    &&& legal_move(pos, m)
    &&& spec_piece_at(pos, m.from as u64) is Some
    &&& is_slider(forker(pos, m))
    &&& !capturable_for_gain(a, m.to as int)
    &&& !stm_king_attacked_by(a, pos.stm)
    &&& best_front(pos, m, 64) is Some
}

/// The fact of the x-ray made by `m` (through its best front).
pub open spec fn xray_fact(pos: Position, m: Move, x: XRayOpportunity) -> bool {
    let a = after(pos, m);
    let f = best_front(pos, m, 64).unwrap();
    let b = xray_at(pos, m, f).unwrap().0;
    let e = pos.stm.spec_flip();
    &&& x.kind@ == "xray_attack"@
    &&& x.validator@ == "xray_attack_validation"@
    &&& x.move_uci@ == uci_text(m)
    &&& piece_ref_spec(pos.stm, forker(pos, m), m.to, x.xrayer)
    &&& piece_ref_spec(e, spec_piece_at(a, f as u64).unwrap().1, f as u8, x.front)
    &&& piece_ref_spec(e, spec_piece_at(a, b as u64).unwrap().1, b as u8, x.back)
    &&& names_match(x.ray@, between_squares(m.to as int, b))
    &&& x.gives_check == checks(pos, m)
    &&& x.material_gain == xray_at(pos, m, f).unwrap().1
}

pub open spec fn xray_pred(pos: Position) -> spec_fn(Move) -> bool {
    |m: Move| is_xray(pos, m)
}

pub open spec fn fact_of_a_xray(pos: Position, x: XRayOpportunity) -> bool {
    exists|m: Move| #[trigger] is_xray(pos, m) && xray_fact(pos, m, x)
}

pub open spec fn has_xray_fact(pos: Position, m: Move, out: Seq<XRayOpportunity>) -> bool {
    exists|i: int| 0 <= i < out.len() && xray_fact(pos, m, #[trigger] out[i])
}

/// One fact per x-raying move of the side to move, ascending by move.
pub open spec fn xrays_ok(pos: Position, out: Seq<XRayOpportunity>) -> bool {
    &&& out.len() == crate::perft::listing_of(xray_pred(pos)).len()
    &&& forall|i: int| 0 <= i < out.len() ==> #[trigger] fact_of_a_xray(pos, out[i])
    &&& forall|m: Move| #[trigger] is_xray(pos, m) ==> has_xray_fact(pos, m, out)
    &&& key_sorted(out)
}

pub open spec fn xrays_result(pos: Position, c: FactCollection<XRayOpportunity>) -> bool {
    match c {
        FactCollection::Computed { items } => xrays_ok(pos, items@),
        _ => false,
    }
}

} // verus!

verus! {

/// The x-ray through the enemy piece on `f`, read from `p1`, the position
/// after `m`; `pos_probe` is a copy of `pos`, `h` the position after `m` with
/// the mover to move and `legal_h` its legal moves.
fn xray_candidate(
    p1: &Position,
    pos_probe: &mut Position,
    h: &Position,
    legal_h: &Vec<Move>,
    Ghost(pos): Ghost<Position>,
    m: Move,
    sp: Piece,
    atk: u64,
    eocc: u64,
    f: u8,
) -> (r: Option<(u8, i32)>)
    requires
        crate::perft::same_board(*p1, after(pos, m)),
        p1.board_wf(),
        old(pos_probe).same_state(pos),
        movable(pos),
        crate::perft::same_board(*h, handed(after(pos, m), pos.stm)),
        h.board_wf(),
        crate::movegen::lists_exactly(legal_h@, |m2: Move| legal_move(*h, m2)),
        m.to < 64,
        f < 64,
        sp == forker(pos, m),
        is_slider(sp),
        forall|u: u64| u < 64 ==> #[trigger] bit(atk, u) == slider_reach(sp, m.to as int, u as int, p1.all),
        forall|u: u64| u < 64 ==> #[trigger] bit(eocc, u) == held_by(p1.pieces, pos.stm.spec_flip(), u as int),
    ensures
        final(pos_probe).same_state(pos),
        match r {
            Some((b, g)) => xray_at(pos, m, f as int) == Some((b as int, g as int)) && b < 64,
            None => xray_at(pos, m, f as int) is None,
        },
{
    let ghost a = after(pos, m);
    if atk & (1u64 << (f as u64)) == 0 || eocc & (1u64 << (f as u64)) == 0 {
        assert(!bit(atk, f as u64) || !bit(eocc, f as u64));
        return None;
    }
    assert(bit(atk, f as u64) && bit(eocc, f as u64));
    let enemy = if p1.stm == Color::White { Color::White } else { Color::Black };
    assert(enemy == pos.stm.spec_flip());
    proof {
        crate::facts::lines::lemma_held_piece(a, enemy, f as int);
    }
    let fp = match p1.piece_at(f) {
        Some(x) => x.1,
        None => {
            return None;
        },
    };
    if fp == Piece::King {
        return None;
    }
    let und = crate::facts::discovery::no_defender(p1, enemy, f);
    proof {
        crate::facts::discovery::lemma_undefended_same_board(*p1, a, enemy, f as int);
    }
    if und {
        return None;
    }
    let occ2 = p1.all & !(1u64 << (f as u64));
    assert(occ2 == del(p1.all, f as u64));
    let atk2 = match slider_attacks(sp, m.to, occ2) {
        Some(x) => x,
        None => {
            return None;
        },
    };
    let bb = atk2 & !atk & eocc;
    let ghost fb = behind(pos, m, f as int);
    proof {
        assert forall|u: u64| u < 64 implies #[trigger] bit(bb, u) == fb(u as int) by {
            crate::bits::lemma_bit_and(atk2 & !atk, eocc, u);
            crate::bits::lemma_bit_and(atk2, !atk, u);
            crate::bits::lemma_bit_not(atk, u);
        }
    }
    if bb == 0 {
        proof {
            crate::bits::lemma_zero_no_bit(bb);
            lemma_least_below(fb, 64);
            match least_below(fb, 64) {
                Some(z) => {
                    assert(bit(bb, z as u64));
                },
                None => {},
            }
        }
        return None;
    }
    proof {
        lemma_lowest_is_least(fb, bb);
        crate::bits::lemma_trailing_zeros_bit(bb);
    }
    let b = bb.trailing_zeros() as u8;
    let bp = match p1.piece_at(b) {
        Some(x) => x.1,
        None => {
            return None;
        },
    };
    let fv = crate::facts::forks::value_of_index(fp.index());
    let bv = crate::facts::forks::value_of_index(bp.index());
    if bp == Piece::King || fv > bv {
        return None;
    }
    let ghost pp0 = *pos_probe;
    let cap = can_win_back(pos_probe, f);
    proof {
        lemma_gain_same_board(pp0, pos, f as int);
    }
    if cap {
        return None;
    }
    let g = crate::see::see(h, m.to, f);
    assert(see_spec(*h, m.to, f) == see_spec(handed(a, pos.stm), m.to, f));
    if g <= 0 {
        return None;
    }
    proof {
        lemma_board_moves(*h, handed(a, pos.stm));
    }
    let mut found = false;
    let mut i: usize = 0;
    while i < legal_h.len()
        invariant
            i <= legal_h@.len(),
            crate::movegen::lists_exactly(legal_h@, |m2: Move| legal_move(*h, m2)),
            found == exists|j: int| 0 <= j < i && (#[trigger] legal_h@[j]).from == m.to && legal_h@[j].to == f,
        decreases legal_h@.len() - i,
    {
        let m2 = legal_h[i];
        if m2.from == m.to && m2.to == f {
            found = true;
        }
        i = i + 1;
    }
    proof {
        if found {
            let j = choose|j: int| 0 <= j < legal_h@.len() && (#[trigger] legal_h@[j]).from == m.to && legal_h@[j].to == f;
            assert(legal_h@.contains(legal_h@[j]));
            assert(legal_move(*h, legal_h@[j]));
            assert(legal_move(handed(a, pos.stm), legal_h@[j]));
        } else if can_take(handed(a, pos.stm), m.to as int, f as int) {
            let m2 = choose|m2: Move| #[trigger] legal_move(handed(a, pos.stm), m2) && m2.from as int == m.to as int && m2.to as int == f as int;
            assert(legal_move(*h, m2));
            assert(legal_h@.contains(m2));
            let j = choose|j: int| 0 <= j < legal_h@.len() && legal_h@[j] == m2;
            assert(legal_h@[j].from == m.to && legal_h@[j].to == f);
        }
    }
    if !found {
        return None;
    }
    Some((b, g))
}

} // verus!

verus! {

/// The best x-ray made by `m`: its front, back and gain.
fn find_xray(
    p1: &Position,
    pos_probe: &mut Position,
    h: &Position,
    legal_h: &Vec<Move>,
    Ghost(pos): Ghost<Position>,
    m: Move,
    sp: Piece,
    atk: u64,
    eocc: u64,
) -> (r: Option<(u8, u8, i32)>)
    requires
        crate::perft::same_board(*p1, after(pos, m)),
        p1.board_wf(),
        old(pos_probe).same_state(pos),
        movable(pos),
        crate::perft::same_board(*h, handed(after(pos, m), pos.stm)),
        h.board_wf(),
        crate::movegen::lists_exactly(legal_h@, |m2: Move| legal_move(*h, m2)),
        m.to < 64,
        sp == forker(pos, m),
        is_slider(sp),
        forall|u: u64| u < 64 ==> #[trigger] bit(atk, u) == slider_reach(sp, m.to as int, u as int, p1.all),
        forall|u: u64| u < 64 ==> #[trigger] bit(eocc, u) == held_by(p1.pieces, pos.stm.spec_flip(), u as int),
    ensures
        final(pos_probe).same_state(pos),
        match r {
            Some((f, b, g)) => best_front(pos, m, 64) == Some(f as int) && xray_at(pos, m, f as int) == Some((b as int, g as int))
                && b < 64 && f < 64,
            None => best_front(pos, m, 64) is None,
        },
{
    let mut best: Option<(u8, u8, i32)> = None;
    let mut f: u8 = 0;
    while f < 64
        invariant
            f <= 64,
            crate::perft::same_board(*p1, after(pos, m)),
            p1.board_wf(),
            pos_probe.same_state(pos),
            movable(pos),
            crate::perft::same_board(*h, handed(after(pos, m), pos.stm)),
            h.board_wf(),
            crate::movegen::lists_exactly(legal_h@, |m2: Move| legal_move(*h, m2)),
            m.to < 64,
            sp == forker(pos, m),
            is_slider(sp),
            forall|u: u64| u < 64 ==> #[trigger] bit(atk, u) == slider_reach(sp, m.to as int, u as int, p1.all),
            forall|u: u64| u < 64 ==> #[trigger] bit(eocc, u) == held_by(p1.pieces, pos.stm.spec_flip(), u as int),
            match best {
                Some((bf, bb, bg)) => best_front(pos, m, f as nat) == Some(bf as int) && xray_at(pos, m, bf as int) == Some(
                    (bb as int, bg as int),
                ) && bb < 64 && bf < 64,
                None => best_front(pos, m, f as nat) is None,
            },
        decreases 64 - f,
    {
        match xray_candidate(p1, pos_probe, h, legal_h, Ghost(pos), m, sp, atk, eocc, f) {
            Some((b, g)) => {
                let replace = match best {
                    Some((_, _, bg)) => bg < g,
                    None => true,
                };
                if replace {
                    best = Some((f, b, g));
                }
            },
            None => {},
        }
        f = f + 1;
    }
    best
}

/// The x-ray fact of the legal move `m`, if it x-rays. `probe` is a copy of
/// `pos` used to test for check and for captures; it is left as it was.
fn xray_of(pos: &Position, probe: &mut Position, m: Move) -> (r: Option<XRayOpportunity>)
    requires
        pos.wf(),
        perft_ok(*pos, 2),
        ep_short_of_promotion(*pos),
        legal_move(*pos, m),
        old(probe).same_state(*pos),
    ensures
        final(probe).same_state(*pos),
        r matches Some(f) ==> is_xray(*pos, m) && xray_fact(*pos, m, f),
        r is None ==> !is_xray(*pos, m),
{
    assert(movable(*pos));
    proof {
        crate::movegen::lemma_pseudo_consistent(*pos, m);
    }
    let mp = match pos.piece_at(m.from) {
        Some((_, p)) => p,
        None => {
            return None;
        },
    };
    let sp = match m.flag.promo_piece() {
        Some(p) => p,
        None => mp,
    };
    assert(sp == forker(*pos, m));
    if slider_attacks(sp, m.to, 0).is_none() {
        return None;
    }
    proof {
        crate::movegen::lemma_same_state_moves(*probe, *pos);
        crate::perft::lemma_board_after(*probe, *pos, m);
        assert(perft_ok(after(*pos, m), 1));
    }
    let gives = crate::movegen::gives_check(probe, m);
    let mut moved = pos.duplicate();
    proof {
        crate::movegen::lemma_same_state_moves(moved, *pos);
        crate::movegen::lemma_pseudo_consistent(moved, m);
    }
    let ghost before_make = moved;
    moved.make(m);
    let ghost p1 = moved;
    let ghost a = after(*pos, m);
    proof {
        lemma_child(*pos, before_make, m, moved, 1);
        lemma_board_moves(moved, after(*pos, m));
    }
    let won_back = can_win_back(&mut moved, m.to);
    proof {
        lemma_gain_same_board(p1, after(*pos, m), m.to as int);
    }
    if won_back {
        return None;
    }
    let us = pos.stm;
    let mut h = match position_for_analysis_side(&moved, us) {
        Ok(p) => p,
        Err(_) => {
            return None;
        },
    };
    proof {
        crate::facts::position::lemma_after_analysable(*pos, m, moved);
        crate::facts::position::lemma_probe_movable(moved, us, h);
    }
    let ghost h0 = h;
    let legal_h = generate_legal(&mut h);
    proof {
        crate::movegen::lemma_same_state_moves(h, h0);
    }
    let atk = match slider_attacks(sp, m.to, moved.all) {
        Some(x) => x,
        None => {
            return None;
        },
    };
    let enemy = us.flip();
    let eocc = side_occupancy(&moved.pieces, enemy);
    let mut pos_probe = pos.duplicate();
    let found = find_xray(&moved, &mut pos_probe, &h, &legal_h, Ghost(*pos), m, sp, atk, eocc);
    let (f, b, gain) = match found {
        Some(x) => x,
        None => {
            return None;
        },
    };
    let fp = match moved.piece_at(f) {
        Some(x) => x.1,
        None => {
            return None;
        },
    };
    let bp = match moved.piece_at(b) {
        Some(x) => x.1,
        None => {
            return None;
        },
    };
    proof {
        assert(attacked_enemy(*pos, m, f as int));
        let bb = least_below(behind(*pos, m, f as int), 64).unwrap();
        lemma_least_below(behind(*pos, m, f as int), 64);
        assert(bb == b as int);
        lemma_reach_aligned(sp, m.to as int, b as int, del(a.all, f as u64));
    }
    let ray = squares_between(m.to, b);
    Some(XRayOpportunity {
        kind: String::from_str("xray_attack"),
        validator: String::from_str("xray_attack_validation"),
        move_uci: m.to_uci(),
        xrayer: piece_ref(us, sp, m.to),
        front: piece_ref(enemy, fp, f),
        back: piece_ref(enemy, bp, b),
        ray,
        gives_check: gives,
        material_gain: gain,
    })
}

} // verus!

verus! {

/// The facts of the x-rays, in the order of the legal moves, with the x-rays
/// they describe.
fn xray_facts(pos: &Position) -> (res: (Vec<XRayOpportunity>, Ghost<Seq<Move>>))
    requires
        pos.wf(),
        perft_ok(*pos, 2),
        ep_short_of_promotion(*pos),
    ensures
        res.0@.len() == res.1@.len(),
        forall|k: int| 0 <= k < res.1@.len() ==> #[trigger] is_xray(*pos, res.1@[k]) && xray_fact(*pos, res.1@[k], res.0@[k]),
        crate::movegen::lists_exactly(res.1@, xray_pred(*pos)),
{
    assert(movable(*pos));
    let mut probe = pos.duplicate();
    proof {
        crate::movegen::lemma_same_state_moves(probe, *pos);
    }
    let legal = generate_legal(&mut probe);
    let mut facts: Vec<XRayOpportunity> = Vec::new();
    let ghost mut ms: Seq<Move> = Seq::empty();
    let ghost mut idx: Seq<int> = Seq::empty();
    let mut i: usize = 0;
    while i < legal.len()
        invariant
            i <= legal@.len(),
            pos.wf(),
            perft_ok(*pos, 2),
            ep_short_of_promotion(*pos),
            movable(*pos),
            probe.same_state(*pos),
            crate::movegen::lists_exactly(legal@, |m: Move| legal_move(*pos, m)),
            idx.len() == ms.len(),
            facts@.len() == ms.len(),
            forall|k: int| 0 <= k < idx.len() ==> 0 <= #[trigger] idx[k] < i && legal@[idx[k]] == ms[k],
            forall|k: int, l: int| 0 <= k < l < idx.len() ==> #[trigger] idx[k] < #[trigger] idx[l],
            forall|k: int| 0 <= k < ms.len() ==> #[trigger] is_xray(*pos, ms[k]) && xray_fact(*pos, ms[k], facts@[k]),
            forall|j: int| 0 <= j < i && #[trigger] is_xray(*pos, legal@[j]) ==> exists|k: int| 0 <= k < idx.len() && idx[k] == j,
        decreases legal@.len() - i,
    {
        let m = legal[i];
        assert(legal@.contains(m));
        assert(legal_move(*pos, m));
        let ghost old_idx = idx;
        let ghost old_ms = ms;
        let ghost before = facts@;
        match xray_of(pos, &mut probe, m) {
            Some(f) => {
                facts.push(f);
                proof {
                    ms = ms.push(m);
                    idx = idx.push(i as int);
                }
            },
            None => {},
        }
        proof {
            assert forall|k: int| 0 <= k < ms.len() implies #[trigger] is_xray(*pos, ms[k]) && xray_fact(*pos, ms[k], facts@[k]) by {
                if k < old_ms.len() {
                    assert(ms[k] == old_ms[k] && facts@[k] == before[k]);
                }
            }
            assert forall|j: int| 0 <= j < i + 1 && #[trigger] is_xray(*pos, legal@[j]) implies exists|k: int|
                0 <= k < idx.len() && idx[k] == j by {
                if j < i {
                    let k = choose|k: int| 0 <= k < old_idx.len() && old_idx[k] == j;
                    assert(idx[k] == j);
                } else {
                    assert(idx.len() > old_idx.len());
                    assert(idx[idx.len() - 1] == j);
                }
            }
        }
        i = i + 1;
    }
    proof {
        assert forall|a: int, b: int| 0 <= a < ms.len() && 0 <= b < ms.len() && a != b implies ms[a] != ms[b] by {
            if a < b {
                assert(idx[a] < idx[b]);
            } else {
                assert(idx[b] < idx[a]);
            }
        }
        assert forall|m: Move| #![trigger ms.contains(m)] #![trigger xray_pred(*pos)(m)] ms.contains(m) <==> xray_pred(*pos)(m) by {
            if ms.contains(m) {
                let k = choose|k: int| 0 <= k < ms.len() && ms[k] == m;
                assert(is_xray(*pos, ms[k]));
            }
            if is_xray(*pos, m) {
                assert(legal@.contains(m));
                let j = choose|j: int| 0 <= j < legal@.len() && legal@[j] == m;
                assert(is_xray(*pos, legal@[j]));
                let k = choose|k: int| 0 <= k < idx.len() && idx[k] == j;
                assert(ms[k] == m);
            }
        }
    }
    (facts, Ghost(ms))
}

/// Sorting the facts of the x-rays yields one per x-raying move, by move.
#[verifier::spinoff_prover]
proof fn lemma_xray_order(pos: Position, ms: Seq<Move>, unsorted: Seq<XRayOpportunity>)
    requires
        unsorted.len() == ms.len(),
        forall|k: int| 0 <= k < ms.len() ==> #[trigger] is_xray(pos, ms[k]) && xray_fact(pos, ms[k], unsorted[k]),
        crate::movegen::lists_exactly(ms, xray_pred(pos)),
    ensures
        xrays_ok(pos, sorted_by_key(unsorted)),
{
    lemma_sorted_by_key(unsorted);
    let p = xray_pred(pos);
    assert(crate::movegen::lists_exactly(crate::perft::listing_of(p), p));
    crate::movegen::lemma_listing_len(ms, crate::perft::listing_of(p), p);
    assert forall|i: int| 0 <= i < sorted_by_key(unsorted).len() implies #[trigger] fact_of_a_xray(pos, sorted_by_key(unsorted)[i]) by {
        assert(sorted_by_key(unsorted).contains(sorted_by_key(unsorted)[i]));
        assert(unsorted.contains(sorted_by_key(unsorted)[i]));
        let l = choose|l: int| 0 <= l < unsorted.len() && unsorted[l] == sorted_by_key(unsorted)[i];
        assert(is_xray(pos, ms[l]) && xray_fact(pos, ms[l], unsorted[l]));
    }
    assert forall|m: Move| #[trigger] is_xray(pos, m) implies has_xray_fact(pos, m, sorted_by_key(unsorted)) by {
        assert(p(m));
        assert(ms.contains(m));
        let l = choose|l: int| 0 <= l < ms.len() && ms[l] == m;
        assert(is_xray(pos, ms[l]) && xray_fact(pos, ms[l], unsorted[l]));
        assert(unsorted.contains(unsorted[l]));
        assert(sorted_by_key(unsorted).contains(unsorted[l]));
        let i = choose|i: int| 0 <= i < sorted_by_key(unsorted).len() && sorted_by_key(unsorted)[i] == unsorted[l];
        assert(xray_fact(pos, m, sorted_by_key(unsorted)[i]));
    }
}

/// The x-ray attacks available to the side to move, ascending by move.
pub fn xray_attack_opportunities(pos: &Position) -> (c: FactCollection<XRayOpportunity>)
    requires
        pos.wf(),
        perft_ok(*pos, 2),
        ep_short_of_promotion(*pos),
    ensures
        xrays_result(*pos, c),
{
    let (facts, Ghost(ms)) = xray_facts(pos);
    proof {
        lemma_xray_order(*pos, ms, facts@);
    }
    FactCollection::computed(sort_by_key(facts))
}


/// The x-ray attacks that `side` could make: refused for the side not to move while
/// the side to move is in check, else those of the probe with `side` to move.
pub fn xray_attack_opportunities_for(pos: &Position, side: Color) -> (c: FactCollection<XRayOpportunity>)
    requires
        pos.wf(),
        pos.stm == side ==> perft_ok(*pos, 2) && ep_short_of_promotion(*pos),
        pos.stm != side ==> pos.pieces[pos.stm.spec_index()][5] != 0 && (!stm_king_attacked_by(*pos, side) ==> forall|p: Position| #[trigger] crate::facts::position::handed_over(*pos, side, p) ==> perft_ok(p, 2)),
    ensures
        pos.stm != side && stm_king_attacked_by(*pos, side) ==> unavailable_because(c, "opposite_side_probe_while_in_check"@),
        !(pos.stm != side && stm_king_attacked_by(*pos, side)) ==> exists|p: Position| #[trigger] analysis_probe(*pos, side, p) && xrays_result(p, c),
{
    match position_for_analysis_side(pos, side) {
        Ok(probe) => {
            proof {
                if pos.stm == side {
                    crate::perft::lemma_board_perft(probe, *pos, 2);
                }
            }
            let c = xray_attack_opportunities(&probe);
            assert(analysis_probe(*pos, side, probe));
            c
        },
        Err(reason) => FactCollection::unavailable(reason),
    }
}

} // verus!
