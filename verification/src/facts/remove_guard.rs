//! Removing the guard: a capture of an enemy piece that defended another enemy
//! piece, which could not be won before the capture and can be won by
//! exchange once its defender is gone.
use vstd::prelude::*;
use crate::facts::types::unavailable_because;
use crate::attacks::attacker_on;
use crate::bits::bit;
use crate::facts::captures::{can_win_back, capturable_for_gain, checks, lemma_gain_same_board};
use crate::facts::forks::forker;
use crate::facts::piece_safety::{piece_ref, piece_ref_spec};
use crate::facts::position::{analysis_probe, ep_short_of_promotion, position_for_analysis_side, stm_king_attacked_by};
use crate::facts::types::{FactCollection, RemoveGuardOpportunity};
use crate::facts::xrays::handed;
use crate::movegen::{generate_legal, legal_move, movable};
use crate::order::{key_sorted, lemma_sorted_by_key, sort_by_key, sorted_by_key};
use crate::perft::{after, lemma_board_moves, lemma_child, perft_ok};
use crate::position::{behind, spec_piece_at, Position};
use crate::see::see_spec;
use crate::{piece_of_index, uci_text, Color, Move, MoveFlag, Piece};

verus! {

/// `m` is a legal capture onto `sq` in `p`.
pub open spec fn capture_onto(p: Position, sq: int, m: Move) -> bool {
    legal_move(p, m) && m.to as int == sq && m.flag.spec_is_capture()
}

/// `v` is the largest exchange value among the legal captures onto `sq`.
pub open spec fn top_capture_see(p: Position, sq: int, v: int) -> bool {
    &&& exists|m: Move| #[trigger] capture_onto(p, sq, m) && see_spec(p, m.from, m.to) == v
    &&& forall|m: Move| #[trigger] capture_onto(p, sq, m) ==> see_spec(p, m.from, m.to) <= v
}

/// The best exchange value of a legal capture onto `sq` for the side to move
/// in `p`, or 0 when none wins material.
pub open spec fn best_see(p: Position, sq: int) -> int {
    if exists|m: Move| #[trigger] capture_onto(p, sq, m) && see_spec(p, m.from, m.to) > 0 {
        choose|v: int| top_capture_see(p, sq, v)
    } else {
        0
    }
}

/// The square of the piece that `m` captures.
pub open spec fn victim_of(pos: Position, m: Move) -> int {
    if m.flag == MoveFlag::EnPassant {
        behind(pos.stm, m.to)
    } else {
        m.to as int
    }
}

/// Candidate `n` (0..320): an enemy pawn, knight, bishop, rook or queen, by
/// type and then square; the gain of winning it once the defender that `m`
/// captures is gone.
pub open spec fn guard_target_at(pos: Position, m: Move, n: int) -> Option<int> {
    let a = after(pos, m);
    let e = pos.stm.spec_flip();
    let p = n / 64;
    let sq = n % 64;
    let d = victim_of(pos, m);
    let h = handed(a, pos.stm);
    if p != 5 && bit(a.pieces[e.spec_index()][p], sq as u64) && sq != d && attacker_on(pos.pieces, e, d as u64, sq, pos.all)
        && !capturable_for_gain(pos, sq) && best_see(h, sq) > 0 {
        Some(best_see(h, sq))
    } else {
        None
    }
}

/// The first candidate below `n` with the highest gain.
pub open spec fn best_target(pos: Position, m: Move, n: nat) -> Option<int>
    decreases n,
{
    if n == 0 {
        None
    } else {
        let prev = best_target(pos, m, (n - 1) as nat);
        match guard_target_at(pos, m, n - 1) {
            Some(g) => match prev {
                Some(q) => if guard_target_at(pos, m, q).unwrap() >= g {
                    prev
                } else {
                    Some(n - 1)
                },
                None => Some(n - 1),
            },
            None => prev,
        }
    }
}

/// `m` is a legal capture of an enemy defender (not the king), after which
/// the capturer cannot be won back, the side to move is not in check, and a
/// piece it defended can be won.
pub open spec fn removes_guard(pos: Position, m: Move) -> bool {
    let a = after(pos, m);
    let d = spec_piece_at(pos, victim_of(pos, m) as u64);
    &&& legal_move(pos, m)
    &&& m.flag.spec_is_capture()
    &&& spec_piece_at(pos, m.from as u64) is Some
    &&& d matches Some(x) && x.0 == pos.stm.spec_flip() && x.1 != Piece::King
    &&& !capturable_for_gain(a, m.to as int)
    &&& !stm_king_attacked_by(a, pos.stm)
    &&& best_target(pos, m, 320) is Some
}

/// The fact of the guard removal `m` (with its best target).
pub open spec fn remove_guard_fact(pos: Position, m: Move, f: RemoveGuardOpportunity) -> bool {
    let n = best_target(pos, m, 320).unwrap();
    let e = pos.stm.spec_flip();
    let d = victim_of(pos, m);
    &&& f.kind@ == "capture_the_defender"@
    &&& f.validator@ == "remove_guard_validation"@
    &&& f.move_uci@ == uci_text(m)
    &&& piece_ref_spec(pos.stm, forker(pos, m), m.to, f.mover)
    &&& piece_ref_spec(e, spec_piece_at(pos, d as u64).unwrap().1, d as u8, f.captured_defender)
    &&& piece_ref_spec(e, piece_of_index(n / 64), (n % 64) as u8, f.target)
    &&& f.gives_check == checks(pos, m)
    &&& f.material_gain == guard_target_at(pos, m, n).unwrap()
}

pub open spec fn remove_guard_pred(pos: Position) -> spec_fn(Move) -> bool {
    |m: Move| removes_guard(pos, m)
}

pub open spec fn fact_of_a_remove_guard(pos: Position, f: RemoveGuardOpportunity) -> bool {
    exists|m: Move| #[trigger] removes_guard(pos, m) && remove_guard_fact(pos, m, f)
}

pub open spec fn has_remove_guard_fact(pos: Position, m: Move, out: Seq<RemoveGuardOpportunity>) -> bool {
    exists|i: int| 0 <= i < out.len() && remove_guard_fact(pos, m, #[trigger] out[i])
}

/// One fact per guard-removing capture of the side to move, ascending by move.
pub open spec fn remove_guards_ok(pos: Position, out: Seq<RemoveGuardOpportunity>) -> bool {
    &&& out.len() == crate::perft::listing_of(remove_guard_pred(pos)).len()
    &&& forall|i: int| 0 <= i < out.len() ==> #[trigger] fact_of_a_remove_guard(pos, out[i])
    &&& forall|m: Move| #[trigger] removes_guard(pos, m) ==> has_remove_guard_fact(pos, m, out)
    &&& key_sorted(out)
}

pub open spec fn remove_guards_result(pos: Position, c: FactCollection<RemoveGuardOpportunity>) -> bool {
    match c {
        FactCollection::Computed { items } => remove_guards_ok(pos, items@),
        _ => false,
    }
}

} // verus!

verus! {

/// The best exchange value of a legal capture onto `sq` in `h`, whose legal
/// moves are `legal`, or 0 when none wins material.
pub(crate) fn best_capture_see(h: &Position, legal: &Vec<Move>, sq: u8) -> (r: i32)
    requires
        h.board_wf(),
        crate::movegen::lists_exactly(legal@, |m: Move| legal_move(*h, m)),
        forall|j: int| 0 <= j < legal@.len() ==> (#[trigger] legal@[j]).from < 64 && legal@[j].to < 64,
    ensures
        r == best_see(*h, sq as int),
        r >= 0,
        r > 0 ==> top_capture_see(*h, sq as int, r as int),
        r == 0 ==> !exists|m: Move| #[trigger] capture_onto(*h, sq as int, m) && see_spec(*h, m.from, m.to) > 0,
{
    let mut best: i32 = 0;
    let mut i: usize = 0;
    while i < legal.len()
        invariant
            i <= legal@.len(),
            h.board_wf(),
            crate::movegen::lists_exactly(legal@, |m: Move| legal_move(*h, m)),
            forall|j: int| 0 <= j < legal@.len() ==> (#[trigger] legal@[j]).from < 64 && legal@[j].to < 64,
            best >= 0,
            forall|j: int| 0 <= j < i && #[trigger] capture_onto(*h, sq as int, legal@[j]) ==> see_spec(*h, legal@[j].from, legal@[j].to) <= best,
            best > 0 ==> exists|j: int| 0 <= j < i && #[trigger] capture_onto(*h, sq as int, legal@[j]) && see_spec(*h, legal@[j].from, legal@[j].to) == best,
        decreases legal@.len() - i,
    {
        let m = legal[i];
        assert(legal@.contains(m));
        let ghost old_best = best;
        if m.to == sq && m.flag.is_capture() {
            let v = crate::see::see(h, m.from, m.to);
            if v > best {
                best = v;
            }
        }
        proof {
            assert(legal_move(*h, m));
            if best > 0 && best != old_best {
                assert(capture_onto(*h, sq as int, legal@[i as int]));
            }
        }
        i = i + 1;
    }
    proof {
        if exists|m: Move| #[trigger] capture_onto(*h, sq as int, m) && see_spec(*h, m.from, m.to) > 0 {
            let m = choose|m: Move| #[trigger] capture_onto(*h, sq as int, m) && see_spec(*h, m.from, m.to) > 0;
            assert(legal@.contains(m));
            let j = choose|j: int| 0 <= j < legal@.len() && legal@[j] == m;
            assert(capture_onto(*h, sq as int, legal@[j]));
            assert(best > 0);
            let k = choose|k: int| 0 <= k < i && #[trigger] capture_onto(*h, sq as int, legal@[k]) && see_spec(*h, legal@[k].from, legal@[k].to) == best;
            assert forall|m2: Move| #[trigger] capture_onto(*h, sq as int, m2) implies see_spec(*h, m2.from, m2.to) <= best by {
                assert(legal@.contains(m2));
                let j2 = choose|j2: int| 0 <= j2 < legal@.len() && legal@[j2] == m2;
                assert(capture_onto(*h, sq as int, legal@[j2]));
            }
            assert(top_capture_see(*h, sq as int, best as int));
            let v = choose|v: int| top_capture_see(*h, sq as int, v);
            let mv = choose|m3: Move| #[trigger] capture_onto(*h, sq as int, m3) && see_spec(*h, m3.from, m3.to) == v;
            assert(see_spec(*h, mv.from, mv.to) <= best);
            assert(see_spec(*h, legal@[k].from, legal@[k].to) <= v);
        } else if best > 0 {
            let k = choose|k: int| 0 <= k < i && #[trigger] capture_onto(*h, sq as int, legal@[k]) && see_spec(*h, legal@[k].from, legal@[k].to) == best;
            assert(capture_onto(*h, sq as int, legal@[k]) && see_spec(*h, legal@[k].from, legal@[k].to) > 0);
        }
    }
    best
}

} // verus!

verus! {

/// What holds of the best capture onto `sq` in `x` holds in a position `y`
/// with the same board.
pub(crate) proof fn lemma_best_see_transfer(x: Position, y: Position, sq: int, v: int)
    requires
        crate::perft::same_board(x, y),
        v >= 0,
        v > 0 ==> top_capture_see(x, sq, v),
        v == 0 ==> !exists|m: Move| #[trigger] capture_onto(x, sq, m) && see_spec(x, m.from, m.to) > 0,
    ensures
        best_see(y, sq) == v,
        v > 0 ==> top_capture_see(y, sq, v),
        v == 0 ==> !exists|m: Move| #[trigger] capture_onto(y, sq, m) && see_spec(y, m.from, m.to) > 0,
{
    lemma_board_moves(x, y);
    assert forall|m: Move| #[trigger] capture_onto(x, sq, m) == capture_onto(y, sq, m) && see_spec(x, m.from, m.to) == see_spec(
        y,
        m.from,
        m.to,
    ) by {
        assert(legal_move(x, m) == legal_move(y, m));
    }
    if v > 0 {
        let mx = choose|m: Move| #[trigger] capture_onto(x, sq, m) && see_spec(x, m.from, m.to) == v;
        assert(capture_onto(y, sq, mx));
        assert forall|m: Move| #[trigger] capture_onto(y, sq, m) implies see_spec(y, m.from, m.to) <= v by {
            assert(capture_onto(x, sq, m));
        }
        assert(top_capture_see(y, sq, v));
        assert(capture_onto(y, sq, mx) && see_spec(y, mx.from, mx.to) > 0);
        let w = choose|w: int| top_capture_see(y, sq, w);
        let mw = choose|m: Move| #[trigger] capture_onto(y, sq, m) && see_spec(y, m.from, m.to) == w;
        assert(see_spec(y, mw.from, mw.to) <= v);
        assert(see_spec(y, mx.from, mx.to) <= w);
    } else {
        assert forall|m: Move| #[trigger] capture_onto(y, sq, m) implies see_spec(y, m.from, m.to) <= 0 by {
            assert(capture_onto(x, sq, m));
        }
    }
}

} // verus!

verus! {

/// Candidate `n`'s gain, read from `p1` (the position after `m`), `h` (the
/// same with the mover to move, whose legal moves are `legal_h`) and a copy
/// `pos_probe` of `pos`; `d` is the captured defender's square.
fn guard_candidate(
    pos: &Position,
    p1: &Position,
    pos_probe: &mut Position,
    h: &Position,
    legal_h: &Vec<Move>,
    m: Move,
    d: u8,
    n: u32,
) -> (r: Option<i32>)
    requires
        crate::perft::same_board(*p1, after(*pos, m)),
        old(pos_probe).same_state(*pos),
        movable(*pos),
        crate::perft::same_board(*h, handed(after(*pos, m), pos.stm)),
        h.board_wf(),
        crate::movegen::lists_exactly(legal_h@, |m2: Move| legal_move(*h, m2)),
        forall|j: int| 0 <= j < legal_h@.len() ==> (#[trigger] legal_h@[j]).from < 64 && legal_h@[j].to < 64,
        d as int == victim_of(*pos, m),
        d < 64,
        n < 320,
    ensures
        final(pos_probe).same_state(*pos),
        match r {
            Some(g) => guard_target_at(*pos, m, n as int) == Some(g as int),
            None => guard_target_at(*pos, m, n as int) is None,
        },
{
    let ghost a = after(*pos, m);
    let p = (n / 64) as usize;
    let sq = (n % 64) as u8;
    if p == 5 {
        return None;
    }
    let enemy = pos.stm.flip();
    if p1.pieces[enemy.index()][p] & (1u64 << (sq as u64)) == 0 || sq == d {
        return None;
    }
    let defs = crate::attacks::attackers_of(&pos.pieces, sq, enemy, pos.all);
    if defs & (1u64 << (d as u64)) == 0 {
        assert(!bit(defs, d as u64));
        return None;
    }
    assert(bit(defs, d as u64));
    let ghost pp0 = *pos_probe;
    let cap = can_win_back(pos_probe, sq);
    proof {
        lemma_gain_same_board(pp0, *pos, sq as int);
    }
    if cap {
        return None;
    }
    let g = best_capture_see(h, legal_h, sq);
    proof {
        lemma_best_see_transfer(*h, handed(a, pos.stm), sq as int, g as int);
    }
    if g <= 0 {
        return None;
    }
    Some(g)
}

/// The best target of the guard removal `m`, with its gain.
fn find_guard_target(
    pos: &Position,
    p1: &Position,
    pos_probe: &mut Position,
    h: &Position,
    legal_h: &Vec<Move>,
    m: Move,
    d: u8,
) -> (r: Option<(u32, i32)>)
    requires
        crate::perft::same_board(*p1, after(*pos, m)),
        old(pos_probe).same_state(*pos),
        movable(*pos),
        crate::perft::same_board(*h, handed(after(*pos, m), pos.stm)),
        h.board_wf(),
        crate::movegen::lists_exactly(legal_h@, |m2: Move| legal_move(*h, m2)),
        forall|j: int| 0 <= j < legal_h@.len() ==> (#[trigger] legal_h@[j]).from < 64 && legal_h@[j].to < 64,
        d as int == victim_of(*pos, m),
        d < 64,
    ensures
        final(pos_probe).same_state(*pos),
        match r {
            Some((n, g)) => best_target(*pos, m, 320) == Some(n as int) && guard_target_at(*pos, m, n as int) == Some(g as int)
                && n < 320,
            None => best_target(*pos, m, 320) is None,
        },
{
    let mut best: Option<(u32, i32)> = None;
    let mut n: u32 = 0;
    while n < 320
        invariant
            n <= 320,
            crate::perft::same_board(*p1, after(*pos, m)),
            pos_probe.same_state(*pos),
            movable(*pos),
            crate::perft::same_board(*h, handed(after(*pos, m), pos.stm)),
            h.board_wf(),
            crate::movegen::lists_exactly(legal_h@, |m2: Move| legal_move(*h, m2)),
            forall|j: int| 0 <= j < legal_h@.len() ==> (#[trigger] legal_h@[j]).from < 64 && legal_h@[j].to < 64,
            d as int == victim_of(*pos, m),
            d < 64,
            match best {
                Some((bn, bg)) => best_target(*pos, m, n as nat) == Some(bn as int) && guard_target_at(*pos, m, bn as int) == Some(
                    bg as int,
                ) && bn < 320,
                None => best_target(*pos, m, n as nat) is None,
            },
        decreases 320 - n,
    {
        match guard_candidate(pos, p1, pos_probe, h, legal_h, m, d, n) {
            Some(g) => {
                let replace = match best {
                    Some((_, bg)) => bg < g,
                    None => true,
                };
                if replace {
                    best = Some((n, g));
                }
            },
            None => {},
        }
        n = n + 1;
    }
    best
}

} // verus!

verus! {

/// The guard-removal fact of the legal move `m`, if it removes a guard.
/// `probe` is a copy of `pos` used to test for check; it is left as it was.
fn remove_guard_of(pos: &Position, probe: &mut Position, m: Move) -> (r: Option<RemoveGuardOpportunity>)
    requires
        pos.wf(),
        perft_ok(*pos, 2),
        ep_short_of_promotion(*pos),
        legal_move(*pos, m),
        old(probe).same_state(*pos),
    ensures
        final(probe).same_state(*pos),
        r matches Some(f) ==> removes_guard(*pos, m) && remove_guard_fact(*pos, m, f),
        r is None ==> !removes_guard(*pos, m),
{
    assert(movable(*pos));
    if !m.flag.is_capture() {
        return None;
    }
    proof {
        crate::movegen::lemma_pseudo_consistent(*pos, m);
    }
    let mp = match pos.piece_at(m.from) {
        Some((_, p)) => p,
        None => {
            return None;
        },
    };
    let fp = match m.flag.promo_piece() {
        Some(p) => p,
        None => mp,
    };
    assert(fp == forker(*pos, m));
    let us = pos.stm;
    let enemy = us.flip();
    let d: u8 = if m.flag == MoveFlag::EnPassant {
        if us == Color::White {
            m.to - 8
        } else {
            m.to + 8
        }
    } else {
        m.to
    };
    assert(d as int == victim_of(*pos, m) && d < 64);
    let (dc, dp) = match pos.piece_at(d) {
        Some(x) => x,
        None => {
            return None;
        },
    };
    if dc != enemy || dp == Piece::King {
        return None;
    }
    proof {
        crate::movegen::lemma_same_state_moves(*probe, *pos);
        crate::perft::lemma_board_after(*probe, *pos, m);
        assert(perft_ok(after(*pos, m), 1));
    }
    let gives = crate::movegen::gives_check(probe, m);
    let mut moved = pos.duplicate();
    proof {
        crate::movegen::lemma_same_state_moves(moved, *pos);
        crate::movegen::lemma_pseudo_consistent(moved, m);
    }
    let ghost before_make = moved;
    moved.make(m);
    let ghost p1 = moved;
    proof {
        lemma_child(*pos, before_make, m, moved, 1);
        lemma_board_moves(moved, after(*pos, m));
    }
    let won_back = can_win_back(&mut moved, m.to);
    proof {
        lemma_gain_same_board(p1, after(*pos, m), m.to as int);
    }
    if won_back {
        return None;
    }
    let mut h = match position_for_analysis_side(&moved, us) {
        Ok(p) => p,
        Err(_) => {
            return None;
        },
    };
    proof {
        crate::facts::position::lemma_after_analysable(*pos, m, moved);
        crate::facts::position::lemma_probe_movable(moved, us, h);
    }
    let ghost h0 = h;
    let legal_h = generate_legal(&mut h);
    proof {
        crate::movegen::lemma_same_state_moves(h, h0);
        assert forall|j: int| 0 <= j < legal_h@.len() implies (#[trigger] legal_h@[j]).from < 64 && legal_h@[j].to < 64 by {
            assert(legal_h@.contains(legal_h@[j]));
            assert(legal_move(h, legal_h@[j]));
        }
    }
    let mut pos_probe = pos.duplicate();
    let found = find_guard_target(pos, &moved, &mut pos_probe, &h, &legal_h, m, d);
    let (n, gain) = match found {
        Some(x) => x,
        None => {
            return None;
        },
    };
    let pieces = crate::all_pieces();
    let tp = pieces[(n / 64) as usize];
    assert(tp == piece_of_index((n / 64) as int));
    Some(RemoveGuardOpportunity {
        kind: String::from_str("capture_the_defender"),
        validator: String::from_str("remove_guard_validation"),
        move_uci: m.to_uci(),
        mover: piece_ref(us, fp, m.to),
        captured_defender: piece_ref(enemy, dp, d),
        target: piece_ref(enemy, tp, (n % 64) as u8),
        gives_check: gives,
        material_gain: gain,
    })
}

} // verus!

verus! {

/// The facts of the guard removals, in the order of the legal moves, with the captures
/// they describe.
fn remove_guard_facts(pos: &Position) -> (res: (Vec<RemoveGuardOpportunity>, Ghost<Seq<Move>>))
    requires
        pos.wf(),
        perft_ok(*pos, 2),
        ep_short_of_promotion(*pos),
    ensures
        res.0@.len() == res.1@.len(),
        forall|k: int| 0 <= k < res.1@.len() ==> #[trigger] removes_guard(*pos, res.1@[k]) && remove_guard_fact(*pos, res.1@[k], res.0@[k]),
        crate::movegen::lists_exactly(res.1@, remove_guard_pred(*pos)),
{
    assert(movable(*pos));
    let mut probe = pos.duplicate();
    proof {
        crate::movegen::lemma_same_state_moves(probe, *pos);
    }
    let legal = generate_legal(&mut probe);
    let mut facts: Vec<RemoveGuardOpportunity> = Vec::new();
    let ghost mut ms: Seq<Move> = Seq::empty();
    let ghost mut idx: Seq<int> = Seq::empty();
    let mut i: usize = 0;
    while i < legal.len()
        invariant
            i <= legal@.len(),
            pos.wf(),
            perft_ok(*pos, 2),
            ep_short_of_promotion(*pos),
            movable(*pos),
            probe.same_state(*pos),
            crate::movegen::lists_exactly(legal@, |m: Move| legal_move(*pos, m)),
            idx.len() == ms.len(),
            facts@.len() == ms.len(),
            forall|k: int| 0 <= k < idx.len() ==> 0 <= #[trigger] idx[k] < i && legal@[idx[k]] == ms[k],
            forall|k: int, l: int| 0 <= k < l < idx.len() ==> #[trigger] idx[k] < #[trigger] idx[l],
            forall|k: int| 0 <= k < ms.len() ==> #[trigger] removes_guard(*pos, ms[k]) && remove_guard_fact(*pos, ms[k], facts@[k]),
            forall|j: int| 0 <= j < i && #[trigger] removes_guard(*pos, legal@[j]) ==> exists|k: int| 0 <= k < idx.len() && idx[k] == j,
        decreases legal@.len() - i,
    {
        let m = legal[i];
        assert(legal@.contains(m));
        assert(legal_move(*pos, m));
        let ghost old_idx = idx;
        let ghost old_ms = ms;
        let ghost before = facts@;
        match remove_guard_of(pos, &mut probe, m) {
            Some(f) => {
                facts.push(f);
                proof {
                    ms = ms.push(m);
                    idx = idx.push(i as int);
                }
            },
            None => {},
        }
        proof {
            assert forall|k: int| 0 <= k < ms.len() implies #[trigger] removes_guard(*pos, ms[k]) && remove_guard_fact(*pos, ms[k], facts@[k]) by {
                if k < old_ms.len() {
                    assert(ms[k] == old_ms[k] && facts@[k] == before[k]);
                }
            }
            assert forall|j: int| 0 <= j < i + 1 && #[trigger] removes_guard(*pos, legal@[j]) implies exists|k: int|
                0 <= k < idx.len() && idx[k] == j by {
                if j < i {
                    let k = choose|k: int| 0 <= k < old_idx.len() && old_idx[k] == j;
                    assert(idx[k] == j);
                } else {
                    assert(idx.len() > old_idx.len());
                    assert(idx[idx.len() - 1] == j);
                }
            }
        }
        i = i + 1;
    }
    proof {
        assert forall|a: int, b: int| 0 <= a < ms.len() && 0 <= b < ms.len() && a != b implies ms[a] != ms[b] by {
            if a < b {
                assert(idx[a] < idx[b]);
            } else {
                assert(idx[b] < idx[a]);
            }
        }
        assert forall|m: Move| #![trigger ms.contains(m)] #![trigger remove_guard_pred(*pos)(m)] ms.contains(m) <==> remove_guard_pred(*pos)(m) by {
            if ms.contains(m) {
                let k = choose|k: int| 0 <= k < ms.len() && ms[k] == m;
                assert(removes_guard(*pos, ms[k]));
            }
            if removes_guard(*pos, m) {
                assert(legal@.contains(m));
                let j = choose|j: int| 0 <= j < legal@.len() && legal@[j] == m;
                assert(removes_guard(*pos, legal@[j]));
                let k = choose|k: int| 0 <= k < idx.len() && idx[k] == j;
                assert(ms[k] == m);
            }
        }
    }
    (facts, Ghost(ms))
}

/// Sorting the facts of the guard removals yields one per such capture, by move.
#[verifier::spinoff_prover]
proof fn lemma_remove_guard_order(pos: Position, ms: Seq<Move>, unsorted: Seq<RemoveGuardOpportunity>)
    requires
        unsorted.len() == ms.len(),
        forall|k: int| 0 <= k < ms.len() ==> #[trigger] removes_guard(pos, ms[k]) && remove_guard_fact(pos, ms[k], unsorted[k]),
        crate::movegen::lists_exactly(ms, remove_guard_pred(pos)),
    ensures
        remove_guards_ok(pos, sorted_by_key(unsorted)),
{
    lemma_sorted_by_key(unsorted);
    let p = remove_guard_pred(pos);
    assert(crate::movegen::lists_exactly(crate::perft::listing_of(p), p));
    crate::movegen::lemma_listing_len(ms, crate::perft::listing_of(p), p);
    assert forall|i: int| 0 <= i < sorted_by_key(unsorted).len() implies #[trigger] fact_of_a_remove_guard(pos, sorted_by_key(unsorted)[i]) by {
        assert(sorted_by_key(unsorted).contains(sorted_by_key(unsorted)[i]));
        assert(unsorted.contains(sorted_by_key(unsorted)[i]));
        let l = choose|l: int| 0 <= l < unsorted.len() && unsorted[l] == sorted_by_key(unsorted)[i];
        assert(removes_guard(pos, ms[l]) && remove_guard_fact(pos, ms[l], unsorted[l]));
    }
    assert forall|m: Move| #[trigger] removes_guard(pos, m) implies has_remove_guard_fact(pos, m, sorted_by_key(unsorted)) by {
        assert(p(m));
        assert(ms.contains(m));
        let l = choose|l: int| 0 <= l < ms.len() && ms[l] == m;
        assert(removes_guard(pos, ms[l]) && remove_guard_fact(pos, ms[l], unsorted[l]));
        assert(unsorted.contains(unsorted[l]));
        assert(sorted_by_key(unsorted).contains(unsorted[l]));
        let i = choose|i: int| 0 <= i < sorted_by_key(unsorted).len() && sorted_by_key(unsorted)[i] == unsorted[l];
        assert(remove_guard_fact(pos, m, sorted_by_key(unsorted)[i]));
    }
}

/// The captures of a defender available to the side to move, ascending by move.
pub fn remove_guard_opportunities(pos: &Position) -> (c: FactCollection<RemoveGuardOpportunity>)
    requires
        pos.wf(),
        perft_ok(*pos, 2),
        ep_short_of_promotion(*pos),
    ensures
        remove_guards_result(*pos, c),
{
    let (facts, Ghost(ms)) = remove_guard_facts(pos);
    proof {
        lemma_remove_guard_order(*pos, ms, facts@);
    }
    FactCollection::computed(sort_by_key(facts))
}


/// The captures of a defender that `side` could make: refused for the side not to move while
/// the side to move is in check, else those of the probe with `side` to move.
pub fn remove_guard_opportunities_for(pos: &Position, side: Color) -> (c: FactCollection<RemoveGuardOpportunity>)
    requires
        pos.wf(),
        pos.stm == side ==> perft_ok(*pos, 2) && ep_short_of_promotion(*pos),
        pos.stm != side ==> pos.pieces[pos.stm.spec_index()][5] != 0 && (!stm_king_attacked_by(*pos, side) ==> forall|p: Position| #[trigger] crate::facts::position::handed_over(*pos, side, p) ==> perft_ok(p, 2)),
    ensures
        pos.stm != side && stm_king_attacked_by(*pos, side) ==> unavailable_because(c, "opposite_side_probe_while_in_check"@),
        !(pos.stm != side && stm_king_attacked_by(*pos, side)) ==> exists|p: Position| #[trigger] analysis_probe(*pos, side, p) && remove_guards_result(p, c),
{
    match position_for_analysis_side(pos, side) {
        Ok(probe) => {
            proof {
                if pos.stm == side {
                    crate::perft::lemma_board_perft(probe, *pos, 2);
                }
            }
            let c = remove_guard_opportunities(&probe);
            assert(analysis_probe(*pos, side, probe));
            c
        },
        Err(reason) => FactCollection::unavailable(reason),
    }
}

} // verus!
