//! Forks: a legal move after which the moved piece attacks two or more enemy
//! pieces, cannot itself be won back, and attacks enough winnable material
//! (the king, a piece worth more than itself, or an undefended piece).
use vstd::prelude::*;
use crate::facts::types::unavailable_because;
use crate::attacks::attacker_on;
use crate::bits::bit;
use crate::facts::captures::{can_win_back, capturable_for_gain, checks, lemma_gain_same_board, rank_value};
use crate::facts::piece_safety::{guard_set, guards, own_candidate, piece_in_word_order, piece_ref, piece_ref_spec, typed_refs};
use crate::facts::position::{analysis_probe, position_for_analysis_side, square_in_name_order, stm_king_attacked_by};
use crate::facts::types::{FactCollection, MotifOpportunity};
use crate::movegen::{generate_legal, legal_move, movable};
use crate::order::{key_sorted, lemma_sorted_by_key, sort_by_key, sorted_by_key};
use crate::perft::{after, lemma_board_moves, lemma_child, perft_ok};
use crate::position::{spec_piece_at, Position};
use crate::{all_pieces, piece_of_index, uci_text, Color, Move, Piece};

verus! {

/// The piece that stands on the target square after `m`.
pub open spec fn forker(pos: Position, m: Move) -> Piece {
    match m.flag.spec_promo_piece() {
        Some(p) => p,
        None => spec_piece_at(pos, m.from as u64).unwrap().1,
    }
}

/// The enemy pieces (type, square) among the first `n` candidates, in id
/// order, that the piece moved by `m` attacks after the move.
pub open spec fn fork_targets(pos: Position, m: Move, n: nat) -> Seq<(int, u8)>
    decreases n,
{
    if n == 0 {
        Seq::empty()
    } else {
        let prev = fork_targets(pos, m, (n - 1) as nat);
        let a = after(pos, m);
        let (p, u) = own_candidate(n - 1);
        if bit(a.pieces[1 - pos.stm.spec_index()][p], u as u64) && attacker_on(a.pieces, pos.stm, m.to as u64, u, a.all) {
            prev.push((p, u as u8))
        } else {
            prev
        }
    }
}

/// No piece of `owner` other than the one on `sq` defends `sq` in `a`.
pub open spec fn undefended(a: Position, owner: Color, sq: int) -> bool {
    forall|u: u64| u < 64 ==> !#[trigger] guards(a, owner, sq, u)
}

/// A target the fork can win: the king, a piece worth more than the forker,
/// or an undefended piece.
pub open spec fn winnable(pos: Position, m: Move, t: (int, u8)) -> bool {
    ||| t.0 == 5
    ||| rank_value(piece_of_index(t.0)) > rank_value(forker(pos, m))
    ||| undefended(after(pos, m), pos.stm.spec_flip(), t.1 as int)
}

/// The values of the winnable targets (the king left out when `non_king`).
pub open spec fn winnable_values(pos: Position, m: Move, ts: Seq<(int, u8)>, non_king: bool) -> Seq<int>
    decreases ts.len(),
{
    if ts.len() == 0 {
        Seq::empty()
    } else {
        let prev = winnable_values(pos, m, ts.drop_last(), non_king);
        let t = ts.last();
        if winnable(pos, m, t) && !(non_king && t.0 == 5) {
            prev.push(rank_value(piece_of_index(t.0)))
        } else {
            prev
        }
    }
}

/// The largest value (0 for none).
pub open spec fn max_value(s: Seq<int>) -> int
    decreases s.len(),
{
    if s.len() == 0 {
        0
    } else {
        let m = max_value(s.drop_last());
        if s.last() > m { s.last() } else { m }
    }
}

/// The two largest values, with multiplicity (-1 where missing).
pub open spec fn top_two(s: Seq<int>) -> (int, int)
    decreases s.len(),
{
    if s.len() == 0 {
        (-1, -1)
    } else {
        let (a, b) = top_two(s.drop_last());
        let x = s.last();
        if x >= a { (x, a) } else if x >= b { (a, x) } else { (a, b) }
    }
}

/// The second largest value with multiplicity (0 when fewer than two).
pub open spec fn second_value(s: Seq<int>) -> int {
    if s.len() < 2 { 0 } else { top_two(s).1 }
}

pub open spec fn king_targeted(ts: Seq<(int, u8)>) -> bool {
    exists|i: int| 0 <= i < ts.len() && (#[trigger] ts[i]).0 == 5
}

/// `m` is a fork.
pub open spec fn is_fork(pos: Position, m: Move) -> bool {
    let ts = fork_targets(pos, m, 384);
    &&& legal_move(pos, m)
    &&& spec_piece_at(pos, m.from as u64) is Some
    &&& forker(pos, m) != Piece::King
    &&& ts.len() >= 2
    &&& !capturable_for_gain(after(pos, m), m.to as int)
    &&& if king_targeted(ts) {
        winnable_values(pos, m, ts, true).len() > 0
    } else {
        winnable_values(pos, m, ts, false).len() >= 2
    }
}

/// The fact of the fork `m`.
pub open spec fn fork_fact(pos: Position, m: Move, f: MotifOpportunity) -> bool {
    let ts = fork_targets(pos, m, 384);
    &&& f.kind@ == "fork"@
    &&& f.validator@ == "fork_validation"@
    &&& f.move_uci@ == uci_text(m)
    &&& piece_ref_spec(pos.stm, forker(pos, m), m.to, f.forking_piece)
    &&& typed_refs(pos.stm.spec_flip(), f.targets@, ts)
    &&& f.gives_check == checks(pos, m)
    &&& f.king_target == king_targeted(ts)
    &&& f.material_gain == (if king_targeted(ts) {
        max_value(winnable_values(pos, m, ts, true))
    } else {
        second_value(winnable_values(pos, m, ts, false))
    })
}

pub open spec fn fork_pred(pos: Position) -> spec_fn(Move) -> bool {
    |m: Move| is_fork(pos, m)
}

pub open spec fn fact_of_a_fork(pos: Position, f: MotifOpportunity) -> bool {
    exists|m: Move| #[trigger] is_fork(pos, m) && fork_fact(pos, m, f)
}

pub open spec fn has_fork_fact(pos: Position, m: Move, out: Seq<MotifOpportunity>) -> bool {
    exists|i: int| 0 <= i < out.len() && fork_fact(pos, m, #[trigger] out[i])
}

/// One fact per fork of the side to move, ascending by move.
pub open spec fn forks_ok(pos: Position, out: Seq<MotifOpportunity>) -> bool {
    &&& out.len() == crate::perft::listing_of(fork_pred(pos)).len()
    &&& forall|i: int| 0 <= i < out.len() ==> #[trigger] fact_of_a_fork(pos, out[i])
    &&& forall|m: Move| #[trigger] is_fork(pos, m) ==> has_fork_fact(pos, m, out)
    &&& key_sorted(out)
}

/// The targets a fork can win: the enemy king, a piece worth more than the
/// forker, and a piece that no other enemy piece defends. A defended piece
/// worth no more than the forker is not one.
pub proof fn law_winnable_targets(pos: Position, m: Move, t: (int, u8))
    ensures
        t.0 == 5 ==> winnable(pos, m, t),
        rank_value(piece_of_index(t.0)) > rank_value(forker(pos, m)) ==> winnable(pos, m, t),
        undefended(after(pos, m), pos.stm.spec_flip(), t.1 as int) ==> winnable(pos, m, t),
        t.0 != 5 && rank_value(piece_of_index(t.0)) <= rank_value(forker(pos, m)) && !undefended(
            after(pos, m),
            pos.stm.spec_flip(),
            t.1 as int,
        ) ==> !winnable(pos, m, t),
{
}

/// A legal move of a piece other than the king that attacks two enemy pieces
/// other than the king, neither defended by another enemy piece, is a fork
/// when the moved piece cannot be won back for gain.
pub proof fn law_two_undefended_targets_fork(pos: Position, m: Move, i: int, j: int)
    requires
        legal_move(pos, m),
        spec_piece_at(pos, m.from as u64) is Some,
        forker(pos, m) != Piece::King,
        !capturable_for_gain(after(pos, m), m.to as int),
        0 <= i < j < fork_targets(pos, m, 384).len(),
        fork_targets(pos, m, 384)[i].0 != 5,
        fork_targets(pos, m, 384)[j].0 != 5,
        undefended(after(pos, m), pos.stm.spec_flip(), fork_targets(pos, m, 384)[i].1 as int),
        undefended(after(pos, m), pos.stm.spec_flip(), fork_targets(pos, m, 384)[j].1 as int),
    ensures
        is_fork(pos, m),
{
    let ts = fork_targets(pos, m, 384);
    lemma_winnable_values_two(pos, m, ts, true, i, j);
    lemma_winnable_values_two(pos, m, ts, false, i, j);
}

/// A target that a fork counts: winnable, and not the king when the king is
/// left out.
pub open spec fn counted(pos: Position, m: Move, t: (int, u8), non_king: bool) -> bool {
    winnable(pos, m, t) && !(non_king && t.0 == 5)
}

/// The values counted for a fork are those of its counted targets: each
/// counted target gives its value, and every value is that of a counted target.
pub proof fn law_winnable_values_members(pos: Position, m: Move, ts: Seq<(int, u8)>, non_king: bool)
    ensures
        forall|i: int|
            0 <= i < ts.len() && #[trigger] counted(pos, m, ts[i], non_king) ==> winnable_values(
                pos,
                m,
                ts,
                non_king,
            ).contains(rank_value(piece_of_index(ts[i].0))),
        forall|k: int|
            0 <= k < winnable_values(pos, m, ts, non_king).len() ==> exists|i: int|
                0 <= i < ts.len() && #[trigger] counted(pos, m, ts[i], non_king) && #[trigger] winnable_values(
                    pos,
                    m,
                    ts,
                    non_king,
                )[k] == rank_value(piece_of_index(ts[i].0)),
    decreases ts.len(),
{
    if ts.len() > 0 {
        let prev = ts.drop_last();
        let wp = winnable_values(pos, m, prev, non_king);
        let w = winnable_values(pos, m, ts, non_king);
        law_winnable_values_members(pos, m, prev, non_king);
        assert forall|i: int| 0 <= i < ts.len() && #[trigger] counted(pos, m, ts[i], non_king) implies w.contains(
            rank_value(piece_of_index(ts[i].0)),
        ) by {
            if i < ts.len() - 1 {
                assert(prev[i] == ts[i]);
                assert(counted(pos, m, prev[i], non_king));
                let k = choose|k: int| 0 <= k < wp.len() && wp[k] == rank_value(piece_of_index(prev[i].0));
                if counted(pos, m, ts.last(), non_king) {
                    assert(w[k] == wp[k]);
                }
            } else {
                assert(w[w.len() - 1] == rank_value(piece_of_index(ts[i].0)));
            }
        }
        assert forall|k: int| 0 <= k < w.len() implies exists|i: int|
            0 <= i < ts.len() && #[trigger] counted(pos, m, ts[i], non_king) && #[trigger] w[k] == rank_value(
                piece_of_index(ts[i].0),
            ) by {
            if k < wp.len() {
                let i = choose|i: int|
                    0 <= i < prev.len() && #[trigger] counted(pos, m, prev[i], non_king) && wp[k] == rank_value(
                        piece_of_index(prev[i].0),
                    );
                assert(prev[i] == ts[i]);
                assert(w[k] == wp[k]);
                assert(counted(pos, m, ts[i], non_king));
            } else {
                assert(counted(pos, m, ts[ts.len() - 1], non_king));
            }
        }
    }
}

/// A counted target gives at least one value.
proof fn lemma_winnable_values_one(pos: Position, m: Move, ts: Seq<(int, u8)>, non_king: bool, i: int)
    requires
        0 <= i < ts.len(),
        winnable(pos, m, ts[i]),
        !(non_king && ts[i].0 == 5),
    ensures
        winnable_values(pos, m, ts, non_king).len() >= 1,
    decreases ts.len(),
{
    if i < ts.len() - 1 {
        assert(ts.drop_last()[i] == ts[i]);
        lemma_winnable_values_one(pos, m, ts.drop_last(), non_king, i);
    }
}

/// Two counted targets give at least two values.
proof fn lemma_winnable_values_two(pos: Position, m: Move, ts: Seq<(int, u8)>, non_king: bool, i: int, j: int)
    requires
        0 <= i < j < ts.len(),
        winnable(pos, m, ts[i]),
        winnable(pos, m, ts[j]),
        !(non_king && ts[i].0 == 5),
        !(non_king && ts[j].0 == 5),
    ensures
        winnable_values(pos, m, ts, non_king).len() >= 2,
    decreases ts.len(),
{
    assert(ts.drop_last()[i] == ts[i]);
    if j == ts.len() - 1 {
        lemma_winnable_values_one(pos, m, ts.drop_last(), non_king, i);
    } else {
        assert(ts.drop_last()[j] == ts[j]);
        lemma_winnable_values_two(pos, m, ts.drop_last(), non_king, i, j);
    }
}

pub open spec fn forks_result(pos: Position, c: FactCollection<MotifOpportunity>) -> bool {
    match c {
        FactCollection::Computed { items } => forks_ok(pos, items@),
        _ => false,
    }
}

} // verus!

verus! {

/// The targets of the piece moved by `m` to `to`, read from `p1`, the
/// position after it.
fn targets_after(p1: &Position, Ghost(pos): Ghost<Position>, m: Move) -> (v: Vec<(usize, u8)>)
    requires
        crate::perft::same_board(*p1, after(pos, m)),
        m.to < 64,
    ensures
        v@.len() == fork_targets(pos, m, 384).len(),
        forall|i: int| 0 <= i < v@.len() ==> (#[trigger] v@[i]).0 as int == fork_targets(pos, m, 384)[i].0 && v@[i].1
            == fork_targets(pos, m, 384)[i].1 && v@[i].0 < 6 && v@[i].1 < 64,
{
    let us = if p1.stm == Color::White { Color::Black } else { Color::White };
    assert(us == pos.stm);
    let enemy = us.flip();
    let mut out: Vec<(usize, u8)> = Vec::new();
    let mut k: u32 = 0;
    while k < 384
        invariant
            k <= 384,
            m.to < 64,
            us == pos.stm,
            enemy == pos.stm.spec_flip(),
            crate::perft::same_board(*p1, after(pos, m)),
            out@.len() == fork_targets(pos, m, k as nat).len(),
            forall|i: int| 0 <= i < out@.len() ==> (#[trigger] out@[i]).0 as int == fork_targets(pos, m, k as nat)[i].0 && out@[i].1
                == fork_targets(pos, m, k as nat)[i].1 && out@[i].0 < 6 && out@[i].1 < 64,
        decreases 384 - k,
    {
        let p = piece_in_word_order(k / 64);
        let u = square_in_name_order(k % 64);
        assert(own_candidate(k as int) == (p as int, u as int));
        let ghost before = out@;
        if p1.pieces[enemy.index()][p] & (1u64 << (u as u64)) != 0 {
            let a = crate::attacks::attackers_of(&p1.pieces, u, us, p1.all);
            if a & (1u64 << (m.to as u64)) != 0 {
                assert(bit(a, m.to as u64));
                out.push((p, u));
                assert forall|i: int| 0 <= i < out@.len() implies (#[trigger] out@[i]).0 as int == fork_targets(pos, m, (k + 1) as nat)[i].0
                    && out@[i].1 == fork_targets(pos, m, (k + 1) as nat)[i].1 && out@[i].0 < 6 && out@[i].1 < 64 by {
                    if i < before.len() {
                        assert(out@[i] == before[i]);
                    }
                }
            } else {
                assert(!bit(a, m.to as u64));
            }
        }
        k = k + 1;
    }
    out
}

pub(crate) fn value_of_index(p: usize) -> (v: i32)
    requires
        p < 6,
    ensures
        v == rank_value(piece_of_index(p as int)),
{
    if p == 0 { 100 } else if p == 1 { 300 } else if p == 2 { 300 } else if p == 3 { 500 } else if p == 4 { 900 } else { 0 }
}

/// The largest and second largest (with multiplicity) of the values of `v`.
fn top_values(v: &Vec<i32>) -> (r: (i32, i32))
    requires
        forall|i: int| 0 <= i < v@.len() ==> 0 <= #[trigger] v@[i] <= 900,
    ensures
        r.0 as int == max_value(v@.map_values(|x: i32| x as int)),
        v@.len() >= 2 ==> r.1 as int == top_two(v@.map_values(|x: i32| x as int)).1,
{
    let ghost s = v@.map_values(|x: i32| x as int);
    let mut mx: i32 = 0;
    let mut a: i32 = -1;
    let mut b: i32 = -1;
    let mut i: usize = 0;
    assert(s.take(0) =~= Seq::<int>::empty());
    while i < v.len()
        invariant
            i <= v@.len(),
            s == v@.map_values(|x: i32| x as int),
            forall|j: int| 0 <= j < v@.len() ==> 0 <= #[trigger] v@[j] <= 900,
            mx as int == max_value(s.take(i as int)),
            (a as int, b as int) == top_two(s.take(i as int)),
            -1 <= b <= a <= 900,
        decreases v@.len() - i,
    {
        assert(s.take(i as int + 1).drop_last() =~= s.take(i as int));
        let x = v[i];
        if x > mx {
            mx = x;
        }
        if x >= a {
            b = a;
            a = x;
        } else if x >= b {
            b = x;
        }
        i = i + 1;
    }
    assert(s.take(v@.len() as int) =~= s);
    (mx, b)
}

} // verus!

verus! {

/// The winnable target values (all, and those other than the king) and
/// whether the king is a target; `p1` is the position after `m`.
fn winnable_parts(p1: &Position, Ghost(pos): Ghost<Position>, m: Move, fp: Piece, targets: &Vec<(usize, u8)>) -> (r: (
    Vec<i32>,
    Vec<i32>,
    bool,
))
    requires
        crate::perft::same_board(*p1, after(pos, m)),
        fp == forker(pos, m),
        targets@.len() == fork_targets(pos, m, 384).len(),
        forall|i: int| 0 <= i < targets@.len() ==> (#[trigger] targets@[i]).0 as int == fork_targets(pos, m, 384)[i].0
            && targets@[i].1 == fork_targets(pos, m, 384)[i].1 && targets@[i].0 < 6 && targets@[i].1 < 64,
    ensures
        r.0@.map_values(|x: i32| x as int) == winnable_values(pos, m, fork_targets(pos, m, 384), false),
        r.1@.map_values(|x: i32| x as int) == winnable_values(pos, m, fork_targets(pos, m, 384), true),
        forall|i: int| 0 <= i < r.0@.len() ==> 0 <= #[trigger] r.0@[i] <= 900,
        forall|i: int| 0 <= i < r.1@.len() ==> 0 <= #[trigger] r.1@[i] <= 900,
        r.2 == king_targeted(fork_targets(pos, m, 384)),
{
    let ghost ts = fork_targets(pos, m, 384);
    let enemy = if p1.stm == Color::White { Color::White } else { Color::Black };
    assert(enemy == pos.stm.spec_flip());
    let fv = value_of_index(fp.index());
    let mut all: Vec<i32> = Vec::new();
    let mut nk: Vec<i32> = Vec::new();
    let mut king = false;
    let mut i: usize = 0;
    assert(ts.take(0) =~= Seq::<(int, u8)>::empty());
    assert(all@.map_values(|x: i32| x as int) =~= Seq::<int>::empty());
    while i < targets.len()
        invariant
            i <= targets@.len(),
            ts == fork_targets(pos, m, 384),
            targets@.len() == ts.len(),
            forall|j: int| 0 <= j < targets@.len() ==> (#[trigger] targets@[j]).0 as int == ts[j].0 && targets@[j].1 == ts[j].1
                && targets@[j].0 < 6 && targets@[j].1 < 64,
            crate::perft::same_board(*p1, after(pos, m)),
            enemy == pos.stm.spec_flip(),
            fv == rank_value(forker(pos, m)),
            all@.map_values(|x: i32| x as int) == winnable_values(pos, m, ts.take(i as int), false),
            nk@.map_values(|x: i32| x as int) == winnable_values(pos, m, ts.take(i as int), true),
            forall|j: int| 0 <= j < all@.len() ==> 0 <= #[trigger] all@[j] <= 900,
            forall|j: int| 0 <= j < nk@.len() ==> 0 <= #[trigger] nk@[j] <= 900,
            king == king_targeted(ts.take(i as int)),
        decreases targets@.len() - i,
    {
        let t = targets[i];
        assert(ts.take(i as int + 1).drop_last() =~= ts.take(i as int));
        assert(ts.take(i as int + 1).last() == ts[i as int]);
        let g = guard_set(p1, enemy, t.1);
        proof {
            if g == 0 {
                crate::bits::lemma_zero_no_bit(g);
                assert forall|u: u64| u < 64 implies !#[trigger] guards(after(pos, m), enemy, t.1 as int, u) by {
                    assert(!bit(g, u));
                }
            } else {
                crate::bits::lemma_nonzero_has_bit(g);
                let u = choose|u: u64| u < 64 && #[trigger] bit(g, u);
                assert(guards(after(pos, m), enemy, t.1 as int, u));
            }
        }
        let v = value_of_index(t.0);
        let w = t.0 == 5 || v > fv || g == 0;
        assert(w == winnable(pos, m, ts[i as int]));
        let ghost old_all = all@;
        let ghost old_nk = nk@;
        if w {
            all.push(v);
            assert(all@.map_values(|x: i32| x as int) =~= old_all.map_values(|x: i32| x as int).push(v as int));
            if t.0 != 5 {
                nk.push(v);
                assert(nk@.map_values(|x: i32| x as int) =~= old_nk.map_values(|x: i32| x as int).push(v as int));
            }
        }
        if t.0 == 5 {
            king = true;
            assert(ts.take(i as int + 1)[i as int].0 == 5);
        }
        proof {
            let t1 = ts.take(i as int + 1);
            let t0 = ts.take(i as int);
            if t.0 != 5 {
                assert forall|j: int| 0 <= j < t1.len() implies #[trigger] t1[j].0 != 5 || king_targeted(t0) by {
                    if j < i {
                        assert(t1[j] == t0[j]);
                    }
                }
            }
            if king_targeted(t0) {
                let j = choose|j: int| 0 <= j < t0.len() && (#[trigger] t0[j]).0 == 5;
                assert(t1[j] == t0[j]);
            }
        }
        i = i + 1;
    }
    assert(ts.take(ts.len() as int) =~= ts);
    (all, nk, king)
}

} // verus!

verus! {

/// The fork fact of the legal move `m`, if it is a fork. `probe` is a copy of
/// `pos` used to test for check; it is left as it was.
fn fork_of(pos: &Position, probe: &mut Position, m: Move) -> (r: Option<MotifOpportunity>)
    requires
        pos.wf(),
        perft_ok(*pos, 2),
        legal_move(*pos, m),
        old(probe).same_state(*pos),
    ensures
        final(probe).same_state(*pos),
        r matches Some(f) ==> is_fork(*pos, m) && fork_fact(*pos, m, f),
        r is None ==> !is_fork(*pos, m),
{
    assert(movable(*pos));
    proof {
        crate::movegen::lemma_pseudo_consistent(*pos, m);
    }
    let mp = match pos.piece_at(m.from) {
        Some((_, p)) => p,
        None => {
            return None;
        },
    };
    let fp = match m.flag.promo_piece() {
        Some(p) => p,
        None => mp,
    };
    assert(fp == forker(*pos, m));
    if fp == Piece::King {
        return None;
    }
    proof {
        crate::movegen::lemma_same_state_moves(*probe, *pos);
        crate::perft::lemma_board_after(*probe, *pos, m);
        assert(perft_ok(after(*pos, m), 1));
    }
    let gives = crate::movegen::gives_check(probe, m);
    let mut moved = pos.duplicate();
    proof {
        crate::movegen::lemma_same_state_moves(moved, *pos);
        crate::movegen::lemma_pseudo_consistent(moved, m);
    }
    let ghost before_make = moved;
    moved.make(m);
    let ghost p1 = moved;
    proof {
        lemma_child(*pos, before_make, m, moved, 1);
        lemma_board_moves(moved, after(*pos, m));
    }
    let targets = targets_after(&moved, Ghost(*pos), m);
    if targets.len() < 2 {
        return None;
    }
    let (all, nk, king) = winnable_parts(&moved, Ghost(*pos), m, fp, &targets);
    let won_back = can_win_back(&mut moved, m.to);
    proof {
        lemma_gain_same_board(p1, after(*pos, m), m.to as int);
    }
    if won_back {
        return None;
    }
    let valid = if king { nk.len() > 0 } else { all.len() >= 2 };
    if !valid {
        return None;
    }
    let gain = if king { top_values(&nk).0 } else { top_values(&all).1 };
    let enemy = pos.stm.flip();
    let pieces = all_pieces();
    let ghost ts = fork_targets(*pos, m, 384);
    let mut refs: Vec<crate::facts::types::PieceRef> = Vec::new();
    let mut i: usize = 0;
    while i < targets.len()
        invariant
            i <= targets@.len(),
            ts == fork_targets(*pos, m, 384),
            targets@.len() == ts.len(),
            forall|j: int| 0 <= j < targets@.len() ==> (#[trigger] targets@[j]).0 as int == ts[j].0 && targets@[j].1 == ts[j].1
                && targets@[j].0 < 6 && targets@[j].1 < 64,
            forall|j: int| 0 <= j < 6 ==> #[trigger] pieces[j] == piece_of_index(j),
            enemy == pos.stm.spec_flip(),
            refs@.len() == i,
            forall|j: int| 0 <= j < i ==> #[trigger] piece_ref_spec(enemy, piece_of_index(ts[j].0), ts[j].1, refs@[j]),
        decreases targets@.len() - i,
    {
        let t = targets[i];
        refs.push(piece_ref(enemy, pieces[t.0], t.1));
        i = i + 1;
    }
    Some(MotifOpportunity {
        kind: String::from_str("fork"),
        validator: String::from_str("fork_validation"),
        move_uci: m.to_uci(),
        forking_piece: piece_ref(pos.stm, fp, m.to),
        targets: refs,
        gives_check: gives,
        king_target: king,
        material_gain: gain,
    })
}

} // verus!

verus! {

/// The facts of the forks, in the order of the legal moves, with the forks
/// they describe.
fn fork_facts(pos: &Position) -> (res: (Vec<MotifOpportunity>, Ghost<Seq<Move>>))
    requires
        pos.wf(),
        perft_ok(*pos, 2),
    ensures
        res.0@.len() == res.1@.len(),
        forall|k: int| 0 <= k < res.1@.len() ==> #[trigger] is_fork(*pos, res.1@[k]) && fork_fact(*pos, res.1@[k], res.0@[k]),
        crate::movegen::lists_exactly(res.1@, fork_pred(*pos)),
{
    assert(movable(*pos));
    let mut probe = pos.duplicate();
    proof {
        crate::movegen::lemma_same_state_moves(probe, *pos);
    }
    let legal = generate_legal(&mut probe);
    let mut facts: Vec<MotifOpportunity> = Vec::new();
    let ghost mut ms: Seq<Move> = Seq::empty();
    let ghost mut idx: Seq<int> = Seq::empty();
    let mut i: usize = 0;
    while i < legal.len()
        invariant
            i <= legal@.len(),
            pos.wf(),
            perft_ok(*pos, 2),
            movable(*pos),
            probe.same_state(*pos),
            crate::movegen::lists_exactly(legal@, |m: Move| legal_move(*pos, m)),
            idx.len() == ms.len(),
            facts@.len() == ms.len(),
            forall|k: int| 0 <= k < idx.len() ==> 0 <= #[trigger] idx[k] < i && legal@[idx[k]] == ms[k],
            forall|k: int, l: int| 0 <= k < l < idx.len() ==> #[trigger] idx[k] < #[trigger] idx[l],
            forall|k: int| 0 <= k < ms.len() ==> #[trigger] is_fork(*pos, ms[k]) && fork_fact(*pos, ms[k], facts@[k]),
            forall|j: int| 0 <= j < i && #[trigger] is_fork(*pos, legal@[j]) ==> exists|k: int| 0 <= k < idx.len() && idx[k] == j,
        decreases legal@.len() - i,
    {
        let m = legal[i];
        assert(legal@.contains(m));
        assert(legal_move(*pos, m));
        let ghost old_idx = idx;
        let ghost old_ms = ms;
        let ghost before = facts@;
        match fork_of(pos, &mut probe, m) {
            Some(f) => {
                facts.push(f);
                proof {
                    ms = ms.push(m);
                    idx = idx.push(i as int);
                }
            },
            None => {},
        }
        proof {
            assert forall|k: int| 0 <= k < ms.len() implies #[trigger] is_fork(*pos, ms[k]) && fork_fact(*pos, ms[k], facts@[k]) by {
                if k < old_ms.len() {
                    assert(ms[k] == old_ms[k] && facts@[k] == before[k]);
                }
            }
            assert forall|j: int| 0 <= j < i + 1 && #[trigger] is_fork(*pos, legal@[j]) implies exists|k: int|
                0 <= k < idx.len() && idx[k] == j by {
                if j < i {
                    let k = choose|k: int| 0 <= k < old_idx.len() && old_idx[k] == j;
                    assert(idx[k] == j);
                } else {
                    assert(idx.len() > old_idx.len());
                    assert(idx[idx.len() - 1] == j);
                }
            }
        }
        i = i + 1;
    }
    proof {
        assert forall|a: int, b: int| 0 <= a < ms.len() && 0 <= b < ms.len() && a != b implies ms[a] != ms[b] by {
            if a < b {
                assert(idx[a] < idx[b]);
            } else {
                assert(idx[b] < idx[a]);
            }
        }
        assert forall|m: Move| #![trigger ms.contains(m)] #![trigger fork_pred(*pos)(m)] ms.contains(m) <==> fork_pred(*pos)(m) by {
            if ms.contains(m) {
                let k = choose|k: int| 0 <= k < ms.len() && ms[k] == m;
                assert(is_fork(*pos, ms[k]));
            }
            if is_fork(*pos, m) {
                assert(legal@.contains(m));
                let j = choose|j: int| 0 <= j < legal@.len() && legal@[j] == m;
                assert(is_fork(*pos, legal@[j]));
                let k = choose|k: int| 0 <= k < idx.len() && idx[k] == j;
                assert(ms[k] == m);
            }
        }
    }
    (facts, Ghost(ms))
}

/// Sorting the facts of the forks yields one per fork, by move.
#[verifier::spinoff_prover]
proof fn lemma_fork_order(pos: Position, ms: Seq<Move>, unsorted: Seq<MotifOpportunity>)
    requires
        unsorted.len() == ms.len(),
        forall|k: int| 0 <= k < ms.len() ==> #[trigger] is_fork(pos, ms[k]) && fork_fact(pos, ms[k], unsorted[k]),
        crate::movegen::lists_exactly(ms, fork_pred(pos)),
    ensures
        forks_ok(pos, sorted_by_key(unsorted)),
{
    lemma_sorted_by_key(unsorted);
    let p = fork_pred(pos);
    assert(crate::movegen::lists_exactly(crate::perft::listing_of(p), p));
    crate::movegen::lemma_listing_len(ms, crate::perft::listing_of(p), p);
    assert forall|i: int| 0 <= i < sorted_by_key(unsorted).len() implies #[trigger] fact_of_a_fork(pos, sorted_by_key(unsorted)[i]) by {
        assert(sorted_by_key(unsorted).contains(sorted_by_key(unsorted)[i]));
        assert(unsorted.contains(sorted_by_key(unsorted)[i]));
        let l = choose|l: int| 0 <= l < unsorted.len() && unsorted[l] == sorted_by_key(unsorted)[i];
        assert(is_fork(pos, ms[l]) && fork_fact(pos, ms[l], unsorted[l]));
    }
    assert forall|m: Move| #[trigger] is_fork(pos, m) implies has_fork_fact(pos, m, sorted_by_key(unsorted)) by {
        assert(p(m));
        assert(ms.contains(m));
        let l = choose|l: int| 0 <= l < ms.len() && ms[l] == m;
        assert(is_fork(pos, ms[l]) && fork_fact(pos, ms[l], unsorted[l]));
        assert(unsorted.contains(unsorted[l]));
        assert(sorted_by_key(unsorted).contains(unsorted[l]));
        let i = choose|i: int| 0 <= i < sorted_by_key(unsorted).len() && sorted_by_key(unsorted)[i] == unsorted[l];
        assert(fork_fact(pos, m, sorted_by_key(unsorted)[i]));
    }
}

/// The forks available to the side to move, ascending by move.
pub fn motif_opportunities(pos: &Position) -> (c: FactCollection<MotifOpportunity>)
    requires
        pos.wf(),
        perft_ok(*pos, 2),
    ensures
        forks_result(*pos, c),
{
    let (facts, Ghost(ms)) = fork_facts(pos);
    proof {
        lemma_fork_order(*pos, ms, facts@);
    }
    FactCollection::computed(sort_by_key(facts))
}


/// The forks that `side` could play: refused for the side not to move while
/// the side to move is in check, else those of the probe with `side` to move.
pub fn motif_opportunities_for(pos: &Position, side: Color) -> (c: FactCollection<MotifOpportunity>)
    requires
        pos.wf(),
        pos.stm == side ==> perft_ok(*pos, 2),
        pos.stm != side ==> pos.pieces[pos.stm.spec_index()][5] != 0 && (!stm_king_attacked_by(*pos, side) ==> forall|p: Position| #[trigger] crate::facts::position::handed_over(*pos, side, p) ==> perft_ok(p, 2)),
    ensures
        pos.stm != side && stm_king_attacked_by(*pos, side) ==> unavailable_because(c, "opposite_side_probe_while_in_check"@),
        !(pos.stm != side && stm_king_attacked_by(*pos, side)) ==> exists|p: Position| #[trigger] analysis_probe(*pos, side, p) && forks_result(p, c),
{
    match position_for_analysis_side(pos, side) {
        Ok(probe) => {
            proof {
                if pos.stm == side {
                    crate::perft::lemma_board_perft(probe, *pos, 2);
                }
            }
            let c = motif_opportunities(&probe);
            assert(analysis_probe(*pos, side, probe));
            c
        },
        Err(reason) => FactCollection::unavailable(reason),
    }
}

} // verus!
