//! Double attacks: one move after which the moved piece threatens to win an
//! enemy piece and a second piece of ours, not unveiled by the move, can now
//! win another, at least one of the two undefended, so one reply cannot save
//! both.
use vstd::prelude::*;
use crate::attacks::attacker_on;
use crate::bits::bit;
use crate::facts::captures::{can_win_back, capturable_for_gain, checks, lemma_gain_same_board, rank_value};
use crate::facts::discovery::mover_threat;
use crate::facts::forks::{forker, undefended};
use crate::facts::lines::{is_slider, least_below, slider_reach};
use crate::facts::piece_safety::{piece_ref, piece_ref_spec};
use crate::facts::position::{analysis_probe, ep_short_of_promotion, position_for_analysis_side, stm_king_attacked_by};
use crate::facts::remove_guard::{best_capture_see, best_see, lemma_best_see_transfer};
use crate::facts::types::{unavailable_because, DoubleAttackOpportunity, FactCollection};
use crate::facts::xrays::{can_take, handed};
use crate::movegen::{generate_legal, legal_move, lists_exactly, movable};
use crate::order::{key_sorted, lemma_sorted_by_key, sort_by_key, sorted_by_key};
use crate::perft::{after, lemma_board_moves, lemma_child, perft_ok};
use crate::position::{spec_piece_at, Position};
use crate::see::see_spec;
use crate::{piece_of_index, uci_text, Color, Move, Piece};

verus! {

/// Candidate `k` (0..320) for the moved piece's target, by square and then
/// type: it is an enemy piece (not the king) that the moved piece attacks and
/// could win, worth `threat`.
pub open spec fn mover_target(pos: Position, m: Move, threat: int, k: int) -> bool {
    let a = after(pos, m);
    let e = pos.stm.spec_flip();
    let p = k % 5;
    let sq = k / 5;
    let v = rank_value(piece_of_index(p));
    let mv = rank_value(spec_piece_at(a, m.to as u64).unwrap().1);
    &&& bit(a.pieces[e.spec_index()][p], sq as u64)
    &&& attacker_on(a.pieces, pos.stm, m.to as u64, sq, a.all)
    &&& (v > mv || undefended(a, e, sq))
    &&& v == threat
}

pub open spec fn mover_target_pred(pos: Position, m: Move, threat: int) -> spec_fn(int) -> bool {
    |k: int| mover_target(pos, m, threat, k)
}

/// The piece on `s` has a legal capture onto `t` in `p` that wins by exchange.
pub open spec fn can_take_winning(p: Position, s: int, t: int) -> bool {
    can_take(p, s, t) && see_spec(p, s as u8, t as u8) > 0
}

/// A slider on `q` that reaches `t` only because the move left `from`.
pub open spec fn unveiled_pair(p: Piece, q: int, t: int, before: u64, after_occ: u64, from: int) -> bool {
    is_slider(p) && !slider_reach(p, q, t, before) && slider_reach(p, q, t, after_occ) && slider_reach(p, q, from, before)
}

/// Pair candidate `n` (0..102400): our piece (not the king) `q` by type and
/// square, then the enemy piece (not the king) `t` by type and square; the
/// material it makes winnable, given the first target on `a_sq`.
pub open spec fn pair_at(pos: Position, m: Move, a_sq: int, a_und: bool, threat: int, n: int) -> Option<int> {
    let a = after(pos, m);
    let us = pos.stm;
    let e = us.spec_flip();
    let h = handed(a, us);
    let qp = (n / 320) / 64;
    let q = (n / 320) % 64;
    let tp = (n % 320) / 64;
    let t = (n % 320) % 64;
    if bit(a.pieces[us.spec_index()][qp], q as u64) && q != m.to && bit(a.pieces[e.spec_index()][tp], t as u64) && t != a_sq
        && attacker_on(a.pieces, us, q as u64, t, a.all) && !capturable_for_gain(pos, t) && best_see(h, t) > 0 && see_spec(
        h,
        q as u8,
        t as u8,
    ) > 0 && !unveiled_pair(piece_of_index(qp), q, t, pos.all, a.all, m.from as int) && (a_und || undefended(a, e, t)) {
        Some(if threat < best_see(h, t) { threat } else { best_see(h, t) })
    } else {
        None
    }
}

/// The first pair below `n` with the highest gain.
pub open spec fn best_pair(pos: Position, m: Move, a_sq: int, a_und: bool, threat: int, n: nat) -> Option<int>
    decreases n,
{
    if n == 0 {
        None
    } else {
        let prev = best_pair(pos, m, a_sq, a_und, threat, (n - 1) as nat);
        match pair_at(pos, m, a_sq, a_und, threat, n - 1) {
            Some(g) => match prev {
                Some(p) => if pair_at(pos, m, a_sq, a_und, threat, p).unwrap() >= g {
                    prev
                } else {
                    Some(n - 1)
                },
                None => Some(n - 1),
            },
            None => prev,
        }
    }
}

/// The first target of the double attack by `m`: (candidate, square).
pub open spec fn first_target(pos: Position, m: Move) -> int {
    least_below(mover_target_pred(pos, m, mover_threat(after(pos, m), pos.stm, m.to as int)), 320).unwrap()
}

/// The best pair of the double attack by `m`.
pub open spec fn chosen_pair(pos: Position, m: Move) -> Option<int> {
    let a = after(pos, m);
    let k = first_target(pos, m);
    best_pair(pos, m, k / 5, undefended(a, pos.stm.spec_flip(), k / 5), mover_threat(a, pos.stm, m.to as int), 102400)
}

/// `m` is a legal move, not of the king, after which the moved piece cannot
/// be won back, the side to move is not in check, the moved piece can legally
/// win its target, and a second piece of ours can win another.
pub open spec fn is_double_attack(pos: Position, m: Move) -> bool {
    let a = after(pos, m);
    let threat = mover_threat(a, pos.stm, m.to as int);
    &&& legal_move(pos, m)
    &&& spec_piece_at(pos, m.from as u64) is Some
    &&& forker(pos, m) != Piece::King
    &&& !capturable_for_gain(a, m.to as int)
    &&& !stm_king_attacked_by(a, pos.stm)
    &&& threat > 0
    &&& least_below(mover_target_pred(pos, m, threat), 320) is Some
    &&& can_take_winning(handed(a, pos.stm), m.to as int, first_target(pos, m) / 5)
    &&& chosen_pair(pos, m) is Some
}

/// The fact of the double attack by `m`.
pub open spec fn double_attack_fact(pos: Position, m: Move, f: DoubleAttackOpportunity) -> bool {
    let a = after(pos, m);
    let e = pos.stm.spec_flip();
    let k = first_target(pos, m);
    let n = chosen_pair(pos, m).unwrap();
    &&& f.kind@ == "double_attack"@
    &&& f.validator@ == "double_attack_validation"@
    &&& f.move_uci@ == uci_text(m)
    &&& piece_ref_spec(pos.stm, forker(pos, m), m.to, f.mover)
    &&& piece_ref_spec(pos.stm, piece_of_index((n / 320) / 64), ((n / 320) % 64) as u8, f.second_attacker)
    &&& piece_ref_spec(e, piece_of_index(k % 5), (k / 5) as u8, f.target_a)
    &&& piece_ref_spec(e, piece_of_index((n % 320) / 64), ((n % 320) % 64) as u8, f.target_b)
    &&& f.gives_check == checks(pos, m)
    &&& f.material_gain == pair_at(
        pos,
        m,
        k / 5,
        undefended(a, e, k / 5),
        mover_threat(a, pos.stm, m.to as int),
        n,
    ).unwrap()
}

pub open spec fn double_attack_pred(pos: Position) -> spec_fn(Move) -> bool {
    |m: Move| is_double_attack(pos, m)
}

pub open spec fn fact_of_a_double_attack(pos: Position, f: DoubleAttackOpportunity) -> bool {
    exists|m: Move| #[trigger] is_double_attack(pos, m) && double_attack_fact(pos, m, f)
}

pub open spec fn has_double_attack_fact(pos: Position, m: Move, out: Seq<DoubleAttackOpportunity>) -> bool {
    exists|i: int| 0 <= i < out.len() && double_attack_fact(pos, m, #[trigger] out[i])
}

/// One fact per double-attacking move of the side to move, ascending by move.
pub open spec fn double_attacks_ok(pos: Position, out: Seq<DoubleAttackOpportunity>) -> bool {
    &&& out.len() == crate::perft::listing_of(double_attack_pred(pos)).len()
    &&& forall|i: int| 0 <= i < out.len() ==> #[trigger] fact_of_a_double_attack(pos, out[i])
    &&& forall|m: Move| #[trigger] is_double_attack(pos, m) ==> has_double_attack_fact(pos, m, out)
    &&& key_sorted(out)
}

pub open spec fn double_attacks_result(pos: Position, c: FactCollection<DoubleAttackOpportunity>) -> bool {
    match c {
        FactCollection::Computed { items } => double_attacks_ok(pos, items@),
        _ => false,
    }
}

} // verus!

verus! {

/// The first candidate for the moved piece's target worth `threat`, read from
/// `p1`, the position after `m`.
fn find_mover_target(p1: &Position, Ghost(pos): Ghost<Position>, m: Move, threat: i32) -> (r: Option<u32>)
    requires
        crate::perft::same_board(*p1, after(pos, m)),
        p1.board_wf(),
        m.to < 64,
        threat > 0,
        threat == mover_threat(after(pos, m), pos.stm, m.to as int),
    ensures
        match r {
            Some(k) => least_below(mover_target_pred(pos, m, threat as int), 320) == Some(k as int) && k < 320,
            None => least_below(mover_target_pred(pos, m, threat as int), 320) is None,
        },
{
    let ghost a = after(pos, m);
    let ghost f = mover_target_pred(pos, m, threat as int);
    let mp = match p1.piece_at(m.to) {
        Some(x) => x.1,
        None => {
            return None;
        },
    };
    let us = if p1.stm == Color::White { Color::Black } else { Color::White };
    assert(us == pos.stm);
    let enemy = us.flip();
    let mv = crate::facts::forks::value_of_index(mp.index());
    let to_bit = 1u64 << (m.to as u64);
    let mut k: u32 = 0;
    while k < 320
        invariant
            k <= 320,
            crate::perft::same_board(*p1, a),
            a == after(pos, m),
            p1.board_wf(),
            m.to < 64,
            us == pos.stm,
            enemy == us.spec_flip(),
            to_bit == 1u64 << (m.to as u64),
            mv == rank_value(spec_piece_at(a, m.to as u64).unwrap().1),
            f == mover_target_pred(pos, m, threat as int),
            forall|u: int| 0 <= u < k ==> !#[trigger] f(u),
        decreases 320 - k,
    {
        let p = (k % 5) as usize;
        let sq = (k / 5) as u8;
        let v = crate::facts::forks::value_of_index(p);
        let mut hit = false;
        if p1.pieces[enemy.index()][p] & (1u64 << (sq as u64)) != 0 && v == threat {
            let att = crate::attacks::attackers_of(&p1.pieces, sq, us, p1.all);
            if att & to_bit != 0 {
                assert(bit(att, m.to as u64));
                let und = crate::facts::discovery::no_defender(p1, enemy, sq);
                proof {
                    crate::facts::discovery::lemma_undefended_same_board(*p1, a, enemy, sq as int);
                }
                hit = v > mv || und;
            } else {
                assert(!bit(att, m.to as u64));
            }
        }
        assert(hit == f(k as int));
        if hit {
            proof {
                crate::facts::pins::lemma_least_is(f, 320, k as int);
            }
            return Some(k);
        }
        k = k + 1;
    }
    proof {
        crate::facts::lines::lemma_least_below(f, 320);
        match least_below(f, 320) {
            Some(z) => {
                assert(f(z));
            },
            None => {},
        }
    }
    None
}

/// Whether the piece on `s` has a legal capture onto `t` in `h`, whose legal
/// moves are `legal_h`, that wins by exchange.
fn takes_winning(h: &Position, legal_h: &Vec<Move>, s: u8, t: u8) -> (b: bool)
    requires
        h.board_wf(),
        lists_exactly(legal_h@, |m2: Move| legal_move(*h, m2)),
        s < 64,
        t < 64,
    ensures
        b == can_take_winning(*h, s as int, t as int),
{
    let v = crate::see::see(h, s, t);
    if v <= 0 {
        return false;
    }
    let mut found = false;
    let mut i: usize = 0;
    while i < legal_h.len()
        invariant
            i <= legal_h@.len(),
            lists_exactly(legal_h@, |m2: Move| legal_move(*h, m2)),
            found == exists|j: int| 0 <= j < i && (#[trigger] legal_h@[j]).from == s && legal_h@[j].to == t,
        decreases legal_h@.len() - i,
    {
        let m2 = legal_h[i];
        if m2.from == s && m2.to == t {
            found = true;
        }
        i = i + 1;
    }
    proof {
        if found {
            let j = choose|j: int| 0 <= j < legal_h@.len() && (#[trigger] legal_h@[j]).from == s && legal_h@[j].to == t;
            assert(legal_h@.contains(legal_h@[j]));
            assert(legal_move(*h, legal_h@[j]));
        } else if can_take(*h, s as int, t as int) {
            let m2 = choose|m2: Move| #[trigger] legal_move(*h, m2) && m2.from as int == s as int && m2.to as int == t as int;
            assert(legal_h@.contains(m2));
            let j = choose|j: int| 0 <= j < legal_h@.len() && legal_h@[j] == m2;
            assert(legal_h@[j].from == s && legal_h@[j].to == t);
        }
    }
    found
}

} // verus!

verus! {

/// Pair candidate `n`'s gain, read from `p1` (the position after `m`), `h`
/// (the same with the mover to move, whose legal moves are `legal_h`) and a
/// copy `pos_probe` of `pos`.
fn pair_candidate(
    pos: &Position,
    p1: &Position,
    pos_probe: &mut Position,
    h: &Position,
    legal_h: &Vec<Move>,
    m: Move,
    a_sq: u8,
    a_und: bool,
    threat: i32,
    n: u32,
) -> (r: Option<i32>)
    requires
        crate::perft::same_board(*p1, after(*pos, m)),
        p1.board_wf(),
        old(pos_probe).same_state(*pos),
        movable(*pos),
        crate::perft::same_board(*h, handed(after(*pos, m), pos.stm)),
        h.board_wf(),
        lists_exactly(legal_h@, |m2: Move| legal_move(*h, m2)),
        forall|j: int| 0 <= j < legal_h@.len() ==> (#[trigger] legal_h@[j]).from < 64 && legal_h@[j].to < 64,
        m.from < 64,
        m.to < 64,
        a_sq < 64,
        n < 102400,
    ensures
        final(pos_probe).same_state(*pos),
        match r {
            Some(g) => pair_at(*pos, m, a_sq as int, a_und, threat as int, n as int) == Some(g as int),
            None => pair_at(*pos, m, a_sq as int, a_und, threat as int, n as int) is None,
        },
{
    let ghost a = after(*pos, m);
    let us = pos.stm;
    let enemy = us.flip();
    let qp = ((n / 320) / 64) as usize;
    let q = ((n / 320) % 64) as u8;
    let tp = ((n % 320) / 64) as usize;
    let t = ((n % 320) % 64) as u8;
    if p1.pieces[us.index()][qp] & (1u64 << (q as u64)) == 0 || q == m.to {
        return None;
    }
    if p1.pieces[enemy.index()][tp] & (1u64 << (t as u64)) == 0 || t == a_sq {
        return None;
    }
    let att = crate::attacks::attackers_of(&p1.pieces, t, us, p1.all);
    if att & (1u64 << (q as u64)) == 0 {
        assert(!bit(att, q as u64));
        return None;
    }
    assert(bit(att, q as u64));
    let ghost pp0 = *pos_probe;
    let cap = can_win_back(pos_probe, t);
    proof {
        lemma_gain_same_board(pp0, *pos, t as int);
    }
    if cap {
        return None;
    }
    let gb = best_capture_see(h, legal_h, t);
    proof {
        lemma_best_see_transfer(*h, handed(a, us), t as int, gb as int);
    }
    if gb <= 0 {
        return None;
    }
    let sv = crate::see::see(h, q, t);
    assert(see_spec(*h, q, t) == see_spec(handed(a, us), q, t));
    if sv <= 0 {
        return None;
    }
    let pieces = crate::all_pieces();
    let qpiece = pieces[qp];
    assert(qpiece == piece_of_index(qp as int));
    let unveil = match crate::facts::lines::slider_attacks(qpiece, q, pos.all) {
        Some(before) => {
            let after_ray = match crate::facts::lines::slider_attacks(qpiece, q, p1.all) {
                Some(x) => x,
                None => 0,
            };
            let tb = 1u64 << (t as u64);
            let fb = 1u64 << (m.from as u64);
            if before & tb != 0 {
                assert(bit(before, t as u64));
                false
            } else {
                assert(!bit(before, t as u64));
                assert((after_ray & tb != 0) == bit(after_ray, t as u64));
                assert((before & fb != 0) == bit(before, m.from as u64));
                after_ray & tb != 0 && before & fb != 0
            }
        },
        None => false,
    };
    assert(unveil == unveiled_pair(piece_of_index(qp as int), q as int, t as int, pos.all, a.all, m.from as int));
    if unveil {
        return None;
    }
    if !a_und {
        let und = crate::facts::discovery::no_defender(p1, enemy, t);
        proof {
            crate::facts::discovery::lemma_undefended_same_board(*p1, a, enemy, t as int);
        }
        if !und {
            return None;
        }
    }
    Some(if threat < gb { threat } else { gb })
}

} // verus!

verus! {

/// The best pair of the double attack by `m`, with its gain.
fn find_pair(
    pos: &Position,
    p1: &Position,
    pos_probe: &mut Position,
    h: &Position,
    legal_h: &Vec<Move>,
    m: Move,
    a_sq: u8,
    a_und: bool,
    threat: i32,
) -> (r: Option<(u32, i32)>)
    requires
        crate::perft::same_board(*p1, after(*pos, m)),
        p1.board_wf(),
        old(pos_probe).same_state(*pos),
        movable(*pos),
        crate::perft::same_board(*h, handed(after(*pos, m), pos.stm)),
        h.board_wf(),
        lists_exactly(legal_h@, |m2: Move| legal_move(*h, m2)),
        forall|j: int| 0 <= j < legal_h@.len() ==> (#[trigger] legal_h@[j]).from < 64 && legal_h@[j].to < 64,
        m.from < 64,
        m.to < 64,
        a_sq < 64,
    ensures
        final(pos_probe).same_state(*pos),
        match r {
            Some((n, g)) => best_pair(*pos, m, a_sq as int, a_und, threat as int, 102400) == Some(n as int) && pair_at(
                *pos,
                m,
                a_sq as int,
                a_und,
                threat as int,
                n as int,
            ) == Some(g as int) && n < 102400,
            None => best_pair(*pos, m, a_sq as int, a_und, threat as int, 102400) is None,
        },
{
    let mut best: Option<(u32, i32)> = None;
    let mut n: u32 = 0;
    while n < 102400
        invariant
            n <= 102400,
            crate::perft::same_board(*p1, after(*pos, m)),
            p1.board_wf(),
            pos_probe.same_state(*pos),
            movable(*pos),
            crate::perft::same_board(*h, handed(after(*pos, m), pos.stm)),
            h.board_wf(),
            lists_exactly(legal_h@, |m2: Move| legal_move(*h, m2)),
            forall|j: int| 0 <= j < legal_h@.len() ==> (#[trigger] legal_h@[j]).from < 64 && legal_h@[j].to < 64,
            m.from < 64,
            m.to < 64,
            a_sq < 64,
            match best {
                Some((bn, bg)) => best_pair(*pos, m, a_sq as int, a_und, threat as int, n as nat) == Some(bn as int) && pair_at(
                    *pos,
                    m,
                    a_sq as int,
                    a_und,
                    threat as int,
                    bn as int,
                ) == Some(bg as int) && bn < 102400,
                None => best_pair(*pos, m, a_sq as int, a_und, threat as int, n as nat) is None,
            },
        decreases 102400 - n,
    {
        match pair_candidate(pos, p1, pos_probe, h, legal_h, m, a_sq, a_und, threat, n) {
            Some(g) => {
                let replace = match best {
                    Some((_, bg)) => bg < g,
                    None => true,
                };
                if replace {
                    best = Some((n, g));
                }
            },
            None => {},
        }
        n = n + 1;
    }
    best
}

/// The double-attack fact of the legal move `m`, if it double-attacks.
/// `probe` is a copy of `pos` used to test for check; it is left as it was.
fn double_attack_of(pos: &Position, probe: &mut Position, m: Move) -> (r: Option<DoubleAttackOpportunity>)
    requires
        pos.wf(),
        perft_ok(*pos, 2),
        ep_short_of_promotion(*pos),
        legal_move(*pos, m),
        old(probe).same_state(*pos),
    ensures
        final(probe).same_state(*pos),
        r matches Some(f) ==> is_double_attack(*pos, m) && double_attack_fact(*pos, m, f),
        r is None ==> !is_double_attack(*pos, m),
{
    assert(movable(*pos));
    proof {
        crate::movegen::lemma_pseudo_consistent(*pos, m);
    }
    let mp = match pos.piece_at(m.from) {
        Some((_, p)) => p,
        None => {
            return None;
        },
    };
    let fp = match m.flag.promo_piece() {
        Some(p) => p,
        None => mp,
    };
    assert(fp == forker(*pos, m));
    if fp == Piece::King {
        return None;
    }
    proof {
        crate::movegen::lemma_same_state_moves(*probe, *pos);
        crate::perft::lemma_board_after(*probe, *pos, m);
        assert(perft_ok(after(*pos, m), 1));
    }
    let gives = crate::movegen::gives_check(probe, m);
    let mut moved = pos.duplicate();
    proof {
        crate::movegen::lemma_same_state_moves(moved, *pos);
        crate::movegen::lemma_pseudo_consistent(moved, m);
    }
    let ghost before_make = moved;
    moved.make(m);
    let ghost p1 = moved;
    let ghost a = after(*pos, m);
    proof {
        lemma_child(*pos, before_make, m, moved, 1);
        lemma_board_moves(moved, after(*pos, m));
    }
    let won_back = can_win_back(&mut moved, m.to);
    proof {
        lemma_gain_same_board(p1, after(*pos, m), m.to as int);
    }
    if won_back {
        return None;
    }
    let us = pos.stm;
    let enemy = us.flip();
    let mut h = match position_for_analysis_side(&moved, us) {
        Ok(p) => p,
        Err(_) => {
            return None;
        },
    };
    proof {
        crate::facts::position::lemma_after_analysable(*pos, m, moved);
        crate::facts::position::lemma_probe_movable(moved, us, h);
    }
    let ghost h0 = h;
    let legal_h = generate_legal(&mut h);
    proof {
        crate::movegen::lemma_same_state_moves(h, h0);
        assert forall|j: int| 0 <= j < legal_h@.len() implies (#[trigger] legal_h@[j]).from < 64 && legal_h@[j].to < 64 by {
            assert(legal_h@.contains(legal_h@[j]));
            assert(legal_move(h, legal_h@[j]));
        }
        lemma_board_moves(h, handed(a, us));
    }
    let threat = crate::facts::discovery::threat_gain(&moved, Ghost(*pos), m);
    if threat <= 0 {
        return None;
    }
    let k = match find_mover_target(&moved, Ghost(*pos), m, threat) {
        Some(k) => k,
        None => {
            return None;
        },
    };
    let a_sq = (k / 5) as u8;
    let ap = (k % 5) as usize;
    let win = takes_winning(&h, &legal_h, m.to, a_sq);
    proof {
        assert forall|x: Move| #[trigger] legal_move(h, x) == legal_move(handed(a, us), x) by {}
        assert(see_spec(h, m.to, a_sq) == see_spec(handed(a, us), m.to, a_sq));
        if can_take(h, m.to as int, a_sq as int) {
            let m2 = choose|m2: Move| #[trigger] legal_move(h, m2) && m2.from as int == m.to as int && m2.to as int == a_sq as int;
            assert(legal_move(handed(a, us), m2));
        }
        if can_take(handed(a, us), m.to as int, a_sq as int) {
            let m2 = choose|m2: Move| #[trigger] legal_move(handed(a, us), m2) && m2.from as int == m.to as int && m2.to as int == a_sq as int;
            assert(legal_move(h, m2));
        }
    }
    if !win {
        return None;
    }
    let a_und = crate::facts::discovery::no_defender(&moved, enemy, a_sq);
    proof {
        crate::facts::discovery::lemma_undefended_same_board(moved, a, enemy, a_sq as int);
    }
    let mut pos_probe = pos.duplicate();
    let (n, gain) = match find_pair(pos, &moved, &mut pos_probe, &h, &legal_h, m, a_sq, a_und, threat) {
        Some(x) => x,
        None => {
            return None;
        },
    };
    let pieces = crate::all_pieces();
    let qp = ((n / 320) / 64) as usize;
    let q = ((n / 320) % 64) as u8;
    let tp = ((n % 320) / 64) as usize;
    let t = ((n % 320) % 64) as u8;
    Some(DoubleAttackOpportunity {
        kind: String::from_str("double_attack"),
        validator: String::from_str("double_attack_validation"),
        move_uci: m.to_uci(),
        mover: piece_ref(us, fp, m.to),
        second_attacker: piece_ref(us, pieces[qp], q),
        target_a: piece_ref(enemy, pieces[ap], a_sq),
        target_b: piece_ref(enemy, pieces[tp], t),
        gives_check: gives,
        material_gain: gain,
    })
}

} // verus!

verus! {

/// The facts of the double attacks, in the order of the legal moves, with the double attacks
/// they describe.
fn double_attack_facts(pos: &Position) -> (res: (Vec<DoubleAttackOpportunity>, Ghost<Seq<Move>>))
    requires
        pos.wf(),
        perft_ok(*pos, 2),
        ep_short_of_promotion(*pos),
    ensures
        res.0@.len() == res.1@.len(),
        forall|k: int| 0 <= k < res.1@.len() ==> #[trigger] is_double_attack(*pos, res.1@[k]) && double_attack_fact(*pos, res.1@[k], res.0@[k]),
        crate::movegen::lists_exactly(res.1@, double_attack_pred(*pos)),
{
    assert(movable(*pos));
    let mut probe = pos.duplicate();
    proof {
        crate::movegen::lemma_same_state_moves(probe, *pos);
    }
    let legal = generate_legal(&mut probe);
    let mut facts: Vec<DoubleAttackOpportunity> = Vec::new();
    let ghost mut ms: Seq<Move> = Seq::empty();
    let ghost mut idx: Seq<int> = Seq::empty();
    let mut i: usize = 0;
    while i < legal.len()
        invariant
            i <= legal@.len(),
            pos.wf(),
            perft_ok(*pos, 2),
            ep_short_of_promotion(*pos),
            movable(*pos),
            probe.same_state(*pos),
            crate::movegen::lists_exactly(legal@, |m: Move| legal_move(*pos, m)),
            idx.len() == ms.len(),
            facts@.len() == ms.len(),
            forall|k: int| 0 <= k < idx.len() ==> 0 <= #[trigger] idx[k] < i && legal@[idx[k]] == ms[k],
            forall|k: int, l: int| 0 <= k < l < idx.len() ==> #[trigger] idx[k] < #[trigger] idx[l],
            forall|k: int| 0 <= k < ms.len() ==> #[trigger] is_double_attack(*pos, ms[k]) && double_attack_fact(*pos, ms[k], facts@[k]),
            forall|j: int| 0 <= j < i && #[trigger] is_double_attack(*pos, legal@[j]) ==> exists|k: int| 0 <= k < idx.len() && idx[k] == j,
        decreases legal@.len() - i,
    {
        let m = legal[i];
        assert(legal@.contains(m));
        assert(legal_move(*pos, m));
        let ghost old_idx = idx;
        let ghost old_ms = ms;
        let ghost before = facts@;
        match double_attack_of(pos, &mut probe, m) {
            Some(f) => {
                facts.push(f);
                proof {
                    ms = ms.push(m);
                    idx = idx.push(i as int);
                }
            },
            None => {},
        }
        proof {
            assert forall|k: int| 0 <= k < ms.len() implies #[trigger] is_double_attack(*pos, ms[k]) && double_attack_fact(*pos, ms[k], facts@[k]) by {
                if k < old_ms.len() {
                    assert(ms[k] == old_ms[k] && facts@[k] == before[k]);
                }
            }
            assert forall|j: int| 0 <= j < i + 1 && #[trigger] is_double_attack(*pos, legal@[j]) implies exists|k: int|
                0 <= k < idx.len() && idx[k] == j by {
                if j < i {
                    let k = choose|k: int| 0 <= k < old_idx.len() && old_idx[k] == j;
                    assert(idx[k] == j);
                } else {
                    assert(idx.len() > old_idx.len());
                    assert(idx[idx.len() - 1] == j);
                }
            }
        }
        i = i + 1;
    }
    proof {
        assert forall|a: int, b: int| 0 <= a < ms.len() && 0 <= b < ms.len() && a != b implies ms[a] != ms[b] by {
            if a < b {
                assert(idx[a] < idx[b]);
            } else {
                assert(idx[b] < idx[a]);
            }
        }
        assert forall|m: Move| #![trigger ms.contains(m)] #![trigger double_attack_pred(*pos)(m)] ms.contains(m) <==> double_attack_pred(*pos)(m) by {
            if ms.contains(m) {
                let k = choose|k: int| 0 <= k < ms.len() && ms[k] == m;
                assert(is_double_attack(*pos, ms[k]));
            }
            if is_double_attack(*pos, m) {
                assert(legal@.contains(m));
                let j = choose|j: int| 0 <= j < legal@.len() && legal@[j] == m;
                assert(is_double_attack(*pos, legal@[j]));
                let k = choose|k: int| 0 <= k < idx.len() && idx[k] == j;
                assert(ms[k] == m);
            }
        }
    }
    (facts, Ghost(ms))
}

/// Sorting the facts of the double attacks yields one per such move, by move.
#[verifier::spinoff_prover]
proof fn lemma_double_attack_order(pos: Position, ms: Seq<Move>, unsorted: Seq<DoubleAttackOpportunity>)
    requires
        unsorted.len() == ms.len(),
        forall|k: int| 0 <= k < ms.len() ==> #[trigger] is_double_attack(pos, ms[k]) && double_attack_fact(pos, ms[k], unsorted[k]),
        crate::movegen::lists_exactly(ms, double_attack_pred(pos)),
    ensures
        double_attacks_ok(pos, sorted_by_key(unsorted)),
{
    lemma_sorted_by_key(unsorted);
    let p = double_attack_pred(pos);
    assert(crate::movegen::lists_exactly(crate::perft::listing_of(p), p));
    crate::movegen::lemma_listing_len(ms, crate::perft::listing_of(p), p);
    assert forall|i: int| 0 <= i < sorted_by_key(unsorted).len() implies #[trigger] fact_of_a_double_attack(pos, sorted_by_key(unsorted)[i]) by {
        assert(sorted_by_key(unsorted).contains(sorted_by_key(unsorted)[i]));
        assert(unsorted.contains(sorted_by_key(unsorted)[i]));
        let l = choose|l: int| 0 <= l < unsorted.len() && unsorted[l] == sorted_by_key(unsorted)[i];
        assert(is_double_attack(pos, ms[l]) && double_attack_fact(pos, ms[l], unsorted[l]));
    }
    assert forall|m: Move| #[trigger] is_double_attack(pos, m) implies has_double_attack_fact(pos, m, sorted_by_key(unsorted)) by {
        assert(p(m));
        assert(ms.contains(m));
        let l = choose|l: int| 0 <= l < ms.len() && ms[l] == m;
        assert(is_double_attack(pos, ms[l]) && double_attack_fact(pos, ms[l], unsorted[l]));
        assert(unsorted.contains(unsorted[l]));
        assert(sorted_by_key(unsorted).contains(unsorted[l]));
        let i = choose|i: int| 0 <= i < sorted_by_key(unsorted).len() && sorted_by_key(unsorted)[i] == unsorted[l];
        assert(double_attack_fact(pos, m, sorted_by_key(unsorted)[i]));
    }
}

/// The double attacks available to the side to move, ascending by move.
pub fn double_attack_opportunities(pos: &Position) -> (c: FactCollection<DoubleAttackOpportunity>)
    requires
        pos.wf(),
        perft_ok(*pos, 2),
        ep_short_of_promotion(*pos),
    ensures
        double_attacks_result(*pos, c),
{
    let (facts, Ghost(ms)) = double_attack_facts(pos);
    proof {
        lemma_double_attack_order(*pos, ms, facts@);
    }
    FactCollection::computed(sort_by_key(facts))
}


/// The double attacks that `side` could make: refused for the side not to move while
/// the side to move is in check, else those of the probe with `side` to move.
pub fn double_attack_opportunities_for(pos: &Position, side: Color) -> (c: FactCollection<DoubleAttackOpportunity>)
    requires
        pos.wf(),
        pos.stm == side ==> perft_ok(*pos, 2) && ep_short_of_promotion(*pos),
        pos.stm != side ==> pos.pieces[pos.stm.spec_index()][5] != 0 && (!stm_king_attacked_by(*pos, side) ==> forall|p: Position| #[trigger] crate::facts::position::handed_over(*pos, side, p) ==> perft_ok(p, 2)),
    ensures
        pos.stm != side && stm_king_attacked_by(*pos, side) ==> unavailable_because(c, "opposite_side_probe_while_in_check"@),
        !(pos.stm != side && stm_king_attacked_by(*pos, side)) ==> exists|p: Position| #[trigger] analysis_probe(*pos, side, p) && double_attacks_result(p, c),
{
    match position_for_analysis_side(pos, side) {
        Ok(probe) => {
            proof {
                if pos.stm == side {
                    crate::perft::lemma_board_perft(probe, *pos, 2);
                }
            }
            let c = double_attack_opportunities(&probe);
            assert(analysis_probe(*pos, side, probe));
            c
        },
        Err(reason) => FactCollection::unavailable(reason),
    }
}

} // verus!
