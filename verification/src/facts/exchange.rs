//! Winning the exchange: a capture of an enemy rook by our knight or bishop
//! whose exchange, and whose worst outcome over every legal enemy reply, nets
//! a rook for a minor piece.
use vstd::prelude::*;
use crate::bits::bit;
use crate::facts::captures::checks;
use crate::facts::forks::forker;
use crate::facts::piece_safety::{piece_ref, piece_ref_spec};
use crate::facts::position::{analysis_probe, position_for_analysis_side, stm_king_attacked_by};
use crate::facts::remove_guard::{best_capture_see, best_see, lemma_best_see_transfer, victim_of};
use crate::facts::types::{unavailable_because, FactCollection, WinExchangeOpportunity};
use crate::movegen::{generate_legal, legal_move, lists_exactly, movable};
use crate::order::{key_sorted, lemma_sorted_by_key, sort_by_key, sorted_by_key};
use crate::perft::{after, lemma_board_moves, lemma_child, perft_ok};
use crate::position::{spec_piece_at, Position};
use crate::see::{piece_value, see_spec};
use crate::{uci_text, Color, Move, MoveFlag, Piece};

verus! {

/// The least net of a rook-for-minor exchange.
pub const WIN_EXCHANGE_MIN: i32 = 150;

/// The greatest net of a rook-for-minor exchange.
pub const WIN_EXCHANGE_MAX: i32 = 185;

/// What the enemy reply `r` in `a` takes: the piece on its target square and
/// what a promotion adds.
pub open spec fn reply_debit(a: Position, r: Move) -> int {
    (match spec_piece_at(a, r.to as u64) {
        Some(x) => piece_value(x.1),
        None => 0,
    }) + (match r.flag.spec_promo_piece() {
        Some(p) => piece_value(p) - 100,
        None => 0,
    })
}

/// What we win back on `sq` after the enemy reply `r` in `a`, when an enemy
/// piece then stands there.
pub open spec fn reply_recovery(a: Position, r: Move, sq: int) -> int {
    let b = after(a, r);
    if bit(b.occ[a.stm.spec_index()], sq as u64) && best_see(b, sq) > 0 {
        best_see(b, sq)
    } else {
        0
    }
}

/// Our net after the enemy reply `r` in `a`, having banked `banked` for the
/// rook taken on `sq`.
pub open spec fn reply_net(a: Position, r: Move, sq: int, banked: int) -> int {
    banked + reply_recovery(a, r, sq) - reply_debit(a, r)
}

/// `w` is our least net over the legal enemy replies in `a`.
pub open spec fn worst_net(a: Position, sq: int, banked: int, w: int) -> bool {
    &&& forall|r: Move| #[trigger] legal_move(a, r) ==> w <= reply_net(a, r, sq, banked)
    &&& exists|r: Move| #[trigger] legal_move(a, r) && reply_net(a, r, sq, banked) == w
}

pub open spec fn in_band(v: int) -> bool {
    WIN_EXCHANGE_MIN <= v <= WIN_EXCHANGE_MAX
}

/// `m` is a legal capture of an enemy rook by our knight or bishop whose
/// exchange nets a rook for a minor, and after which every enemy reply
/// leaves us ahead, by a least net that is a rook for a minor too.
pub open spec fn wins_exchange(pos: Position, m: Move) -> bool {
    let a = after(pos, m);
    let p = forker(pos, m);
    &&& legal_move(pos, m)
    &&& m.flag.spec_is_capture()
    &&& spec_piece_at(pos, m.from as u64) is Some
    &&& (p == Piece::Bishop || p == Piece::Knight)
    &&& spec_piece_at(pos, victim_of(pos, m) as u64) == Some((pos.stm.spec_flip(), Piece::Rook))
    &&& in_band(see_spec(pos, m.from, m.to))
    &&& forall|r: Move| #[trigger] legal_move(a, r) ==> reply_net(a, r, m.to as int, 500) > 0
    &&& exists|w: int| #[trigger] worst_net(a, m.to as int, 500, w) && in_band(w)
}

/// The fact of the exchange won by `m`.
pub open spec fn exchange_fact(pos: Position, m: Move, f: WinExchangeOpportunity) -> bool {
    &&& f.kind@ == "win_the_exchange"@
    &&& f.validator@ == "win_exchange_validation"@
    &&& f.move_uci@ == uci_text(m)
    &&& piece_ref_spec(pos.stm, forker(pos, m), m.to, f.mover)
    &&& piece_ref_spec(pos.stm.spec_flip(), Piece::Rook, victim_of(pos, m) as u8, f.victim)
    &&& f.gives_check == checks(pos, m)
    &&& worst_net(after(pos, m), m.to as int, 500, f.material_gain as int)
}

pub open spec fn exchange_pred(pos: Position) -> spec_fn(Move) -> bool {
    |m: Move| wins_exchange(pos, m)
}

pub open spec fn fact_of_an_exchange(pos: Position, f: WinExchangeOpportunity) -> bool {
    exists|m: Move| #[trigger] wins_exchange(pos, m) && exchange_fact(pos, m, f)
}

pub open spec fn has_exchange_fact(pos: Position, m: Move, out: Seq<WinExchangeOpportunity>) -> bool {
    exists|i: int| 0 <= i < out.len() && exchange_fact(pos, m, #[trigger] out[i])
}

/// One fact per exchange-winning capture of the side to move, ascending by move.
pub open spec fn exchanges_ok(pos: Position, out: Seq<WinExchangeOpportunity>) -> bool {
    &&& out.len() == crate::perft::listing_of(exchange_pred(pos)).len()
    &&& forall|i: int| 0 <= i < out.len() ==> #[trigger] fact_of_an_exchange(pos, out[i])
    &&& forall|m: Move| #[trigger] wins_exchange(pos, m) ==> has_exchange_fact(pos, m, out)
    &&& key_sorted(out)
}

pub open spec fn exchanges_result(pos: Position, c: FactCollection<WinExchangeOpportunity>) -> bool {
    match c {
        FactCollection::Computed { items } => exchanges_ok(pos, items@),
        _ => false,
    }
}

} // verus!

verus! {

/// Our net after the enemy reply `r` in `a1` (the position after our capture,
/// sound two plies deep), having banked `banked` for the rook taken on `sq`.
fn net_after_reply(a1: &Position, Ghost(a): Ghost<Position>, r: Move, sq: u8, banked: i32) -> (net: i64)
    requires
        crate::perft::same_board(*a1, a),
        a1.wf(),
        perft_ok(*a1, 2),
        legal_move(*a1, r),
        sq < 64,
    ensures
        net == reply_net(a, r, sq as int, banked as int),
{
    proof {
        crate::perft::lemma_board_after(*a1, a, r);
    }
    assert(movable(*a1));
    proof {
        crate::movegen::lemma_pseudo_consistent(*a1, r);
    }
    let taken: i64 = match a1.piece_at(r.to) {
        Some(x) => crate::see::value_at(x.1.index()) as i64,
        None => 0,
    };
    let swing: i64 = match r.flag.promo_piece() {
        Some(p) => crate::see::value_at(p.index()) as i64 - 100,
        None => 0,
    };
    let mut esc = a1.duplicate();
    proof {
        crate::movegen::lemma_same_state_moves(esc, *a1);
        crate::movegen::lemma_pseudo_consistent(esc, r);
    }
    let ghost before = esc;
    esc.make(r);
    proof {
        lemma_child(*a1, before, r, esc, 1);
        assert(perft_ok(after(*a1, r), 1));
        lemma_board_moves(esc, after(*a1, r));
    }
    let enemy = a1.stm;
    let recovery: i64 = if esc.occ[enemy.index()] & (1u64 << (sq as u64)) != 0 {
        let ghost q = esc;
        let legal = generate_legal(&mut esc);
        proof {
            crate::movegen::lemma_same_state_moves(esc, q);
            assert forall|j: int| 0 <= j < legal@.len() implies (#[trigger] legal@[j]).from < 64 && legal@[j].to < 64 by {
                assert(legal@.contains(legal@[j]));
                assert(legal_move(esc, legal@[j]));
            }
        }
        let v = best_capture_see(&esc, &legal, sq);
        proof {
            lemma_best_see_transfer(esc, after(a, r), sq as int, v as int);
        }
        if v > 0 {
            v as i64
        } else {
            0
        }
    } else {
        assert(!bit(esc.occ[enemy.spec_index()], sq as u64));
        0
    };
    banked as i64 + recovery - (taken + swing)
}

/// Our least net over the legal enemy replies in `a1` (the position after our
/// capture of the rook on `sq`), or `None` when there is no reply or some
/// reply leaves us no better than even.
fn worst_reply_net(a1: &Position, Ghost(a): Ghost<Position>, sq: u8, banked: i32) -> (r: Option<i64>)
    requires
        crate::perft::same_board(*a1, a),
        a1.wf(),
        perft_ok(*a1, 2),
        sq < 64,
    ensures
        r matches Some(w) ==> worst_net(a, sq as int, banked as int, w as int) && forall|x: Move| #[trigger] legal_move(a, x)
            ==> reply_net(a, x, sq as int, banked as int) > 0,
        r is None ==> (forall|x: Move| !#[trigger] legal_move(a, x)) || exists|x: Move| #[trigger] legal_move(a, x) && reply_net(
            a,
            x,
            sq as int,
            banked as int,
        ) <= 0,
{
    assert(movable(*a1));
    let mut ep = a1.duplicate();
    proof {
        crate::movegen::lemma_same_state_moves(ep, *a1);
    }
    let legal = generate_legal(&mut ep);
    proof {
        crate::movegen::lemma_same_state_moves(ep, *a1);
    }
    proof {
        lemma_board_moves(*a1, a);
    }
    if legal.len() == 0 {
        proof {
            assert forall|x: Move| !#[trigger] legal_move(a, x) by {
                if legal_move(*a1, x) {
                    assert(legal@.contains(x));
                }
            }
        }
        return None;
    }
    let mut worst: i64 = 0;
    let mut i: usize = 0;
    while i < legal.len()
        invariant
            i <= legal@.len(),
            legal@.len() > 0,
            a1.wf(),
            perft_ok(*a1, 2),
            crate::perft::same_board(*a1, a),
            forall|x: Move| #[trigger] legal_move(*a1, x) == legal_move(a, x),
            sq < 64,
            lists_exactly(legal@, |x: Move| legal_move(*a1, x)),
            forall|j: int| 0 <= j < i ==> worst <= reply_net(a, #[trigger] legal@[j], sq as int, banked as int) && reply_net(
                a,
                legal@[j],
                sq as int,
                banked as int,
            ) > 0,
            i > 0 ==> exists|j: int| 0 <= j < i && reply_net(a, #[trigger] legal@[j], sq as int, banked as int) == worst,
        decreases legal@.len() - i,
    {
        let x = legal[i];
        assert(legal@.contains(x));
        let net = net_after_reply(a1, Ghost(a), x, sq, banked);
        if net <= 0 {
            return None;
        }
        let ghost old_worst = worst;
        if i == 0 || net < worst {
            worst = net;
        }
        proof {
            if worst == old_worst && i > 0 {
                let j = choose|j: int| 0 <= j < i && reply_net(a, #[trigger] legal@[j], sq as int, banked as int) == old_worst;
                assert(reply_net(a, legal@[j], sq as int, banked as int) == worst);
            } else {
                assert(reply_net(a, legal@[i as int], sq as int, banked as int) == worst);
            }
        }
        i = i + 1;
    }
    proof {
        assert forall|x: Move| #[trigger] legal_move(a, x) implies worst <= reply_net(a, x, sq as int, banked as int) && reply_net(
            a,
            x,
            sq as int,
            banked as int,
        ) > 0 by {
            assert(legal@.contains(x));
            let j = choose|j: int| 0 <= j < legal@.len() && legal@[j] == x;
        }
        let j = choose|j: int| 0 <= j < legal@.len() && reply_net(a, #[trigger] legal@[j], sq as int, banked as int) == worst;
        assert(legal@.contains(legal@[j]));
        assert(legal_move(a, legal@[j]));
    }
    Some(worst)
}

} // verus!

verus! {

/// The fact of the legal move `m`, if it wins the exchange. `probe` is a copy
/// of `pos` used to test for check; it is left as it was.
fn exchange_of(pos: &Position, probe: &mut Position, m: Move) -> (r: Option<WinExchangeOpportunity>)
    requires
        pos.wf(),
        perft_ok(*pos, 3),
        legal_move(*pos, m),
        old(probe).same_state(*pos),
    ensures
        final(probe).same_state(*pos),
        r matches Some(f) ==> wins_exchange(*pos, m) && exchange_fact(*pos, m, f),
        r is None ==> !wins_exchange(*pos, m),
{
    assert(movable(*pos));
    if !m.flag.is_capture() {
        return None;
    }
    proof {
        crate::movegen::lemma_pseudo_consistent(*pos, m);
    }
    let mp = match pos.piece_at(m.from) {
        Some((_, p)) => p,
        None => {
            return None;
        },
    };
    let ap = match m.flag.promo_piece() {
        Some(p) => p,
        None => mp,
    };
    assert(ap == forker(*pos, m));
    if ap != Piece::Bishop && ap != Piece::Knight {
        return None;
    }
    let us = pos.stm;
    let enemy = us.flip();
    let d: u8 = if m.flag == MoveFlag::EnPassant {
        if us == Color::White {
            m.to - 8
        } else {
            m.to + 8
        }
    } else {
        m.to
    };
    assert(d as int == victim_of(*pos, m) && d < 64);
    let (vc, vp) = match pos.piece_at(d) {
        Some(x) => x,
        None => {
            return None;
        },
    };
    if vc != enemy || vp != Piece::Rook {
        return None;
    }
    proof {
        crate::movegen::lemma_same_state_moves(*probe, *pos);
        crate::perft::lemma_board_after(*probe, *pos, m);
        assert(perft_ok(after(*pos, m), 2));
    }
    let gives = crate::movegen::gives_check(probe, m);
    let score = crate::see::see(pos, m.from, m.to);
    if score < WIN_EXCHANGE_MIN || score > WIN_EXCHANGE_MAX {
        return None;
    }
    let mut moved = pos.duplicate();
    proof {
        crate::movegen::lemma_same_state_moves(moved, *pos);
        crate::movegen::lemma_pseudo_consistent(moved, m);
    }
    let ghost before_make = moved;
    moved.make(m);
    proof {
        lemma_child(*pos, before_make, m, moved, 2);
        lemma_board_moves(moved, after(*pos, m));
    }
    let realized = match worst_reply_net(&moved, Ghost(after(*pos, m)), m.to, 500) {
        Some(w) => w,
        None => {
            return None;
        },
    };
    if realized < WIN_EXCHANGE_MIN as i64 || realized > WIN_EXCHANGE_MAX as i64 {
        proof {
            if wins_exchange(*pos, m) {
                let w = choose|w: int| #[trigger] worst_net(after(*pos, m), m.to as int, 500, w) && in_band(w);
                lemma_worst_unique(after(*pos, m), m.to as int, 500, w, realized as int);
            }
        }
        return None;
    }
    Some(WinExchangeOpportunity {
        kind: String::from_str("win_the_exchange"),
        validator: String::from_str("win_exchange_validation"),
        move_uci: m.to_uci(),
        mover: piece_ref(us, ap, m.to),
        victim: piece_ref(enemy, vp, d),
        gives_check: gives,
        material_gain: realized as i32,
    })
}

/// The least net is unique.
proof fn lemma_worst_unique(a: Position, sq: int, banked: int, w1: int, w2: int)
    requires
        worst_net(a, sq, banked, w1),
        worst_net(a, sq, banked, w2),
    ensures
        w1 == w2,
{
    let r1 = choose|r: Move| #[trigger] legal_move(a, r) && reply_net(a, r, sq, banked) == w1;
    let r2 = choose|r: Move| #[trigger] legal_move(a, r) && reply_net(a, r, sq, banked) == w2;
    assert(w2 <= reply_net(a, r1, sq, banked));
    assert(w1 <= reply_net(a, r2, sq, banked));
}

} // verus!

verus! {

/// The facts of the exchange wins, in the order of the legal moves, with the captures
/// they describe.
fn exchange_facts(pos: &Position) -> (res: (Vec<WinExchangeOpportunity>, Ghost<Seq<Move>>))
    requires
        pos.wf(),
        perft_ok(*pos, 3),
    ensures
        res.0@.len() == res.1@.len(),
        forall|k: int| 0 <= k < res.1@.len() ==> #[trigger] wins_exchange(*pos, res.1@[k]) && exchange_fact(*pos, res.1@[k], res.0@[k]),
        crate::movegen::lists_exactly(res.1@, exchange_pred(*pos)),
{
    assert(movable(*pos));
    let mut probe = pos.duplicate();
    proof {
        crate::movegen::lemma_same_state_moves(probe, *pos);
    }
    let legal = generate_legal(&mut probe);
    let mut facts: Vec<WinExchangeOpportunity> = Vec::new();
    let ghost mut ms: Seq<Move> = Seq::empty();
    let ghost mut idx: Seq<int> = Seq::empty();
    let mut i: usize = 0;
    while i < legal.len()
        invariant
            i <= legal@.len(),
            pos.wf(),
            perft_ok(*pos, 3),
            movable(*pos),
            probe.same_state(*pos),
            crate::movegen::lists_exactly(legal@, |m: Move| legal_move(*pos, m)),
            idx.len() == ms.len(),
            facts@.len() == ms.len(),
            forall|k: int| 0 <= k < idx.len() ==> 0 <= #[trigger] idx[k] < i && legal@[idx[k]] == ms[k],
            forall|k: int, l: int| 0 <= k < l < idx.len() ==> #[trigger] idx[k] < #[trigger] idx[l],
            forall|k: int| 0 <= k < ms.len() ==> #[trigger] wins_exchange(*pos, ms[k]) && exchange_fact(*pos, ms[k], facts@[k]),
            forall|j: int| 0 <= j < i && #[trigger] wins_exchange(*pos, legal@[j]) ==> exists|k: int| 0 <= k < idx.len() && idx[k] == j,
        decreases legal@.len() - i,
    {
        let m = legal[i];
        assert(legal@.contains(m));
        assert(legal_move(*pos, m));
        let ghost old_idx = idx;
        let ghost old_ms = ms;
        let ghost before = facts@;
        match exchange_of(pos, &mut probe, m) {
            Some(f) => {
                facts.push(f);
                proof {
                    ms = ms.push(m);
                    idx = idx.push(i as int);
                }
            },
            None => {},
        }
        proof {
            assert forall|k: int| 0 <= k < ms.len() implies #[trigger] wins_exchange(*pos, ms[k]) && exchange_fact(*pos, ms[k], facts@[k]) by {
                if k < old_ms.len() {
                    assert(ms[k] == old_ms[k] && facts@[k] == before[k]);
                }
            }
            assert forall|j: int| 0 <= j < i + 1 && #[trigger] wins_exchange(*pos, legal@[j]) implies exists|k: int|
                0 <= k < idx.len() && idx[k] == j by {
                if j < i {
                    let k = choose|k: int| 0 <= k < old_idx.len() && old_idx[k] == j;
                    assert(idx[k] == j);
                } else {
                    assert(idx.len() > old_idx.len());
                    assert(idx[idx.len() - 1] == j);
                }
            }
        }
        i = i + 1;
    }
    proof {
        assert forall|a: int, b: int| 0 <= a < ms.len() && 0 <= b < ms.len() && a != b implies ms[a] != ms[b] by {
            if a < b {
                assert(idx[a] < idx[b]);
            } else {
                assert(idx[b] < idx[a]);
            }
        }
        assert forall|m: Move| #![trigger ms.contains(m)] #![trigger exchange_pred(*pos)(m)] ms.contains(m) <==> exchange_pred(*pos)(m) by {
            if ms.contains(m) {
                let k = choose|k: int| 0 <= k < ms.len() && ms[k] == m;
                assert(wins_exchange(*pos, ms[k]));
            }
            if wins_exchange(*pos, m) {
                assert(legal@.contains(m));
                let j = choose|j: int| 0 <= j < legal@.len() && legal@[j] == m;
                assert(wins_exchange(*pos, legal@[j]));
                let k = choose|k: int| 0 <= k < idx.len() && idx[k] == j;
                assert(ms[k] == m);
            }
        }
    }
    (facts, Ghost(ms))
}

/// Sorting the facts of the exchange wins yields one per such capture, by move.
#[verifier::spinoff_prover]
proof fn lemma_exchange_order(pos: Position, ms: Seq<Move>, unsorted: Seq<WinExchangeOpportunity>)
    requires
        unsorted.len() == ms.len(),
        forall|k: int| 0 <= k < ms.len() ==> #[trigger] wins_exchange(pos, ms[k]) && exchange_fact(pos, ms[k], unsorted[k]),
        crate::movegen::lists_exactly(ms, exchange_pred(pos)),
    ensures
        exchanges_ok(pos, sorted_by_key(unsorted)),
{
    lemma_sorted_by_key(unsorted);
    let p = exchange_pred(pos);
    assert(crate::movegen::lists_exactly(crate::perft::listing_of(p), p));
    crate::movegen::lemma_listing_len(ms, crate::perft::listing_of(p), p);
    assert forall|i: int| 0 <= i < sorted_by_key(unsorted).len() implies #[trigger] fact_of_an_exchange(pos, sorted_by_key(unsorted)[i]) by {
        assert(sorted_by_key(unsorted).contains(sorted_by_key(unsorted)[i]));
        assert(unsorted.contains(sorted_by_key(unsorted)[i]));
        let l = choose|l: int| 0 <= l < unsorted.len() && unsorted[l] == sorted_by_key(unsorted)[i];
        assert(wins_exchange(pos, ms[l]) && exchange_fact(pos, ms[l], unsorted[l]));
    }
    assert forall|m: Move| #[trigger] wins_exchange(pos, m) implies has_exchange_fact(pos, m, sorted_by_key(unsorted)) by {
        assert(p(m));
        assert(ms.contains(m));
        let l = choose|l: int| 0 <= l < ms.len() && ms[l] == m;
        assert(wins_exchange(pos, ms[l]) && exchange_fact(pos, ms[l], unsorted[l]));
        assert(unsorted.contains(unsorted[l]));
        assert(sorted_by_key(unsorted).contains(unsorted[l]));
        let i = choose|i: int| 0 <= i < sorted_by_key(unsorted).len() && sorted_by_key(unsorted)[i] == unsorted[l];
        assert(exchange_fact(pos, m, sorted_by_key(unsorted)[i]));
    }
}

/// The captures that win the exchange for the side to move, ascending by move.
pub fn win_exchange_opportunities(pos: &Position) -> (c: FactCollection<WinExchangeOpportunity>)
    requires
        pos.wf(),
        perft_ok(*pos, 3),
    ensures
        exchanges_result(*pos, c),
{
    let (facts, Ghost(ms)) = exchange_facts(pos);
    proof {
        lemma_exchange_order(*pos, ms, facts@);
    }
    FactCollection::computed(sort_by_key(facts))
}


/// The exchange-winning captures that `side` could make: refused for the side not to move while
/// the side to move is in check, else those of the probe with `side` to move.
pub fn win_exchange_opportunities_for(pos: &Position, side: Color) -> (c: FactCollection<WinExchangeOpportunity>)
    requires
        pos.wf(),
        pos.stm == side ==> perft_ok(*pos, 3),
        pos.stm != side ==> pos.pieces[pos.stm.spec_index()][5] != 0 && (!stm_king_attacked_by(*pos, side) ==> forall|p: Position| #[trigger] crate::facts::position::handed_over(*pos, side, p) ==> perft_ok(p, 3)),
    ensures
        pos.stm != side && stm_king_attacked_by(*pos, side) ==> unavailable_because(c, "opposite_side_probe_while_in_check"@),
        !(pos.stm != side && stm_king_attacked_by(*pos, side)) ==> exists|p: Position| #[trigger] analysis_probe(*pos, side, p) && exchanges_result(p, c),
{
    match position_for_analysis_side(pos, side) {
        Ok(probe) => {
            proof {
                if pos.stm == side {
                    crate::perft::lemma_board_perft(probe, *pos, 3);
                }
            }
            let c = win_exchange_opportunities(&probe);
            assert(analysis_probe(*pos, side, probe));
            c
        },
        Err(reason) => FactCollection::unavailable(reason),
    }
}

} // verus!
