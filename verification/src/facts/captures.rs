//! Captures available to the side to move: what each wins by exchange,
//! whether it checks, whether the capturer survives, and the best safe one.
use vstd::prelude::*;
use crate::attacks::square_attacked;
use crate::bits::bit;
use crate::facts::piece_safety::{piece_ref, piece_ref_spec};
use crate::facts::position::{square_name, square_name_spec};
use crate::facts::types::{CaptureOpportunity, FactCollection};
use crate::movegen::{generate_legal, king_square, legal_move, movable};
use crate::order::{key_sorted, lemma_sorted_by_key, sort_by_key, sorted_by_key};
use crate::perft::{after, lemma_board_moves, lemma_child, perft_ok, same_board};
use crate::position::{spec_piece_at, Position};
use crate::see::{see, see_spec};
use crate::{uci_text, Color, Move, MoveFlag, Piece};

verus! {

/// The square of the piece that `m` captures (behind the target for en passant).
pub open spec fn victim_square(pos: Position, m: Move) -> int {
    if m.flag == MoveFlag::EnPassant {
        if pos.stm == Color::White { m.to - 8 } else { m.to + 8 }
    } else {
        m.to as int
    }
}

/// A legal capture of the side to move.
pub open spec fn listed_capture(pos: Position, m: Move) -> bool {
    &&& legal_move(pos, m)
    &&& m.flag.spec_is_capture()
    &&& spec_piece_at(pos, m.from as u64) is Some
    &&& spec_piece_at(pos, victim_square(pos, m) as u64) is Some
}

/// After `m` the other side's king is attacked.
pub open spec fn checks(pos: Position, m: Move) -> bool {
    let pcs = crate::movegen::made_pieces(pos, m);
    square_attacked(pcs, king_square(pcs, 1 - pos.stm.spec_index()), pos.stm, crate::position::make_all(pos, m))
}

/// The side to move in `p` has a legal capture onto `sq` that wins material by exchange.
pub open spec fn capturable_for_gain(p: Position, sq: int) -> bool {
    exists|m: Move| #[trigger] legal_move(p, m) && m.to as int == sq && m.flag.spec_is_capture() && see_spec(p, m.from, m.to) > 0
}

/// `f` describes the capture `m` (all but the best-capture mark).
pub open spec fn capture_fact(pos: Position, m: Move, f: CaptureOpportunity) -> bool {
    let a = spec_piece_at(pos, m.from as u64).unwrap();
    let vs = victim_square(pos, m);
    let v = spec_piece_at(pos, vs as u64).unwrap();
    &&& f.move_uci@ == uci_text(m)
    &&& piece_ref_spec(a.0, a.1, m.from, f.attacker)
    &&& piece_ref_spec(v.0, v.1, vs as u8, f.victim)
    &&& f.victim_square@ == square_name_spec(vs as u8)
    &&& f.see_cp == see_spec(pos, m.from, m.to)
    &&& f.gives_check == checks(pos, m)
    &&& f.capturing_piece_survives == !capturable_for_gain(after(pos, m), m.to as int)
}

/// Victim values for ranking captures (the king counts nothing).
pub open spec fn rank_value(p: Piece) -> int {
    match p {
        Piece::Pawn => 100,
        Piece::Knight => 300,
        Piece::Bishop => 300,
        Piece::Rook => 500,
        Piece::Queen => 900,
        Piece::King => 0,
    }
}

/// A capture that wins by exchange and after which the capturer cannot be won back.
pub open spec fn safe_gain(pos: Position, m: Move) -> bool {
    listed_capture(pos, m) && see_spec(pos, m.from, m.to) > 0 && !capturable_for_gain(after(pos, m), m.to as int)
}

/// `m` ranks no lower than `n`: by victim value, then by exchange score.
pub open spec fn ranks_over(pos: Position, m: Move, n: Move) -> bool {
    let vm = rank_value(spec_piece_at(pos, victim_square(pos, m) as u64).unwrap().1);
    let vn = rank_value(spec_piece_at(pos, victim_square(pos, n) as u64).unwrap().1);
    vm > vn || (vm == vn && see_spec(pos, m.from, m.to) >= see_spec(pos, n.from, n.to))
}

/// `out` holds one fact per legal capture.
pub open spec fn covers_captures(pos: Position, out: Seq<CaptureOpportunity>) -> bool {
    &&& out.len() == crate::perft::listing_of(capture_pred(pos)).len()
    &&& forall|i: int| 0 <= i < out.len() ==> #[trigger] fact_of_a_capture(pos, out[i])
    &&& forall|m: Move| #[trigger] listed_capture(pos, m) ==> has_fact(pos, m, out)
}

/// `f` describes some legal capture.
pub open spec fn fact_of_a_capture(pos: Position, f: CaptureOpportunity) -> bool {
    exists|m: Move| #[trigger] listed_capture(pos, m) && capture_fact(pos, m, f)
}

/// Some fact of `out` describes the capture `m`.
pub open spec fn has_fact(pos: Position, m: Move, out: Seq<CaptureOpportunity>) -> bool {
    exists|i: int| 0 <= i < out.len() && capture_fact(pos, m, #[trigger] out[i])
}

/// The capture facts of `pos`: one per legal capture, ascending by move; the
/// mark on exactly the facts whose move is that of a highest-ranked safe gain
/// (none when there is no safe gain).
pub open spec fn captures_ok(pos: Position, out: Seq<CaptureOpportunity>) -> bool {
    &&& covers_captures(pos, out)
    &&& key_sorted(out)
    &&& if exists|m: Move| #[trigger] safe_gain(pos, m) {
        exists|b: Move| #[trigger] safe_gain(pos, b) && (forall|m: Move| #[trigger] safe_gain(pos, m) ==> ranks_over(pos, b, m)) && (
        forall|i: int| 0 <= i < out.len() ==> #[trigger] out[i].highest_value_safe_capture == (out[i].move_uci@ == uci_text(b)))
    } else {
        forall|i: int| 0 <= i < out.len() ==> !#[trigger] out[i].highest_value_safe_capture
    }
}

pub open spec fn captures_result(pos: Position, col: FactCollection<CaptureOpportunity>) -> bool {
    match col {
        FactCollection::Computed { items } => captures_ok(pos, items@),
        _ => false,
    }
}

/// The mover of a legal move is the side to move.
proof fn lemma_mover(pos: Position, m: Move)
    requires
        pos.board_wf(),
        crate::position::make_ok(pos, m),
    ensures
        spec_piece_at(pos, m.from as u64) is Some,
        spec_piece_at(pos, m.from as u64).unwrap().0 == pos.stm,
{
    let us = pos.stm.spec_index();
    let sq = m.from as u64;
    crate::position::lemma_disjoint_square(pos.pieces, sq);
    crate::position::lemma_piece_on(pos.pieces, us, sq);
    crate::position::lemma_piece_on(pos.pieces, 1 - us, sq);
    let q = crate::position::piece_on(pos.pieces, us, sq).unwrap();
    assert(bit(pos.pieces[us][q.spec_index()], sq));
    assert forall|p: int| 0 <= p < 6 implies !#[trigger] bit(pos.pieces[1 - us][p], sq) by {
        assert(q.spec_index() != p || us != 1 - us);
    }
}

/// Positions that agree on the board agree on what can be won back.
pub(crate) proof fn lemma_gain_same_board(a: Position, b: Position, sq: int)
    requires
        same_board(a, b),
    ensures
        capturable_for_gain(a, sq) == capturable_for_gain(b, sq),
{
    lemma_board_moves(a, b);
    if capturable_for_gain(a, sq) {
        let m = choose|m: Move| #[trigger] legal_move(a, m) && m.to as int == sq && m.flag.spec_is_capture() && see_spec(a, m.from, m.to) > 0;
        assert(legal_move(b, m));
    }
    if capturable_for_gain(b, sq) {
        let m = choose|m: Move| #[trigger] legal_move(b, m) && m.to as int == sq && m.flag.spec_is_capture() && see_spec(b, m.from, m.to) > 0;
        assert(legal_move(a, m));
    }
}

/// Whether the side to move in `p` can capture on `sq` and win material.
pub(crate) fn can_win_back(p: &mut Position, sq: u8) -> (b: bool)
    requires
        movable(*old(p)),
    ensures
        final(p).same_state(*old(p)),
        b == capturable_for_gain(*old(p), sq as int),
{
    let ghost p0 = *p;
    let legal = generate_legal(p);
    let mut i: usize = 0;
    while i < legal.len()
        invariant
            i <= legal@.len(),
            p.same_state(p0),
            p0 == *old(p),
            movable(p0),
            forall|m: Move| legal@.contains(m) <==> #[trigger] legal_move(p0, m),
            forall|j: int| 0 <= j < i ==> !(#[trigger] legal@[j].to == sq && legal@[j].flag.spec_is_capture() && see_spec(
                p0,
                legal@[j].from,
                legal@[j].to,
            ) > 0),
        decreases legal@.len() - i,
    {
        let m = legal[i];
        assert(legal@.contains(m));
        assert(legal_move(p0, m));
        if m.to == sq && m.flag.is_capture() {
            proof {
                crate::movegen::lemma_pseudo_consistent(p0, m);
            }
            let v = see(p, m.from, m.to);
            assert(see_spec(*p, m.from, m.to) == see_spec(p0, m.from, m.to));
            if v > 0 {
                return true;
            }
        }
        i = i + 1;
    }
    proof {
        if capturable_for_gain(p0, sq as int) {
            let m = choose|m: Move| #[trigger] legal_move(p0, m) && m.to as int == sq && m.flag.spec_is_capture() && see_spec(p0, m.from, m.to) > 0;
            assert(legal@.contains(m));
            let j = choose|j: int| 0 <= j < legal@.len() && legal@[j] == m;
            assert(!(legal@[j].to == sq && legal@[j].flag.spec_is_capture() && see_spec(p0, legal@[j].from, legal@[j].to) > 0));
        }
    }
    false
}

} // verus!

verus! {

/// `s` lists each legal capture of the side to move once.
pub open spec fn lists_exactly_captures(pos: Position, s: Seq<Move>) -> bool {
    crate::movegen::lists_exactly(s, capture_pred(pos))
}

/// The legal captures of the side to move, as a predicate.
pub open spec fn capture_pred(pos: Position) -> spec_fn(Move) -> bool {
    |m: Move| listed_capture(pos, m)
}

/// One legal capture with its exchange score, check and win-back verdicts.
pub open spec fn candidate_ok(pos: Position, c: (Move, i32, bool, bool)) -> bool {
    &&& listed_capture(pos, c.0)
    &&& c.1 == see_spec(pos, c.0.from, c.0.to)
    &&& c.2 == checks(pos, c.0)
    &&& c.3 == !capturable_for_gain(after(pos, c.0), c.0.to as int)
}

/// The legal captures of the side to move with their verdicts, each once.
fn capture_candidates(pos: &Position) -> (cands: Vec<(Move, i32, bool, bool)>)
    requires
        pos.wf(),
        perft_ok(*pos, 2),
    ensures
        forall|k: int| 0 <= k < cands@.len() ==> #[trigger] candidate_ok(*pos, cands@[k]),
        lists_exactly_captures(*pos, cands@.map_values(|c: (Move, i32, bool, bool)| c.0)),
{
    let ghost p0 = *pos;
    assert(movable(*pos));
    let mut probe = pos.duplicate();
    proof {
        crate::movegen::lemma_same_state_moves(probe, *pos);
    }
    let legal = generate_legal(&mut probe);
    let mut cands: Vec<(Move, i32, bool, bool)> = Vec::new();
    let ghost mut idx: Seq<int> = Seq::empty();
    let mut i: usize = 0;
    while i < legal.len()
        invariant
            i <= legal@.len(),
            pos.wf(),
            perft_ok(*pos, 2),
            movable(*pos),
            probe.same_state(*pos),
            crate::movegen::lists_exactly(legal@, |m: Move| legal_move(*pos, m)),
            idx.len() == cands@.len(),
            forall|k: int| 0 <= k < idx.len() ==> 0 <= #[trigger] idx[k] < i && legal@[idx[k]] == cands@[k].0,
            forall|k: int, l: int| 0 <= k < l < idx.len() ==> #[trigger] idx[k] < #[trigger] idx[l],
            forall|k: int| 0 <= k < cands@.len() ==> #[trigger] candidate_ok(*pos, cands@[k]),
            forall|j: int| 0 <= j < i && #[trigger] listed_capture(*pos, legal@[j]) ==> exists|k: int| 0 <= k < idx.len() && idx[k] == j,
        decreases legal@.len() - i,
    {
        let m = legal[i];
        assert(legal@.contains(m));
        assert(legal_move(*pos, m));
        let ghost before = cands@;
        let ghost old_idx = idx;
        if m.flag.is_capture() {
            proof {
                crate::movegen::lemma_pseudo_consistent(*pos, m);
                lemma_mover(*pos, m);
            }
            match pos.piece_at(m.from) {
                Some((ac, _ap)) => {
                    let vs: u8 = if m.flag == MoveFlag::EnPassant {
                        if ac == Color::White { m.to - 8 } else { m.to + 8 }
                    } else {
                        m.to
                    };
                    assert(vs as int == victim_square(*pos, m));
                    match pos.piece_at(vs) {
                        Some(_) => {
                            proof {
                                crate::movegen::lemma_same_state_moves(probe, *pos);
                                crate::perft::lemma_board_after(probe, *pos, m);
                                assert(perft_ok(after(*pos, m), 1));
                            }
                            let gives = crate::movegen::gives_check(&mut probe, m);
                            let see_cp = see(pos, m.from, m.to);
                            let mut moved = pos.duplicate();
                            proof {
                                crate::movegen::lemma_same_state_moves(moved, *pos);
                                crate::movegen::lemma_pseudo_consistent(moved, m);
                            }
                            let ghost before_make = moved;
                            moved.make(m);
                            proof {
                                lemma_child(*pos, before_make, m, moved, 1);
                                lemma_board_moves(moved, after(*pos, m));
                            }
                            let ghost p1 = moved;
                            let survives = !can_win_back(&mut moved, m.to);
                            proof {
                                lemma_gain_same_board(p1, after(*pos, m), m.to as int);
                            }
                            cands.push((m, see_cp, gives, survives));
                            proof {
                                idx = idx.push(i as int);
                            }
                        },
                        None => {},
                    }
                },
                None => {},
            }
        }
        proof {
            assert forall|k: int| 0 <= k < cands@.len() implies #[trigger] candidate_ok(*pos, cands@[k]) by {
                if k < before.len() {
                    assert(cands@[k] == before[k]);
                }
            }
            assert forall|j: int| 0 <= j < i + 1 && #[trigger] listed_capture(*pos, legal@[j]) implies exists|k: int|
                0 <= k < idx.len() && idx[k] == j by {
                if j < i {
                    let k = choose|k: int| 0 <= k < old_idx.len() && old_idx[k] == j;
                    assert(idx[k] == j);
                } else {
                    assert(idx.len() > old_idx.len());
                    assert(idx[idx.len() - 1] == j);
                }
            }
        }
        i = i + 1;
    }
    proof {
        let ms = cands@.map_values(|c: (Move, i32, bool, bool)| c.0);
        assert forall|a: int, b: int| 0 <= a < ms.len() && 0 <= b < ms.len() && a != b implies ms[a] != ms[b] by {
            if a < b {
                assert(idx[a] < idx[b]);
            } else {
                assert(idx[b] < idx[a]);
            }
            assert(legal@[idx[a]] == ms[a] && legal@[idx[b]] == ms[b]);
        }
        assert forall|m: Move| #![trigger ms.contains(m)] #![trigger listed_capture(*pos, m)] ms.contains(m) <==> listed_capture(*pos, m) by {
            if ms.contains(m) {
                let k = choose|k: int| 0 <= k < ms.len() && ms[k] == m;
                assert(candidate_ok(*pos, cands@[k]));
            }
            if listed_capture(*pos, m) {
                assert(legal@.contains(m));
                let j = choose|j: int| 0 <= j < legal@.len() && legal@[j] == m;
                assert(listed_capture(*pos, legal@[j]));
                let k = choose|k: int| 0 <= k < idx.len() && idx[k] == j;
                assert(ms[k] == m);
            }
        }
    }
    cands
}

} // verus!

verus! {

fn rank_value_of(p: Piece) -> (v: i32)
    ensures
        v == rank_value(p),
{
    match p {
        Piece::Pawn => 100,
        Piece::Knight => 300,
        Piece::Bishop => 300,
        Piece::Rook => 500,
        Piece::Queen => 900,
        Piece::King => 0,
    }
}

/// The square of the piece that the legal capture `m` takes.
fn victim_of(pos: &Position, m: Move) -> (vs: u8)
    requires
        pos.wf(),
        movable(*pos),
        legal_move(*pos, m),
    ensures
        vs as int == victim_square(*pos, m),
        vs < 64,
{
    proof {
        crate::movegen::lemma_pseudo_consistent(*pos, m);
        lemma_mover(*pos, m);
    }
    let ac = pos.piece_at(m.from).unwrap().0;
    if m.flag == MoveFlag::EnPassant {
        if ac == Color::White { m.to - 8 } else { m.to + 8 }
    } else {
        m.to
    }
}

/// The fact of the capture `c`, marked when its move spells `best`.
fn capture_fact_of(pos: &Position, c: (Move, i32, bool, bool), best: &Option<String>) -> (f: CaptureOpportunity)
    requires
        pos.wf(),
        movable(*pos),
        candidate_ok(*pos, c),
    ensures
        capture_fact(*pos, c.0, f),
        f.highest_value_safe_capture == (best matches Some(b) && f.move_uci@ == b@),
{
    let m = c.0;
    proof {
        crate::movegen::lemma_pseudo_consistent(*pos, m);
    }
    let (ac, ap) = pos.piece_at(m.from).unwrap();
    let vs = victim_of(pos, m);
    let (vc, vp) = pos.piece_at(vs).unwrap();
    let uci = m.to_uci();
    let marked = match best {
        Some(b) => uci == *b,
        None => false,
    };
    CaptureOpportunity {
        move_uci: uci,
        attacker: piece_ref(ac, ap, m.from),
        victim: piece_ref(vc, vp, vs),
        victim_square: square_name(vs),
        see_cp: c.1,
        gives_check: c.2,
        capturing_piece_survives: c.3,
        highest_value_safe_capture: marked,
    }
}

/// The candidate whose capture is a highest-ranked safe gain, if any
/// (the last of equally ranked ones).
fn best_safe_gain(pos: &Position, cands: &Vec<(Move, i32, bool, bool)>) -> (best: Option<usize>)
    requires
        pos.wf(),
        movable(*pos),
        forall|j: int| 0 <= j < cands@.len() ==> #[trigger] candidate_ok(*pos, cands@[j]),
        lists_exactly_captures(*pos, cands@.map_values(|c: (Move, i32, bool, bool)| c.0)),
    ensures
        match best {
            Some(b) => b < cands@.len() && safe_gain(*pos, cands@[b as int].0) && forall|m: Move| #[trigger] safe_gain(*pos, m)
                ==> ranks_over(*pos, cands@[b as int].0, m),
            None => forall|m: Move| !#[trigger] safe_gain(*pos, m),
        },
{
    let ghost ms = cands@.map_values(|c: (Move, i32, bool, bool)| c.0);
    let mut best: Option<usize> = None;
    let mut best_key: (i32, i32) = (0, 0);
    let mut k: usize = 0;
    while k < cands.len()
        invariant
            k <= cands@.len(),
            pos.wf(),
            movable(*pos),
            forall|j: int| 0 <= j < cands@.len() ==> #[trigger] candidate_ok(*pos, cands@[j]),
            best matches Some(b) ==> {
                &&& b < k
                &&& safe_gain(*pos, cands@[b as int].0)
                &&& best_key.0 == rank_value(spec_piece_at(*pos, victim_square(*pos, cands@[b as int].0) as u64).unwrap().1)
                &&& best_key.1 == see_spec(*pos, cands@[b as int].0.from, cands@[b as int].0.to)
                &&& forall|j: int| 0 <= j < k && #[trigger] safe_gain(*pos, cands@[j].0) ==> ranks_over(*pos, cands@[b as int].0, cands@[j].0)
            },
            best is None ==> forall|j: int| 0 <= j < k ==> !#[trigger] safe_gain(*pos, cands@[j].0),
        decreases cands@.len() - k,
    {
        let c = cands[k];
        assert(candidate_ok(*pos, cands@[k as int]));
        if c.1 > 0 && c.3 {
            let vs = victim_of(pos, c.0);
            let v = rank_value_of(pos.piece_at(vs).unwrap().1);
            let take = match best {
                None => true,
                Some(_) => v > best_key.0 || (v == best_key.0 && c.1 >= best_key.1),
            };
            if take {
                best = Some(k);
                best_key = (v, c.1);
            }
        }
        k = k + 1;
    }
    proof {
        if best is None {
            assert forall|m: Move| !#[trigger] safe_gain(*pos, m) by {
                if safe_gain(*pos, m) {
                    assert(ms.contains(m));
                    let j = choose|j: int| 0 <= j < ms.len() && ms[j] == m;
                    assert(!safe_gain(*pos, cands@[j].0));
                }
            }
        } else {
            let b = best.unwrap() as int;
            assert forall|m: Move| #[trigger] safe_gain(*pos, m) implies ranks_over(*pos, cands@[b].0, m) by {
                assert(ms.contains(m));
                let j = choose|j: int| 0 <= j < ms.len() && ms[j] == m;
                assert(safe_gain(*pos, cands@[j].0));
            }
        }
    }
    best
}

/// The facts of the candidates, in their order, marked against `best`.
fn capture_facts_of(pos: &Position, cands: &Vec<(Move, i32, bool, bool)>, best: &Option<String>) -> (facts: Vec<CaptureOpportunity>)
    requires
        pos.wf(),
        movable(*pos),
        forall|j: int| 0 <= j < cands@.len() ==> #[trigger] candidate_ok(*pos, cands@[j]),
    ensures
        facts@.len() == cands@.len(),
        forall|l: int| 0 <= l < facts@.len() ==> #[trigger] capture_fact(*pos, cands@[l].0, facts@[l]),
        forall|l: int| 0 <= l < facts@.len() ==> #[trigger] facts@[l].highest_value_safe_capture == (best matches Some(b)
            && facts@[l].move_uci@ == b@),
{
    let mut facts: Vec<CaptureOpportunity> = Vec::new();
    let mut j: usize = 0;
    while j < cands.len()
        invariant
            j <= cands@.len(),
            pos.wf(),
            movable(*pos),
            forall|l: int| 0 <= l < cands@.len() ==> #[trigger] candidate_ok(*pos, cands@[l]),
            facts@.len() == j,
            forall|l: int| 0 <= l < j ==> #[trigger] capture_fact(*pos, cands@[l].0, facts@[l]),
            forall|l: int| 0 <= l < j ==> #[trigger] facts@[l].highest_value_safe_capture == (best matches Some(b)
                && facts@[l].move_uci@ == b@),
        decreases cands@.len() - j,
    {
        let f = capture_fact_of(pos, cands[j], best);
        facts.push(f);
        j = j + 1;
    }
    facts
}

/// The sorted facts are one per legal capture.
#[verifier::spinoff_prover]
proof fn lemma_capture_cover(pos: Position, cands: Seq<(Move, i32, bool, bool)>, unsorted: Seq<CaptureOpportunity>)
    requires
        lists_exactly_captures(pos, cands.map_values(|c: (Move, i32, bool, bool)| c.0)),
        unsorted.len() == cands.len(),
        forall|l: int| 0 <= l < unsorted.len() ==> #[trigger] capture_fact(pos, cands[l].0, unsorted[l]),
    ensures
        covers_captures(pos, sorted_by_key(unsorted)),
        key_sorted(sorted_by_key(unsorted)),
{
    let ms = cands.map_values(|c: (Move, i32, bool, bool)| c.0);
    lemma_sorted_by_key(unsorted);
    let p = capture_pred(pos);
    assert(crate::movegen::lists_exactly(ms, p));
    assert(crate::movegen::lists_exactly(crate::perft::listing_of(p), p));
    crate::movegen::lemma_listing_len(ms, crate::perft::listing_of(p), p);
    assert(sorted_by_key(unsorted).len() == crate::perft::listing_of(p).len());
    assert forall|i: int| 0 <= i < sorted_by_key(unsorted).len() implies #[trigger] fact_of_a_capture(pos, sorted_by_key(unsorted)[i]) by {
        assert(sorted_by_key(unsorted).contains(sorted_by_key(unsorted)[i]));
        assert(unsorted.contains(sorted_by_key(unsorted)[i]));
        let l = choose|l: int| 0 <= l < unsorted.len() && unsorted[l] == sorted_by_key(unsorted)[i];
        assert(capture_fact(pos, cands[l].0, unsorted[l]));
        assert(ms.contains(ms[l]));
        assert(listed_capture(pos, cands[l].0));
    }
    assert forall|m: Move| #[trigger] listed_capture(pos, m) implies has_fact(pos, m, sorted_by_key(unsorted)) by {
        assert(ms.contains(m));
        let l = choose|l: int| 0 <= l < ms.len() && ms[l] == m;
        assert(capture_fact(pos, cands[l].0, unsorted[l]));
        assert(unsorted.contains(unsorted[l]));
        assert(sorted_by_key(unsorted).contains(unsorted[l]));
        let i = choose|i: int| 0 <= i < sorted_by_key(unsorted).len() && sorted_by_key(unsorted)[i] == unsorted[l];
        assert(capture_fact(pos, m, sorted_by_key(unsorted)[i]));
    }
    assert(covers_captures(pos, sorted_by_key(unsorted)));
}

/// Sorting keeps each fact's mark.
#[verifier::spinoff_prover]
proof fn lemma_capture_marks(unsorted: Seq<CaptureOpportunity>, best_uci: Option<String>)
    requires
        forall|l: int| 0 <= l < unsorted.len() ==> #[trigger] unsorted[l].highest_value_safe_capture == (best_uci matches Some(b)
            && unsorted[l].move_uci@ == b@),
    ensures
        forall|i: int| 0 <= i < sorted_by_key(unsorted).len() ==> #[trigger] sorted_by_key(unsorted)[i].highest_value_safe_capture == (
        best_uci matches Some(b) && sorted_by_key(unsorted)[i].move_uci@ == b@),
{
    lemma_sorted_by_key(unsorted);
    let out = sorted_by_key(unsorted);
    assert forall|i: int| 0 <= i < out.len() implies #[trigger] out[i].highest_value_safe_capture == (best_uci matches Some(b)
        && out[i].move_uci@ == b@) by {
        assert(out.contains(out[i]));
        assert(unsorted.contains(out[i]));
        let l = choose|l: int| 0 <= l < unsorted.len() && unsorted[l] == out[i];
    }
}

/// Sorting the candidate facts yields the capture facts.
#[verifier::spinoff_prover]
proof fn lemma_capture_order(
    pos: Position,
    cands: Seq<(Move, i32, bool, bool)>,
    unsorted: Seq<CaptureOpportunity>,
    best: Option<Move>,
    best_uci: Option<String>,
)
    requires
        lists_exactly_captures(pos, cands.map_values(|c: (Move, i32, bool, bool)| c.0)),
        unsorted.len() == cands.len(),
        forall|l: int| 0 <= l < unsorted.len() ==> #[trigger] capture_fact(pos, cands[l].0, unsorted[l]),
        forall|l: int| 0 <= l < unsorted.len() ==> #[trigger] unsorted[l].highest_value_safe_capture == (best_uci matches Some(b)
            && unsorted[l].move_uci@ == b@),
        best is Some == best_uci is Some,
        best matches Some(b) ==> best_uci.unwrap()@ == uci_text(b) && safe_gain(pos, b) && forall|m: Move| #[trigger] safe_gain(pos, m)
            ==> ranks_over(pos, b, m),
        best is None ==> forall|m: Move| !#[trigger] safe_gain(pos, m),
    ensures
        captures_ok(pos, sorted_by_key(unsorted)),
{
    lemma_capture_cover(pos, cands, unsorted);
    lemma_capture_marks(unsorted, best_uci);
    let out = sorted_by_key(unsorted);
    if best is Some {
        let b = best.unwrap();
        assert(forall|i: int| 0 <= i < out.len() ==> #[trigger] out[i].highest_value_safe_capture == (out[i].move_uci@ == uci_text(b)));
        assert(safe_gain(pos, b));
    }
}

/// Every legal capture of the side to move, ascending by move: attacker,
/// victim (behind the target for en passant), exchange score, whether it
/// gives check, whether the capturer survives (no winning recapture), and a
/// mark on the highest-ranked safe gain (by victim value, then exchange
/// score).
pub fn capture_opportunities(pos: &Position) -> (col: FactCollection<CaptureOpportunity>)
    requires
        pos.wf(),
        perft_ok(*pos, 2),
    ensures
        captures_result(*pos, col),
{
    let cands = capture_candidates(pos);
    assert(movable(*pos));
    let best = best_safe_gain(pos, &cands);
    let ghost best_move: Option<Move> = match best {
        Some(b) => Some(cands@[b as int].0),
        None => None,
    };
    let best_uci: Option<String> = match best {
        Some(b) => {
            proof {
                crate::movegen::lemma_pseudo_consistent(*pos, cands@[b as int].0);
            }
            Some(cands[b].0.to_uci())
        },
        None => None,
    };
    let facts = capture_facts_of(pos, &cands, &best_uci);
    proof {
        lemma_capture_order(*pos, cands@, facts@, best_move, best_uci);
    }
    let sorted = sort_by_key(facts);
    FactCollection::computed(sorted)
}

} // verus!
