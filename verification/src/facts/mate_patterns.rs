//! Named checkmates: for each mating move of the side to move, the pattern it
//! completes, when it is one this module recognises (smothered mate, back-rank
//! mate). An unrecognised mate yields nothing rather than a guess.
use vstd::prelude::*;
use crate::facts::types::unavailable_because;
use crate::attacks::{abs, king_attacks, king_step};
use crate::bits::bit;
use crate::facts::captures::checks;
use crate::facts::piece_safety::{piece_ref, piece_ref_spec};
use crate::facts::position::{ascending_filter, names_of, position_for_analysis_side, square_name, stm_king_attacked_by};
use crate::facts::types::{FactCollection, MatePatternFact};
use crate::movegen::{generate_legal, king_square, legal_move, movable};
use crate::order::{key_sorted, lemma_sorted_by_key, sort_by_key, sorted_by_key};
use crate::perft::{after, lemma_board_moves, lemma_child, perft_ok, same_board};
use crate::position::{piece_on, union6, Position};
use crate::{uci_text, Color, Move, Piece};

verus! {

/// `m` checkmates: legal, gives check, and leaves the other side no legal move.
pub open spec fn mates(pos: Position, m: Move) -> bool {
    legal_move(pos, m) && checks(pos, m) && !exists|r: Move| #[trigger] legal_move(after(pos, m), r)
}

/// The first rank of `c`.
pub open spec fn back_rank_of(c: Color) -> int {
    if c == Color::White { 0 } else { 7 }
}

/// The rank in front of `c`'s first rank.
pub open spec fn front_rank_of(c: Color) -> int {
    if c == Color::White { 1 } else { 6 }
}

/// Every neighbour of the king on `k` holds one of its own pieces.
pub open spec fn smothered_at(own: u64, k: int) -> bool {
    forall|t: u64| t < 64 && #[trigger] king_step(k, t as int) ==> bit(own, t)
}

/// The king on `k` stands on its first rank and the squares in front of it
/// (on the board) all hold its own pieces.
pub open spec fn walled_at(own: u64, c: Color, k: int) -> bool {
    &&& k / 8 == back_rank_of(c)
    &&& forall|t: u64| t < 64 && t as int / 8 == front_rank_of(c) && #[trigger] abs(t as int % 8 - k % 8) <= 1 ==> bit(own, t)
}

/// The pattern of the mate `m`: 0 smothered, 1 back rank, none otherwise.
pub open spec fn pattern_of(pos: Position, m: Move) -> Option<int> {
    let a = after(pos, m);
    let mated = pos.stm.spec_flip();
    let k = king_square(a.pieces, mated.spec_index());
    let own = union6(a.pieces[mated.spec_index()]);
    match piece_on(a.pieces, pos.stm.spec_index(), m.to as u64) {
        Some(p) => if p == Piece::Knight && smothered_at(own, k) {
            Some(0int)
        } else if (p == Piece::Rook || p == Piece::Queen) && m.to as int / 8 == k / 8 && walled_at(own, mated, k) {
            Some(1int)
        } else {
            None
        },
        None => None,
    }
}

/// The squares that define the pattern of `m`.
pub open spec fn key_square(pos: Position, m: Move, t: int) -> bool {
    let a = after(pos, m);
    let mated = pos.stm.spec_flip();
    let k = king_square(a.pieces, mated.spec_index());
    ||| t == k
    ||| t == m.to
    ||| (pattern_of(pos, m) == Some(0int) && king_step(k, t))
    ||| (pattern_of(pos, m) == Some(1int) && 0 <= t < 64 && t / 8 == front_rank_of(mated) && abs(t % 8 - k % 8) <= 1)
}

/// `f` names the pattern of the mate `m`.
pub open spec fn mate_fact(pos: Position, m: Move, f: MatePatternFact) -> bool {
    let a = after(pos, m);
    let mated = pos.stm.spec_flip();
    let k = king_square(a.pieces, mated.spec_index());
    &&& f.kind@ == (if pattern_of(pos, m) == Some(0int) { "smothered_mate"@ } else { "back_rank_mate"@ })
    &&& f.validator@ == "mate_pattern_validation"@
    &&& f.move_uci@ == uci_text(m)
    &&& piece_ref_spec(pos.stm, piece_on(a.pieces, pos.stm.spec_index(), m.to as u64).unwrap(), m.to, f.mating_piece)
    &&& piece_ref_spec(mated, Piece::King, k as u8, f.mated_king)
    &&& names_of(f.key_squares@, ascending_filter(|t: u8| key_square(pos, m, t as int), 64))
    &&& f.gives_check
}

/// A mate of a recognised pattern.
pub open spec fn named_mate(pos: Position, m: Move) -> bool {
    mates(pos, m) && pattern_of(pos, m) is Some
}

pub open spec fn named_mate_pred(pos: Position) -> spec_fn(Move) -> bool {
    |m: Move| named_mate(pos, m)
}

/// `f` names some recognised mate.
pub open spec fn fact_of_a_mate(pos: Position, f: MatePatternFact) -> bool {
    exists|m: Move| #[trigger] named_mate(pos, m) && mate_fact(pos, m, f)
}

/// Some fact of `out` names the mate `m`.
pub open spec fn has_mate_fact(pos: Position, m: Move, out: Seq<MatePatternFact>) -> bool {
    exists|i: int| 0 <= i < out.len() && mate_fact(pos, m, #[trigger] out[i])
}

/// One fact per recognised mate, ascending by move.
pub open spec fn mate_patterns_ok(pos: Position, out: Seq<MatePatternFact>) -> bool {
    &&& out.len() == crate::perft::listing_of(named_mate_pred(pos)).len()
    &&& forall|i: int| 0 <= i < out.len() ==> #[trigger] fact_of_a_mate(pos, out[i])
    &&& forall|m: Move| #[trigger] named_mate(pos, m) ==> has_mate_fact(pos, m, out)
    &&& key_sorted(out)
}

pub open spec fn mate_patterns_result(pos: Position, c: FactCollection<MatePatternFact>) -> bool {
    match c {
        FactCollection::Computed { items } => mate_patterns_ok(pos, items@),
        _ => false,
    }
}

} // verus!

verus! {

/// Every king neighbour of `k` holds a piece of `own`.
fn smothered(own: u64, k: u8) -> (b: bool)
    requires
        k < 64,
    ensures
        b == smothered_at(own, k as int),
{
    let na = king_attacks(k);
    let open = na & !own;
    proof {
        assert forall|t: u64| t < 64 implies #[trigger] bit(open, t) == (king_step(k as int, t as int) && !bit(own, t)) by {
            crate::bits::lemma_bit_and(na, !own, t);
            crate::bits::lemma_bit_not(own, t);
        }
        if open == 0 {
            crate::bits::lemma_zero_no_bit(open);
            assert forall|t: u64| t < 64 && #[trigger] king_step(k as int, t as int) implies bit(own, t) by {
                assert(!bit(open, t));
            }
        } else {
            crate::bits::lemma_nonzero_has_bit(open);
            let t = choose|t: u64| t < 64 && #[trigger] bit(open, t);
            assert(king_step(k as int, t as int) && !bit(own, t));
        }
    }
    open == 0
}

/// The squares in front of the king on `k` of `c` (on the board) hold pieces of `own`.
fn walled(own: u64, c: Color, k: u8) -> (b: bool)
    requires
        k < 64,
        k as int / 8 == back_rank_of(c),
    ensures
        b == walled_at(own, c, k as int),
{
    let r: i32 = match c {
        Color::White => 1,
        Color::Black => 6,
    };
    let kf = (k % 8) as i32;
    let mut df: i32 = -1;
    while df <= 1
        invariant
            -1 <= df <= 2,
            k < 64,
            kf == k % 8,
            r == front_rank_of(c),
            k as int / 8 == back_rank_of(c),
            forall|t: u64| t < 64 && t as int / 8 == r && t as int % 8 - kf < df && #[trigger] abs(t as int % 8 - k as int % 8) <= 1 ==> bit(own, t),
        decreases 2 - df,
    {
        let f = kf + df;
        if 0 <= f && f < 8 {
            let s = (r * 8 + f) as u64;
            if own & (1u64 << s) == 0 {
                proof {
                    assert(!bit(own, s));
                    assert(s as int / 8 == r && s as int % 8 == f);
                    assert(abs(s as int % 8 - k as int % 8) <= 1);
                }
                return false;
            }
        }
        proof {
            assert forall|t: u64| t < 64 && t as int / 8 == r && t as int % 8 - kf < df + 1 && #[trigger] abs(t as int % 8 - k as int % 8)
                <= 1 implies bit(own, t) by {
                if t as int % 8 - kf == df {
                    assert(t as int == r * 8 + f);
                }
            }
        }
        df = df + 1;
    }
    true
}

/// The fact of the mate `m`, where `p1` is the position after it, if its
/// pattern is recognised.
fn classify(pos: &Position, p1: &Position, m: Move) -> (f: Option<MatePatternFact>)
    requires
        same_board(*p1, after(*pos, m)),
        p1.board_wf(),
        p1.pieces[1 - pos.stm.spec_index()][5] != 0,
        m.from < 64,
        m.to < 64,
    ensures
        match pattern_of(*pos, m) {
            Some(_) => f is Some && mate_fact(*pos, m, f.unwrap()),
            None => f is None,
        },
{
    let mater = pos.stm;
    let mated = mater.flip();
    let k = p1.king_sq(mated);
    let own = p1.occ[mated.index()];
    let to = m.to;
    let mp = match p1.piece_at_color(mater, to) {
        Some(p) => p,
        None => {
            return None;
        },
    };
    let kind: u8 = if mp == Piece::Knight && smothered(own, k) {
        0
    } else if (mp == Piece::Rook || mp == Piece::Queen) && to / 8 == k / 8 && k / 8 == (match mated {
        Color::White => 0u8,
        Color::Black => 7u8,
    }) && walled(own, mated, k) {
        1
    } else {
        return None;
    };
    assert(pattern_of(*pos, m) == Some(kind as int));
    let na = king_attacks(k);
    let front: u8 = match mated {
        Color::White => 1,
        Color::Black => 6,
    };
    let ghost keep = |t: u8| key_square(*pos, m, t as int);
    let mut names: Vec<String> = Vec::new();
    let mut t: u8 = 0;
    while t < 64
        invariant
            t <= 64,
            k < 64,
            to < 64,
            front as int == front_rank_of(mated),
            mated == pos.stm.spec_flip(),
            k as int == king_square(after(*pos, m).pieces, mated.spec_index()),
            pattern_of(*pos, m) == Some(kind as int),
            m.to == to,
            forall|u: u64| u < 64 ==> #[trigger] bit(na, u) == king_step(k as int, u as int),
            keep == (|t: u8| key_square(*pos, m, t as int)),
            names_of(names@, ascending_filter(keep, t as nat)),
        decreases 64 - t,
    {
        let df = (t % 8) as i32 - (k % 8) as i32;
        let near = -1 <= df && df <= 1;
        let wanted = t == k || t == to || (kind == 0 && na & (1u64 << (t as u64)) != 0) || (kind == 1 && t / 8 == front && near);
        assert(bit(na, t as u64) == king_step(k as int, t as int));
        assert(near == (abs(t as int % 8 - k as int % 8) <= 1));
        assert(wanted == keep(t));
        let ghost before = names@;
        if wanted {
            names.push(square_name(t));
            assert forall|i: int| 0 <= i < names@.len() implies #[trigger] names@[i]@ == crate::facts::position::square_name_spec(
                ascending_filter(keep, (t + 1) as nat)[i]) by {
                if i < before.len() {
                    assert(names@[i] == before[i]);
                }
            }
        }
        t = t + 1;
    }
    let kind_text: &str = if kind == 0 { "smothered_mate" } else { "back_rank_mate" };
    Some(MatePatternFact {
        kind: String::from_str(kind_text),
        validator: String::from_str("mate_pattern_validation"),
        move_uci: m.to_uci(),
        mating_piece: piece_ref(mater, mp, to),
        mated_king: piece_ref(mated, Piece::King, k),
        key_squares: names,
        gives_check: true,
    })
}

} // verus!

verus! {

/// The facts of the recognised mates, in the order of the legal moves, with
/// the mates they name.
fn named_mate_facts(pos: &Position) -> (res: (Vec<MatePatternFact>, Ghost<Seq<Move>>))
    requires
        pos.wf(),
        perft_ok(*pos, 2),
    ensures
        res.0@.len() == res.1@.len(),
        forall|k: int| 0 <= k < res.1@.len() ==> #[trigger] named_mate(*pos, res.1@[k]) && mate_fact(*pos, res.1@[k], res.0@[k]),
        crate::movegen::lists_exactly(res.1@, named_mate_pred(*pos)),
{
    assert(movable(*pos));
    let mut probe = pos.duplicate();
    proof {
        crate::movegen::lemma_same_state_moves(probe, *pos);
    }
    let legal = generate_legal(&mut probe);
    let mut facts: Vec<MatePatternFact> = Vec::new();
    let ghost mut ms: Seq<Move> = Seq::empty();
    let ghost mut idx: Seq<int> = Seq::empty();
    let mut i: usize = 0;
    while i < legal.len()
        invariant
            i <= legal@.len(),
            pos.wf(),
            perft_ok(*pos, 2),
            movable(*pos),
            probe.same_state(*pos),
            crate::movegen::lists_exactly(legal@, |m: Move| legal_move(*pos, m)),
            idx.len() == ms.len(),
            facts@.len() == ms.len(),
            forall|k: int| 0 <= k < idx.len() ==> 0 <= #[trigger] idx[k] < i && legal@[idx[k]] == ms[k],
            forall|k: int, l: int| 0 <= k < l < idx.len() ==> #[trigger] idx[k] < #[trigger] idx[l],
            forall|k: int| 0 <= k < ms.len() ==> #[trigger] named_mate(*pos, ms[k]) && mate_fact(*pos, ms[k], facts@[k]),
            forall|j: int| 0 <= j < i && #[trigger] named_mate(*pos, legal@[j]) ==> exists|k: int| 0 <= k < idx.len() && idx[k] == j,
        decreases legal@.len() - i,
    {
        let m = legal[i];
        assert(legal@.contains(m));
        assert(legal_move(*pos, m));
        let ghost old_idx = idx;
        let ghost old_ms = ms;
        let ghost before = facts@;
        proof {
            crate::movegen::lemma_pseudo_consistent(*pos, m);
            crate::movegen::lemma_same_state_moves(probe, *pos);
            crate::perft::lemma_board_after(probe, *pos, m);
            assert(perft_ok(after(*pos, m), 1));
        }
        let gives = crate::movegen::gives_check(&mut probe, m);
        if gives {
            let mut moved = pos.duplicate();
            proof {
                crate::movegen::lemma_same_state_moves(moved, *pos);
                crate::movegen::lemma_pseudo_consistent(moved, m);
            }
            let ghost before_make = moved;
            moved.make(m);
            proof {
                lemma_child(*pos, before_make, m, moved, 1);
                lemma_board_moves(moved, after(*pos, m));
            }
            let ghost p1 = moved;
            let replies = crate::movegen::has_legal_move(&mut moved);
            if !replies {
                proof {
                    assert forall|r: Move| !#[trigger] legal_move(after(*pos, m), r) by {
                        assert(legal_move(p1, r) == legal_move(after(*pos, m), r));
                    }
                    assert(mates(*pos, m));
                }
                match classify(pos, &moved, m) {
                    Some(f) => {
                        facts.push(f);
                        proof {
                            ms = ms.push(m);
                            idx = idx.push(i as int);
                        }
                    },
                    None => {},
                }
            } else {
                proof {
                    let r = choose|r: Move| legal_move(p1, r);
                    assert(legal_move(after(*pos, m), r));
                }
            }
        }
        proof {
            assert forall|k: int| 0 <= k < ms.len() implies #[trigger] named_mate(*pos, ms[k]) && mate_fact(*pos, ms[k], facts@[k]) by {
                if k < old_ms.len() {
                    assert(ms[k] == old_ms[k] && facts@[k] == before[k]);
                }
            }
            assert forall|j: int| 0 <= j < i + 1 && #[trigger] named_mate(*pos, legal@[j]) implies exists|k: int|
                0 <= k < idx.len() && idx[k] == j by {
                if j < i {
                    let k = choose|k: int| 0 <= k < old_idx.len() && old_idx[k] == j;
                    assert(idx[k] == j);
                } else {
                    assert(idx.len() > old_idx.len());
                    assert(idx[idx.len() - 1] == j);
                }
            }
        }
        i = i + 1;
    }
    proof {
        assert forall|a: int, b: int| 0 <= a < ms.len() && 0 <= b < ms.len() && a != b implies ms[a] != ms[b] by {
            if a < b {
                assert(idx[a] < idx[b]);
            } else {
                assert(idx[b] < idx[a]);
            }
        }
        assert forall|m: Move| #![trigger ms.contains(m)] #![trigger named_mate_pred(*pos)(m)] ms.contains(m) <==> named_mate_pred(*pos)(m) by {
            if ms.contains(m) {
                let k = choose|k: int| 0 <= k < ms.len() && ms[k] == m;
                assert(named_mate(*pos, ms[k]));
            }
            if named_mate(*pos, m) {
                assert(legal@.contains(m));
                let j = choose|j: int| 0 <= j < legal@.len() && legal@[j] == m;
                assert(named_mate(*pos, legal@[j]));
                let k = choose|k: int| 0 <= k < idx.len() && idx[k] == j;
                assert(ms[k] == m);
            }
        }
    }
    (facts, Ghost(ms))
}

/// Sorting the facts of the recognised mates yields one per mate, by move.
#[verifier::spinoff_prover]
proof fn lemma_mate_order(pos: Position, ms: Seq<Move>, unsorted: Seq<MatePatternFact>)
    requires
        unsorted.len() == ms.len(),
        forall|k: int| 0 <= k < ms.len() ==> #[trigger] named_mate(pos, ms[k]) && mate_fact(pos, ms[k], unsorted[k]),
        crate::movegen::lists_exactly(ms, named_mate_pred(pos)),
    ensures
        mate_patterns_ok(pos, sorted_by_key(unsorted)),
{
    lemma_sorted_by_key(unsorted);
    let p = named_mate_pred(pos);
    assert(crate::movegen::lists_exactly(crate::perft::listing_of(p), p));
    crate::movegen::lemma_listing_len(ms, crate::perft::listing_of(p), p);
    assert forall|i: int| 0 <= i < sorted_by_key(unsorted).len() implies #[trigger] fact_of_a_mate(pos, sorted_by_key(unsorted)[i]) by {
        assert(sorted_by_key(unsorted).contains(sorted_by_key(unsorted)[i]));
        assert(unsorted.contains(sorted_by_key(unsorted)[i]));
        let l = choose|l: int| 0 <= l < unsorted.len() && unsorted[l] == sorted_by_key(unsorted)[i];
        assert(named_mate(pos, ms[l]) && mate_fact(pos, ms[l], unsorted[l]));
    }
    assert forall|m: Move| #[trigger] named_mate(pos, m) implies has_mate_fact(pos, m, sorted_by_key(unsorted)) by {
        assert(p(m));
        assert(ms.contains(m));
        let l = choose|l: int| 0 <= l < ms.len() && ms[l] == m;
        assert(named_mate(pos, ms[l]) && mate_fact(pos, ms[l], unsorted[l]));
        assert(unsorted.contains(unsorted[l]));
        assert(sorted_by_key(unsorted).contains(unsorted[l]));
        let i = choose|i: int| 0 <= i < sorted_by_key(unsorted).len() && sorted_by_key(unsorted)[i] == unsorted[l];
        assert(mate_fact(pos, m, sorted_by_key(unsorted)[i]));
    }
}

/// The named mates available to the side to move, ascending by move.
pub fn mate_pattern_opportunities(pos: &Position) -> (c: FactCollection<MatePatternFact>)
    requires
        pos.wf(),
        perft_ok(*pos, 2),
    ensures
        mate_patterns_result(*pos, c),
{
    let (facts, Ghost(ms)) = named_mate_facts(pos);
    proof {
        lemma_mate_order(*pos, ms, facts@);
    }
    FactCollection::computed(sort_by_key(facts))
}

/// `p` is `pos` looked at with `side` to move.
pub open spec fn seen_by(pos: Position, side: Color, p: Position) -> bool {
    crate::facts::position::analysis_probe(pos, side, p)
}


/// The named mates that `side` could deliver: refused for the side not to
/// move while the side to move is in check, else those of the probe with
/// `side` to move.
pub fn mate_pattern_opportunities_for(pos: &Position, side: Color) -> (c: FactCollection<MatePatternFact>)
    requires
        pos.wf(),
        pos.stm == side ==> perft_ok(*pos, 2),
        pos.stm != side ==> pos.pieces[pos.stm.spec_index()][5] != 0 && (!stm_king_attacked_by(*pos, side) ==> forall|p: Position| #[trigger] crate::facts::position::handed_over(*pos, side, p) ==> perft_ok(p, 2)),
    ensures
        pos.stm != side && stm_king_attacked_by(*pos, side) ==> unavailable_because(c, "opposite_side_probe_while_in_check"@),
        !(pos.stm != side && stm_king_attacked_by(*pos, side)) ==> exists|p: Position| #[trigger] seen_by(*pos, side, p) && mate_patterns_result(p, c),
{
    match position_for_analysis_side(pos, side) {
        Ok(probe) => {
            proof {
                if pos.stm == side {
                    crate::perft::lemma_board_perft(probe, *pos, 2);
                }
            }
            let c = mate_pattern_opportunities(&probe);
            assert(seen_by(*pos, side, probe));
            c
        },
        Err(reason) => FactCollection::unavailable(reason),
    }
}

} // verus!
