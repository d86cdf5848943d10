//! Trapped pieces: an enemy knight, bishop, rook or queen that we attack, that
//! we win by exchange where it stands, and every legal move of which lands it
//! on a square where we win it too.
use vstd::prelude::*;
use crate::facts::types::unavailable_because;
use crate::attacks::square_attacked;
use crate::bits::bit;
use crate::facts::lines::names_match;
use crate::facts::piece_safety::{piece_ref, piece_ref_spec, typed_refs};
use crate::facts::position::{analysis_probe, handed_over, position_for_analysis_side, square_name, stm_king_attacked_by};
use crate::facts::remove_guard::{best_capture_see, best_see, lemma_best_see_transfer};
use crate::facts::square_control::attackers_in_id_order;
use crate::facts::types::{FactCollection, TrappedPieceOpportunity};
use crate::facts::xrays::handed;
use crate::movegen::{generate_legal, legal_move, lists_exactly, movable};
use crate::order::{dedup_text, dedup_texts, key_sorted, lemma_sorted_by_key, sort_by_key, sorted_by_key};
use crate::perft::{after, lemma_board_moves, perft_ok};
use crate::position::Position;
use crate::{piece_of_index, Color, Move};

verus! {

/// `mv` is a legal move of the enemy piece on `sq`, the enemy put to move.
pub open spec fn escape_move(pos: Position, sq: int, mv: Move) -> bool {
    legal_move(handed(pos, pos.stm.spec_flip()), mv) && mv.from as int == sq
}

pub open spec fn escape_pred(pos: Position, sq: int) -> spec_fn(Move) -> bool {
    |mv: Move| escape_move(pos, sq, mv)
}

/// What we win of the piece after its escape `mv`.
pub open spec fn escape_gain(pos: Position, mv: Move) -> int {
    best_see(after(handed(pos, pos.stm.spec_flip()), mv), mv.to as int)
}

/// `w` is the least we win of the piece on `sq`, where it stands or after
/// any of its escapes.
pub open spec fn least_loss(pos: Position, sq: int, w: int) -> bool {
    &&& w <= best_see(pos, sq)
    &&& forall|mv: Move| #[trigger] escape_move(pos, sq, mv) ==> w <= escape_gain(pos, mv)
    &&& (w == best_see(pos, sq) || exists|mv: Move| #[trigger] escape_move(pos, sq, mv) && escape_gain(pos, mv) == w)
}

/// Candidate `n` (0..256): an enemy knight, bishop, rook or queen, by type and
/// then square.
pub open spec fn trap_candidate(n: int) -> (int, int) {
    (1 + n / 64, n % 64)
}

/// The enemy piece of candidate `n` is trapped.
pub open spec fn trapped_at(pos: Position, n: int) -> bool {
    let e = pos.stm.spec_flip();
    let (p, sq) = trap_candidate(n);
    &&& bit(pos.pieces[e.spec_index()][p], sq as u64)
    &&& square_attacked(pos.pieces, sq, pos.stm, pos.all)
    &&& best_see(pos, sq) > 0
    &&& !stm_king_attacked_by(pos, e)
    &&& forall|mv: Move| #[trigger] escape_move(pos, sq, mv) ==> escape_gain(pos, mv) > 0
}

/// The destination squares of `s`.
pub open spec fn move_targets(s: Seq<Move>) -> Seq<int> {
    s.map_values(|m: Move| m.to as int)
}

/// `out` is the sorted, de-duplicated list of the names of the escape
/// squares (read from some listing of the escapes).
pub open spec fn escapes_listed(pos: Position, sq: int, out: Seq<String>) -> bool {
    exists|s: Seq<Move>, names: Seq<String>|
        #![trigger lists_exactly(s, escape_pred(pos, sq)), names_match(names, move_targets(s))]
        lists_exactly(s, escape_pred(pos, sq)) && names_match(names, move_targets(s)) && out
            == dedup_text(sorted_by_key(names))
}

/// The fact of trapped candidate `n`.
pub open spec fn trapped_fact(pos: Position, n: int, f: TrappedPieceOpportunity) -> bool {
    let (p, sq) = trap_candidate(n);
    &&& f.kind@ == "trapped_piece"@
    &&& f.validator@ == "trapped_piece_validation"@
    &&& piece_ref_spec(pos.stm.spec_flip(), piece_of_index(p), sq as u8, f.piece)
    &&& typed_refs(pos.stm, f.attackers@, attackers_in_id_order(pos, pos.stm, sq, 384))
    &&& escapes_listed(pos, sq, f.escape_squares_tried@)
    &&& least_loss(pos, sq, f.material_gain as int)
}

/// The number of trapped candidates below `n`.
pub open spec fn trapped_count(pos: Position, n: nat) -> nat
    decreases n,
{
    if n == 0 {
        0
    } else {
        trapped_count(pos, (n - 1) as nat) + if trapped_at(pos, n - 1) { 1nat } else { 0nat }
    }
}

pub open spec fn fact_of_a_trap(pos: Position, f: TrappedPieceOpportunity) -> bool {
    exists|n: int| 0 <= n < 256 && #[trigger] trapped_at(pos, n) && trapped_fact(pos, n, f)
}

pub open spec fn has_trap_fact(pos: Position, n: int, out: Seq<TrappedPieceOpportunity>) -> bool {
    exists|i: int| 0 <= i < out.len() && trapped_fact(pos, n, #[trigger] out[i])
}

/// One fact per trapped enemy piece, ascending by the piece's id.
pub open spec fn traps_ok(pos: Position, out: Seq<TrappedPieceOpportunity>) -> bool {
    &&& out.len() == trapped_count(pos, 256)
    &&& forall|i: int| 0 <= i < out.len() ==> #[trigger] fact_of_a_trap(pos, out[i])
    &&& forall|n: int| 0 <= n < 256 && #[trigger] trapped_at(pos, n) ==> has_trap_fact(pos, n, out)
    &&& key_sorted(out)
}

pub open spec fn traps_result(pos: Position, c: FactCollection<TrappedPieceOpportunity>) -> bool {
    match c {
        FactCollection::Computed { items } => traps_ok(pos, items@),
        _ => false,
    }
}

/// The enemy's replies can be weighed: the side to move can move, and,
/// unless it is in check, the position handed to the enemy is sound two plies
/// deep.
pub open spec fn trap_ready(pos: Position) -> bool {
    &&& pos.wf()
    &&& movable(pos)
    &&& !stm_king_attacked_by(pos, pos.stm.spec_flip()) ==> forall|q: Position| #[trigger] handed_over(pos, pos.stm.spec_flip(), q) ==> perft_ok(q, 2)
}

} // verus!

verus! {

/// What we win of the piece after the escape `mv` of the enemy to move in
/// `h` (the position handed to the enemy).
fn escape_value(pos: &Position, h: &Position, mv: Move) -> (g: i32)
    requires
        pos.wf(),
        handed_over(*pos, pos.stm.spec_flip(), *h),
        perft_ok(*h, 2),
        legal_move(*h, mv),
    ensures
        g == escape_gain(*pos, mv),
{
    let ghost e = pos.stm.spec_flip();
    assert(movable(*h));
    proof {
        crate::movegen::lemma_pseudo_consistent(*h, mv);
    }
    let mut p1 = h.duplicate();
    proof {
        crate::movegen::lemma_same_state_moves(p1, *h);
        crate::movegen::lemma_pseudo_consistent(p1, mv);
    }
    let ghost before = p1;
    p1.make(mv);
    proof {
        crate::perft::lemma_child(*h, before, mv, p1, 1);
        assert(perft_ok(after(*h, mv), 1));
        lemma_board_moves(p1, after(*h, mv));
        crate::perft::lemma_board_after(*h, handed(*pos, e), mv);
    }
    let ghost q = p1;
    let legal = generate_legal(&mut p1);
    proof {
        crate::movegen::lemma_same_state_moves(p1, q);
        assert forall|j: int| 0 <= j < legal@.len() implies (#[trigger] legal@[j]).from < 64 && legal@[j].to < 64 by {
            assert(legal@.contains(legal@[j]));
            assert(legal_move(p1, legal@[j]));
        }
    }
    let g = best_capture_see(&p1, &legal, mv.to);
    proof {
        lemma_best_see_transfer(p1, after(handed(*pos, e), mv), mv.to as int, g as int);
    }
    g
}

} // verus!

verus! {

/// Weighs the escapes of the enemy piece on `sq`, whose legal moves in `h`
/// (the position handed to the enemy) are `legal_h`: `None` when one of them
/// is safe, else the least gain (counting `in_place`, the gain where it
/// stands) and the names of the escape squares, with the escapes they name.
fn weigh_escapes(pos: &Position, h: &Position, legal_h: &Vec<Move>, sq: u8, in_place: i32) -> (r: Option<(i32, Vec<String>, Ghost<Seq<Move>>)>)
    requires
        pos.wf(),
        handed_over(*pos, pos.stm.spec_flip(), *h),
        perft_ok(*h, 2),
        lists_exactly(legal_h@, |m: Move| legal_move(*h, m)),
        sq < 64,
        in_place == best_see(*pos, sq as int),
    ensures
        r is None ==> exists|mv: Move| #[trigger] escape_move(*pos, sq as int, mv) && escape_gain(*pos, mv) <= 0,
        r matches Some(x) ==> {
            &&& least_loss(*pos, sq as int, x.0 as int)
            &&& forall|mv: Move| #[trigger] escape_move(*pos, sq as int, mv) ==> escape_gain(*pos, mv) > 0
            &&& lists_exactly(x.2@, escape_pred(*pos, sq as int))
            &&& names_match(x.1@, move_targets(x.2@))
        },
{
    let ghost e = pos.stm.spec_flip();
    proof {
        lemma_board_moves(*h, handed(*pos, e));
    }
    let mut worst = in_place;
    let mut names: Vec<String> = Vec::new();
    let ghost mut s: Seq<Move> = Seq::empty();
    let ghost mut idx: Seq<int> = Seq::empty();
    let mut i: usize = 0;
    while i < legal_h.len()
        invariant
            i <= legal_h@.len(),
            pos.wf(),
            handed_over(*pos, e, *h),
            e == pos.stm.spec_flip(),
            perft_ok(*h, 2),
            lists_exactly(legal_h@, |m: Move| legal_move(*h, m)),
            forall|m: Move| #[trigger] legal_move(*h, m) == legal_move(handed(*pos, e), m),
            sq < 64,
            in_place == best_see(*pos, sq as int),
            worst <= in_place,
            forall|j: int| 0 <= j < i && #[trigger] legal_h@[j].from == sq ==> worst <= escape_gain(*pos, legal_h@[j]) && escape_gain(
                *pos,
                legal_h@[j],
            ) > 0,
            worst == in_place || exists|j: int| 0 <= j < i && #[trigger] legal_h@[j].from == sq && escape_gain(*pos, legal_h@[j]) == worst,
            idx.len() == s.len(),
            forall|k: int| 0 <= k < idx.len() ==> 0 <= #[trigger] idx[k] < i && legal_h@[idx[k]] == s[k],
            forall|k: int, l: int| 0 <= k < l < idx.len() ==> #[trigger] idx[k] < #[trigger] idx[l],
            forall|k: int| 0 <= k < s.len() ==> (#[trigger] s[k]).from == sq,
            forall|j: int| 0 <= j < i && #[trigger] legal_h@[j].from == sq ==> exists|k: int| 0 <= k < idx.len() && idx[k] == j,
            names_match(names@, move_targets(s)),
        decreases legal_h@.len() - i,
    {
        let mv = legal_h[i];
        assert(legal_h@.contains(mv));
        assert(legal_move(*h, mv));
        let ghost old_idx = idx;
        let ghost old_s = s;
        let ghost old_names = names@;
        let ghost old_worst = worst;
        if mv.from == sq {
            let g = escape_value(pos, h, mv);
            if g <= 0 {
                assert(escape_move(*pos, sq as int, mv));
                return None;
            }
            if g < worst {
                worst = g;
            }
            names.push(square_name(mv.to));
            proof {
                s = s.push(mv);
                idx = idx.push(i as int);
                assert(move_targets(s) =~= move_targets(old_s).push(mv.to as int));
                assert forall|k: int| 0 <= k < names@.len() implies #[trigger] names@[k]@ == crate::facts::position::square_name_spec(
                    move_targets(s)[k] as u8,
                ) by {
                    if k < old_names.len() {
                        assert(names@[k] == old_names[k]);
                    }
                }
            }
        }
        proof {
            assert forall|j: int| 0 <= j < i + 1 && #[trigger] legal_h@[j].from == sq implies worst <= escape_gain(*pos, legal_h@[j])
                && escape_gain(*pos, legal_h@[j]) > 0 by {}
            if worst != in_place {
                if worst == old_worst {
                    let j = choose|j: int| 0 <= j < i && #[trigger] legal_h@[j].from == sq && escape_gain(*pos, legal_h@[j]) == worst;
                    assert(legal_h@[j].from == sq);
                } else {
                    assert(legal_h@[i as int].from == sq);
                }
            }
            assert forall|j: int| 0 <= j < i + 1 && #[trigger] legal_h@[j].from == sq implies exists|k: int|
                0 <= k < idx.len() && idx[k] == j by {
                if j < i {
                    let k = choose|k: int| 0 <= k < old_idx.len() && old_idx[k] == j;
                    assert(idx[k] == j);
                } else {
                    assert(idx[idx.len() - 1] == j);
                }
            }
        }
        i = i + 1;
    }
    proof {
        assert forall|a: int, b: int| 0 <= a < s.len() && 0 <= b < s.len() && a != b implies s[a] != s[b] by {
            if a < b {
                assert(idx[a] < idx[b]);
            } else {
                assert(idx[b] < idx[a]);
            }
        }
        assert forall|m: Move| #![trigger s.contains(m)] #![trigger escape_pred(*pos, sq as int)(m)] s.contains(m) <==> escape_pred(
            *pos,
            sq as int,
        )(m) by {
            if s.contains(m) {
                let k = choose|k: int| 0 <= k < s.len() && s[k] == m;
                assert(legal_h@.contains(legal_h@[idx[k]]));
            }
            if escape_move(*pos, sq as int, m) {
                assert(legal_h@.contains(m));
                let j = choose|j: int| 0 <= j < legal_h@.len() && legal_h@[j] == m;
                assert(legal_h@[j].from == sq);
                let k = choose|k: int| 0 <= k < idx.len() && idx[k] == j;
                assert(s[k] == m);
            }
        }
        assert forall|mv: Move| #[trigger] escape_move(*pos, sq as int, mv) implies worst <= escape_gain(*pos, mv) && escape_gain(*pos, mv)
            > 0 by {
            assert(legal_h@.contains(mv));
            let j = choose|j: int| 0 <= j < legal_h@.len() && legal_h@[j] == mv;
            assert(legal_h@[j].from == sq);
        }
        if worst != in_place {
            let j = choose|j: int| 0 <= j < legal_h@.len() && #[trigger] legal_h@[j].from == sq && escape_gain(*pos, legal_h@[j]) == worst;
            assert(legal_h@.contains(legal_h@[j]));
            assert(escape_move(*pos, sq as int, legal_h@[j]));
        }
    }
    Some((worst, names, Ghost(s)))
}

} // verus!

verus! {

/// The fact of trapped candidate `n`, if it is trapped. `legal_pos` are the
/// legal moves of `pos`; `probe` the position handed to the enemy with its
/// legal moves, absent when the side to move is in check.
fn trap_of(pos: &Position, legal_pos: &Vec<Move>, probe: &Option<(Position, Vec<Move>)>, n: u32) -> (r: Option<TrappedPieceOpportunity>)
    requires
        trap_ready(*pos),
        lists_exactly(legal_pos@, |m: Move| legal_move(*pos, m)),
        forall|j: int| 0 <= j < legal_pos@.len() ==> (#[trigger] legal_pos@[j]).from < 64 && legal_pos@[j].to < 64,
        match probe {
            Some(x) => handed_over(*pos, pos.stm.spec_flip(), x.0) && lists_exactly(x.1@, |m: Move| legal_move(x.0, m))
                && !stm_king_attacked_by(*pos, pos.stm.spec_flip()),
            None => stm_king_attacked_by(*pos, pos.stm.spec_flip()),
        },
        n < 256,
    ensures
        r matches Some(f) ==> trapped_at(*pos, n as int) && trapped_fact(*pos, n as int, f),
        r is None ==> !trapped_at(*pos, n as int),
{
    let us = pos.stm;
    let enemy = us.flip();
    let p = (1 + n / 64) as usize;
    let sq = (n % 64) as u8;
    assert(trap_candidate(n as int) == (p as int, sq as int));
    if pos.pieces[enemy.index()][p] & (1u64 << (sq as u64)) == 0 {
        return None;
    }
    let att = crate::attacks::attackers_of(&pos.pieces, sq, us, pos.all);
    if att == 0 {
        proof {
            crate::bits::lemma_zero_no_bit(att);
            if square_attacked(pos.pieces, sq as int, us, pos.all) {
                let t = choose|t: u64| t < 64 && #[trigger] crate::attacks::attacker_on(pos.pieces, us, t, sq as int, pos.all);
                assert(bit(att, t));
            }
        }
        return None;
    }
    proof {
        crate::bits::lemma_nonzero_has_bit(att);
        let t = choose|t: u64| t < 64 && #[trigger] bit(att, t);
        assert(crate::attacks::attacker_on(pos.pieces, us, t, sq as int, pos.all));
    }
    let in_place = best_capture_see(pos, legal_pos, sq);
    if in_place <= 0 {
        return None;
    }
    let (hp, legal_h) = match probe {
        Some(x) => (&x.0, &x.1),
        None => {
            return None;
        },
    };
    proof {
        assert(perft_ok(*hp, 2));
    }
    let (worst, names, Ghost(s)) = match weigh_escapes(pos, hp, legal_h, sq, in_place) {
        Some(x) => x,
        None => {
            return None;
        },
    };
    let ghost nm = names@;
    let sorted = sort_by_key(names);
    let escapes = dedup_texts(sorted);
    proof {
        assert(lists_exactly(s, escape_pred(*pos, sq as int)) && names_match(nm, move_targets(s)));
        assert(escapes_listed(*pos, sq as int, escapes@));
    }
    let attackers = crate::facts::square_control::attacker_refs(pos, us, sq);
    let pieces = crate::all_pieces();
    assert(pieces[p as int] == piece_of_index(p as int));
    let f = TrappedPieceOpportunity {
        kind: String::from_str("trapped_piece"),
        validator: String::from_str("trapped_piece_validation"),
        piece: piece_ref(enemy, pieces[p], sq),
        attackers,
        escape_squares_tried: escapes,
        material_gain: worst,
    };
    Some(f)
}

} // verus!

verus! {

/// Sorting the facts of the trapped candidates yields one per trapped piece,
/// by id.
proof fn lemma_trap_order(pos: Position, ns: Seq<int>, unsorted: Seq<TrappedPieceOpportunity>)
    requires
        unsorted.len() == ns.len(),
        unsorted.len() == trapped_count(pos, 256),
        forall|k: int| 0 <= k < ns.len() ==> 0 <= #[trigger] ns[k] < 256 && trapped_at(pos, ns[k]) && trapped_fact(pos, ns[k], unsorted[k]),
        forall|n: int| 0 <= n < 256 && #[trigger] trapped_at(pos, n) ==> exists|k: int| 0 <= k < ns.len() && ns[k] == n,
    ensures
        traps_ok(pos, sorted_by_key(unsorted)),
{
    lemma_sorted_by_key(unsorted);
    let out = sorted_by_key(unsorted);
    assert forall|i: int| 0 <= i < out.len() implies #[trigger] fact_of_a_trap(pos, out[i]) by {
        assert(out.contains(out[i]));
        assert(unsorted.contains(out[i]));
        let l = choose|l: int| 0 <= l < unsorted.len() && unsorted[l] == out[i];
        assert(trapped_at(pos, ns[l]) && trapped_fact(pos, ns[l], unsorted[l]));
    }
    assert forall|n: int| 0 <= n < 256 && #[trigger] trapped_at(pos, n) implies has_trap_fact(pos, n, out) by {
        let k = choose|k: int| 0 <= k < ns.len() && ns[k] == n;
        assert(trapped_fact(pos, ns[k], unsorted[k]));
        assert(unsorted.contains(unsorted[k]));
        assert(out.contains(unsorted[k]));
        let i = choose|i: int| 0 <= i < out.len() && out[i] == unsorted[k];
        assert(trapped_fact(pos, n, out[i]));
    }
}

/// The enemy knights, bishops, rooks and queens that are trapped, by id.
pub fn trapped_pieces(pos: &Position) -> (c: FactCollection<TrappedPieceOpportunity>)
    requires
        trap_ready(*pos),
    ensures
        traps_result(*pos, c),
{
    let us = pos.stm;
    let enemy = us.flip();
    let mut own = pos.duplicate();
    proof {
        crate::movegen::lemma_same_state_moves(own, *pos);
    }
    let legal_pos = generate_legal(&mut own);
    proof {
        crate::movegen::lemma_same_state_moves(own, *pos);
        assert forall|j: int| 0 <= j < legal_pos@.len() implies (#[trigger] legal_pos@[j]).from < 64 && legal_pos@[j].to < 64 by {
            assert(legal_pos@.contains(legal_pos@[j]));
            assert(legal_move(*pos, legal_pos@[j]));
        }
    }
    let probe: Option<(Position, Vec<Move>)> = match position_for_analysis_side(pos, enemy) {
        Ok(h) => {
            let mut h = h;
            let ghost h0 = h;
            proof {
                assert(perft_ok(h, 2));
            }
            let legal_h = generate_legal(&mut h);
            proof {
                crate::movegen::lemma_same_state_moves(h, h0);
            }
            Some((h, legal_h))
        },
        Err(_) => None,
    };
    let mut facts: Vec<TrappedPieceOpportunity> = Vec::new();
    let ghost mut ns: Seq<int> = Seq::empty();
    let mut n: u32 = 0;
    while n < 256
        invariant
            n <= 256,
            trap_ready(*pos),
            lists_exactly(legal_pos@, |m: Move| legal_move(*pos, m)),
            forall|j: int| 0 <= j < legal_pos@.len() ==> (#[trigger] legal_pos@[j]).from < 64 && legal_pos@[j].to < 64,
            match probe {
                Some(x) => handed_over(*pos, pos.stm.spec_flip(), x.0) && lists_exactly(x.1@, |m: Move| legal_move(x.0, m))
                    && !stm_king_attacked_by(*pos, pos.stm.spec_flip()),
                None => stm_king_attacked_by(*pos, pos.stm.spec_flip()),
            },
            facts@.len() == ns.len(),
            facts@.len() == trapped_count(*pos, n as nat),
            forall|k: int| 0 <= k < ns.len() ==> 0 <= #[trigger] ns[k] < n && trapped_at(*pos, ns[k]) && trapped_fact(*pos, ns[k], facts@[k]),
            forall|j: int| 0 <= j < n && #[trigger] trapped_at(*pos, j) ==> exists|k: int| 0 <= k < ns.len() && ns[k] == j,
        decreases 256 - n,
    {
        let ghost old_ns = ns;
        let ghost before = facts@;
        match trap_of(pos, &legal_pos, &probe, n) {
            Some(f) => {
                facts.push(f);
                proof {
                    ns = ns.push(n as int);
                }
            },
            None => {},
        }
        proof {
            assert forall|k: int| 0 <= k < ns.len() implies 0 <= #[trigger] ns[k] < n + 1 && trapped_at(*pos, ns[k]) && trapped_fact(
                *pos,
                ns[k],
                facts@[k],
            ) by {
                if k < old_ns.len() {
                    assert(ns[k] == old_ns[k] && facts@[k] == before[k]);
                }
            }
            assert forall|j: int| 0 <= j < n + 1 && #[trigger] trapped_at(*pos, j) implies exists|k: int| 0 <= k < ns.len() && ns[k] == j by {
                if j < n {
                    let k = choose|k: int| 0 <= k < old_ns.len() && old_ns[k] == j;
                    assert(ns[k] == j);
                } else {
                    assert(ns[ns.len() - 1] == j);
                }
            }
        }
        n = n + 1;
    }
    proof {
        lemma_trap_order(*pos, ns, facts@);
    }
    FactCollection::computed(sort_by_key(facts))
}

/// The pieces that `side` has trapped: refused for the side not to move while
/// the side to move is in check, else those of the probe with `side` to move.
pub fn trapped_pieces_for(pos: &Position, side: Color) -> (c: FactCollection<TrappedPieceOpportunity>)
    requires
        pos.wf(),
        pos.pieces[pos.stm.spec_index()][5] != 0,
        !(pos.stm != side && stm_king_attacked_by(*pos, side)) ==> forall|p: Position| #[trigger] analysis_probe(*pos, side, p) ==> trap_ready(p),
    ensures
        pos.stm != side && stm_king_attacked_by(*pos, side) ==> unavailable_because(
            c,
            "opposite_side_probe_while_in_check"@,
        ),
        !(pos.stm != side && stm_king_attacked_by(*pos, side)) ==> exists|p: Position| #[trigger] analysis_probe(*pos, side, p) && traps_result(p, c),
{
    match position_for_analysis_side(pos, side) {
        Ok(probe) => {
            assert(analysis_probe(*pos, side, probe));
            trapped_pieces(&probe)
        },
        Err(reason) => FactCollection::unavailable(reason),
    }
}

} // verus!
