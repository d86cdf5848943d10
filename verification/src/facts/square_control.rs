//! Square control: for every square, the pieces of each side that attack it
//! and the pieces that can legally move onto it.
use vstd::prelude::*;
use crate::facts::types::unavailable_because;
use crate::attacks::attacker_on;
use crate::bits::bit;
use crate::facts::piece_safety::{own_candidate, piece_ref, piece_ref_spec, typed_refs};
use crate::facts::position::{
    analysable, analysis_probe, lemma_probe_movable, position_for_analysis_side, square_in_name_order, square_name,
    square_name_spec, stm_king_attacked_by,
};
use crate::facts::types::{FactCollection, PieceRef, SquareFact};
use crate::movegen::{generate_legal, legal_move, movable};
use crate::perft::listing_of;
use crate::position::{spec_piece_at, Position};
use crate::{all_pieces, piece_of_index, Color, Move, Piece};

verus! {

/// The legal moves of `p` from `u` to `t`.
pub open spec fn moves_between(p: Position, u: int, t: int) -> spec_fn(Move) -> bool {
    |m: Move| legal_move(p, m) && m.from as int == u && m.to as int == t
}

/// How many legal moves of `p` go from `u` to `t`.
pub open spec fn move_count(p: Position, u: int, t: int) -> nat {
    listing_of(moves_between(p, u, t)).len()
}

/// The pieces of `side` among the first `n` candidates (in id order) that
/// attack `t`.
pub open spec fn attackers_in_id_order(pos: Position, side: Color, t: int, n: nat) -> Seq<(int, u8)>
    decreases n,
{
    if n == 0 {
        Seq::empty()
    } else {
        let prev = attackers_in_id_order(pos, side, t, (n - 1) as nat);
        let (p, u) = own_candidate(n - 1);
        if bit(pos.pieces[side.spec_index()][p], u as u64) && attacker_on(pos.pieces, side, u as u64, t, pos.all) {
            prev.push((p, u as u8))
        } else {
            prev
        }
    }
}

/// The pieces of the side to move of `p` among the first `n` candidates (in
/// id order), each repeated once per legal move it has onto `t`.
pub open spec fn movers_in_id_order(p: Position, t: int, n: nat) -> Seq<(int, u8)>
    decreases n,
{
    if n == 0 {
        Seq::empty()
    } else {
        let prev = movers_in_id_order(p, t, (n - 1) as nat);
        let (k, u) = own_candidate(n - 1);
        if bit(p.pieces[p.stm.spec_index()][k], u as u64) {
            prev + Seq::new(move_count(p, u, t), |i: int| (k, u as u8))
        } else {
            prev
        }
    }
}

pub open spec fn movers_fact(p: Position, t: int, c: FactCollection<PieceRef>) -> bool {
    match c {
        FactCollection::Computed { items } => typed_refs(p.stm, items@, movers_in_id_order(p, t, 384)),
        _ => false,
    }
}


/// The movers of `side` onto `t`: those of `pos` for the side to move, those
/// of the probe for the other side, or the probe's refusal.
pub open spec fn side_movers(pos: Position, probe: Option<Position>, side: Color, t: int, c: FactCollection<PieceRef>) -> bool {
    if side == pos.stm {
        movers_fact(pos, t, c)
    } else {
        match probe {
            Some(p) => movers_fact(p, t, c),
            None => unavailable_because(c, "opposite_side_probe_while_in_check"@),
        }
    }
}

/// The fact of square `t`.
pub open spec fn square_fact_ok(pos: Position, probe: Option<Position>, t: int, f: SquareFact) -> bool {
    let w = attackers_in_id_order(pos, Color::White, t, 384);
    let b = attackers_in_id_order(pos, Color::Black, t, 384);
    &&& f.square@ == square_name_spec(t as u8)
    &&& f.occupied == (spec_piece_at(pos, t as u64) is Some)
    &&& typed_refs(Color::White, f.attacked_by_white@, w)
    &&& typed_refs(Color::Black, f.attacked_by_black@, b)
    &&& f.controlled_by_white == (w.len() > 0)
    &&& f.controlled_by_black == (b.len() > 0)
    &&& side_movers(pos, probe, Color::White, t, f.legal_movers_white)
    &&& side_movers(pos, probe, Color::Black, t, f.legal_movers_black)
}

/// The facts of all 64 squares, ascending, against the given probe of the
/// side not to move.
pub open spec fn squares_ok(pos: Position, probe: Option<Position>, facts: Seq<SquareFact>) -> bool {
    &&& facts.len() == 64
    &&& forall|t: int| 0 <= t < 64 ==> #[trigger] square_fact_ok(pos, probe, t, facts[t])
}

/// The square facts of `pos`, the probe of the other side being refused
/// exactly while the side to move is in check.
pub open spec fn square_control_result(pos: Position, c: FactCollection<SquareFact>) -> bool {
    match c {
        FactCollection::Computed { items } => if stm_king_attacked_by(pos, pos.stm.spec_flip()) {
            squares_ok(pos, None, items@)
        } else {
            exists|p: Position| #[trigger] analysis_probe(pos, pos.stm.spec_flip(), p) && squares_ok(pos, Some(p), items@)
        },
        _ => false,
    }
}

} // verus!

verus! {

/// The number of listed moves from `u` to `t`, in a list of exactly the legal moves of `p`.
fn count_moves(list: &Vec<Move>, Ghost(p): Ghost<Position>, u: u8, t: u8) -> (n: usize)
    requires
        list@.no_duplicates(),
        forall|m: Move| list@.contains(m) <==> #[trigger] legal_move(p, m),
    ensures
        n == move_count(p, u as int, t as int),
{
    let ghost mut f: Seq<Move> = Seq::empty();
    let mut n: usize = 0;
    let mut j: usize = 0;
    while j < list.len()
        invariant
            j <= list@.len(),
            n == f.len(),
            n <= j,
            f.no_duplicates(),
            list@.no_duplicates(),
            forall|m: Move| list@.contains(m) <==> #[trigger] legal_move(p, m),
            forall|m: Move| #[trigger] f.contains(m) <==> (list@.take(j as int).contains(m) && m.from == u && m.to == t),
        decreases list@.len() - j,
    {
        let m = list[j];
        let ghost old_f = f;
        assert(list@.take(j as int + 1) =~= list@.take(j as int).push(m));
        if m.from == u && m.to == t {
            proof {
                if old_f.contains(m) {
                    let tj = list@.take(j as int);
                    assert(tj.contains(m));
                    let k = choose|k: int| 0 <= k < tj.len() && tj[k] == m;
                    assert(list@[k] == list@[j as int]);
                }
                f = f.push(m);
                assert forall|a: int, b: int| 0 <= a < b < f.len() implies #[trigger] f[a] != #[trigger] f[b] by {
                    if b == f.len() - 1 {
                        assert(old_f.contains(f[a]));
                    }
                }
                assert forall|x: Move| #[trigger] f.contains(x) <==> (list@.take(j as int + 1).contains(x) && x.from == u && x.to == t) by {
                    let tk = list@.take(j as int + 1);
                    if f.contains(x) && x != m {
                        let k = choose|k: int| 0 <= k < f.len() && f[k] == x;
                        assert(old_f[k] == x);
                        assert(old_f.contains(x));
                        let tj = list@.take(j as int);
                        assert(tj.contains(x));
                        let i = choose|i: int| 0 <= i < tj.len() && tj[i] == x;
                        assert(tk[i] == x);
                    }
                    if tk.contains(x) && x.from == u && x.to == t && x != m {
                        let k = choose|k: int| 0 <= k < tk.len() && tk[k] == x;
                        assert(list@.take(j as int)[k] == x);
                        assert(old_f.contains(x));
                        let l = choose|l: int| 0 <= l < old_f.len() && old_f[l] == x;
                        assert(f[l] == x);
                    }
                    if x == m {
                        assert(f[f.len() - 1] == m);
                        assert(tk[j as int] == m);
                    }
                }
            }
            n = n + 1;
        } else {
            proof {
                assert forall|x: Move| #[trigger] f.contains(x) <==> (list@.take(j as int + 1).contains(x) && x.from == u && x.to == t) by {
                    let tk = list@.take(j as int + 1);
                    if tk.contains(x) && x.from == u && x.to == t {
                        let k = choose|k: int| 0 <= k < tk.len() && tk[k] == x;
                        assert(k != j);
                        assert(list@.take(j as int)[k] == x);
                    }
                }
            }
        }
        j = j + 1;
    }
    proof {
        assert(list@.take(list@.len() as int) =~= list@);
        let q = moves_between(p, u as int, t as int);
        assert forall|m: Move| #![trigger f.contains(m)] #![trigger q(m)] f.contains(m) <==> q(m) by {}
        assert(crate::movegen::lists_exactly(f, q));
        assert(crate::movegen::lists_exactly(listing_of(q), q));
        crate::movegen::lemma_listing_len(f, listing_of(q), q);
    }
    n
}

} // verus!

verus! {

/// The pieces of `side` attacking `t`, in id order.
pub(crate) fn attacker_refs(pos: &Position, side: Color, t: u8) -> (refs: Vec<PieceRef>)
    requires
        t < 64,
    ensures
        typed_refs(side, refs@, attackers_in_id_order(*pos, side, t as int, 384)),
{
    let a = crate::attacks::attackers_of(&pos.pieces, t, side, pos.all);
    let pieces = all_pieces();
    let mut out: Vec<PieceRef> = Vec::new();
    let mut k: u32 = 0;
    while k < 384
        invariant
            k <= 384,
            t < 64,
            forall|i: int| 0 <= i < 6 ==> #[trigger] pieces[i] == piece_of_index(i),
            forall|u: u64| u < 64 ==> #[trigger] bit(a, u) == attacker_on(pos.pieces, side, u, t as int, pos.all),
            typed_refs(side, out@, attackers_in_id_order(*pos, side, t as int, k as nat)),
        decreases 384 - k,
    {
        let p = crate::facts::piece_safety::piece_in_word_order(k / 64);
        let u = square_in_name_order(k % 64);
        assert(own_candidate(k as int) == (p as int, u as int));
        let ghost before = out@;
        if pos.pieces[side.index()][p] & (1u64 << (u as u64)) != 0 && a & (1u64 << (u as u64)) != 0 {
            assert(bit(a, u as u64));
            out.push(piece_ref(side, pieces[p], u));
            assert forall|i: int| 0 <= i < out@.len() implies #[trigger] piece_ref_spec(
                side,
                piece_of_index(attackers_in_id_order(*pos, side, t as int, (k + 1) as nat)[i].0),
                attackers_in_id_order(*pos, side, t as int, (k + 1) as nat)[i].1,
                out@[i],
            ) by {
                if i < before.len() {
                    assert(out@[i] == before[i]);
                }
            }
        } else {
            assert(!(bit(pos.pieces[side.spec_index()][p as int], u as u64) && bit(a, u as u64)));
        }
        k = k + 1;
    }
    out
}

/// The pieces of the side to move of `p` that can legally move onto `t`,
/// in id order, once per move; `list` lists exactly the legal moves of `p`.
fn mover_refs(p: &Position, list: &Vec<Move>, t: u8) -> (refs: Vec<PieceRef>)
    requires
        t < 64,
        list@.no_duplicates(),
        forall|m: Move| list@.contains(m) <==> #[trigger] legal_move(*p, m),
    ensures
        typed_refs(p.stm, refs@, movers_in_id_order(*p, t as int, 384)),
{
    let side = p.stm;
    let pieces = all_pieces();
    let mut out: Vec<PieceRef> = Vec::new();
    let mut k: u32 = 0;
    while k < 384
        invariant
            k <= 384,
            t < 64,
            side == p.stm,
            list@.no_duplicates(),
            forall|m: Move| list@.contains(m) <==> #[trigger] legal_move(*p, m),
            forall|i: int| 0 <= i < 6 ==> #[trigger] pieces[i] == piece_of_index(i),
            typed_refs(side, out@, movers_in_id_order(*p, t as int, k as nat)),
        decreases 384 - k,
    {
        let pt = crate::facts::piece_safety::piece_in_word_order(k / 64);
        let u = square_in_name_order(k % 64);
        assert(own_candidate(k as int) == (pt as int, u as int));
        if p.pieces[side.index()][pt] & (1u64 << (u as u64)) != 0 {
            let cnt = count_moves(list, Ghost(*p), u, t);
            let ghost base = out@;
            let ghost prev = movers_in_id_order(*p, t as int, k as nat);
            let mut c: usize = 0;
            while c < cnt
                invariant
                    c <= cnt,
                    out@.len() == base.len() + c,
                    base.len() == prev.len(),
                    forall|i: int| 0 <= i < base.len() ==> #[trigger] out@[i] == base[i],
                    typed_refs(side, base, prev),
                    forall|i: int| base.len() <= i < out@.len() ==> #[trigger] piece_ref_spec(side, piece_of_index(pt as int), u, out@[i]),
                    forall|i: int| 0 <= i < 6 ==> #[trigger] pieces[i] == piece_of_index(i),
                    pt < 6,
                decreases cnt - c,
            {
                out.push(piece_ref(side, pieces[pt], u));
                c = c + 1;
            }
            proof {
                let want = movers_in_id_order(*p, t as int, (k + 1) as nat);
                assert(want == prev + Seq::new(move_count(*p, u as int, t as int), |i: int| (pt as int, u)));
                assert forall|i: int| 0 <= i < out@.len() implies #[trigger] piece_ref_spec(
                    side,
                    piece_of_index(want[i].0),
                    want[i].1,
                    out@[i],
                ) by {
                    if i < base.len() {
                        assert(out@[i] == base[i]);
                        assert(want[i] == prev[i]);
                    } else {
                        assert(want[i] == (pt as int, u));
                    }
                }
            }
        }
        k = k + 1;
    }
    out
}

} // verus!

verus! {

/// `list` lists exactly the legal moves of `p`.
pub open spec fn lists_legal(p: Position, list: Seq<Move>) -> bool {
    list.no_duplicates() && forall|m: Move| list.contains(m) <==> #[trigger] legal_move(p, m)
}

/// The movers of `side` onto `t`.
fn side_mover_refs(
    pos: &Position,
    side: Color,
    t: u8,
    own: &Vec<Move>,
    other: &Option<(Position, Vec<Move>)>,
    Ghost(probe): Ghost<Option<Position>>,
) -> (c: FactCollection<PieceRef>)
    requires
        t < 64,
        lists_legal(*pos, own@),
        other matches Some(x) ==> probe == Some(x.0) && lists_legal(x.0, x.1@) && x.0.stm == pos.stm.spec_flip(),
        other is None ==> probe is None,
    ensures
        side_movers(*pos, probe, side, t as int, c),
{
    if side == pos.stm {
        FactCollection::computed(mover_refs(pos, own, t))
    } else {
        match other {
            Some(x) => {
                assert(x.0.stm == side);
                FactCollection::computed(mover_refs(&x.0, &x.1, t))
            },
            None => FactCollection::unavailable("opposite_side_probe_while_in_check"),
        }
    }
}

fn square_fact(
    pos: &Position,
    t: u8,
    own: &Vec<Move>,
    other: &Option<(Position, Vec<Move>)>,
    Ghost(probe): Ghost<Option<Position>>,
) -> (f: SquareFact)
    requires
        pos.board_wf(),
        t < 64,
        lists_legal(*pos, own@),
        other matches Some(x) ==> probe == Some(x.0) && lists_legal(x.0, x.1@) && x.0.stm == pos.stm.spec_flip(),
        other is None ==> probe is None,
    ensures
        square_fact_ok(*pos, probe, t as int, f),
{
    let white = attacker_refs(pos, Color::White, t);
    let black = attacker_refs(pos, Color::Black, t);
    let controlled_by_white = white.len() > 0;
    let controlled_by_black = black.len() > 0;
    SquareFact {
        square: square_name(t),
        occupied: pos.piece_at(t).is_some(),
        attacked_by_white: white,
        attacked_by_black: black,
        controlled_by_white,
        controlled_by_black,
        legal_movers_white: side_mover_refs(pos, Color::White, t, own, other, Ghost(probe)),
        legal_movers_black: side_mover_refs(pos, Color::Black, t, own, other, Ghost(probe)),
    }
}

/// For every square, ascending: its name, whether it is occupied, the pieces
/// of each side attacking it (in id order) and whether each side controls
/// it, and for each side the pieces that can legally move onto it (in id
/// order, once per move; for the side not to move those of the probe with it
/// to move, refused while the side to move is in check).
pub fn square_control_facts(pos: &Position) -> (c: FactCollection<SquareFact>)
    requires
        analysable(*pos),
    ensures
        square_control_result(*pos, c),
{
    let mut mine = pos.duplicate();
    proof {
        crate::movegen::lemma_same_state_moves(mine, *pos);
    }
    let own = generate_legal(&mut mine);
    let opp = pos.stm.flip();
    let ghost mut probe: Option<Position> = None;
    let other: Option<(Position, Vec<Move>)> = match position_for_analysis_side(pos, opp) {
        Ok(p) => {
            let mut p = p;
            proof {
                lemma_probe_movable(*pos, opp, p);
            }
            let p0 = p.duplicate();
            proof {
                crate::movegen::lemma_same_state_moves(p0, p);
                probe = Some(p0);
            }
            let l = generate_legal(&mut p);
            Some((p0, l))
        },
        Err(_) => None,
    };
    let mut facts: Vec<SquareFact> = Vec::new();
    let mut t: u8 = 0;
    while t < 64
        invariant
            t <= 64,
            pos.board_wf(),
            lists_legal(*pos, own@),
            other matches Some(x) ==> probe == Some(x.0) && lists_legal(x.0, x.1@) && x.0.stm == pos.stm.spec_flip(),
            other is None ==> probe is None,
            facts@.len() == t,
            forall|s: int| 0 <= s < t ==> #[trigger] square_fact_ok(*pos, probe, s, facts@[s]),
        decreases 64 - t,
    {
        let f = square_fact(pos, t, &own, &other, Ghost(probe));
        facts.push(f);
        t = t + 1;
    }
    proof {
        match probe {
            Some(p) => {
                assert(analysis_probe(*pos, pos.stm.spec_flip(), p));
            },
            None => {},
        }
    }
    FactCollection::computed(facts)
}

} // verus!
