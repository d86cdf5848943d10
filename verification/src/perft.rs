//! Perft: count the leaf nodes of the legal move tree to a fixed depth, the
//! standard correctness oracle for move generation and make/unmake.
use vstd::prelude::*;
use crate::bits::bit;
use crate::attacks::square_attacked;
use crate::movegen::{is_noisy, king_square};
use crate::movegen::{generate_legal, legal_move, lists_exactly, made_pieces, movable, pawns_in_range,
    rights_consistent, ep_consistent, lemma_pseudo_consistent, lemma_same_state_moves};
use crate::position::{Position, make_occ, make_all, make_castling, make_ep, make_hash, make_pieces,
    make_result, resets_halfmove};
use crate::{Color, Move};

verus! {

/// The board reached by making `mv` on `pos` (the undo stack is left as it was;
/// nothing that counts moves reads it).
pub open spec fn after(pos: Position, mv: Move) -> Position {
    Position {
        pieces: made_pieces(pos, mv),
        occ: [make_occ(pos, mv, 0), make_occ(pos, mv, 1)],
        all: make_all(pos, mv),
        stm: pos.stm.spec_flip(),
        castling: make_castling(pos, mv),
        ep: make_ep(pos, mv),
        halfmove: if resets_halfmove(pos, mv) { 0 } else { (pos.halfmove + 1) as u16 },
        fullmove: if pos.stm == Color::Black { (pos.fullmove + 1) as u16 } else { pos.fullmove },
        hash: make_hash(pos, mv),
        history: pos.history,
    }
}

/// The two positions agree on every field that move generation and the move
/// clocks read.
pub open spec fn same_board(a: Position, b: Position) -> bool {
    &&& a.pieces == b.pieces
    &&& a.occ == b.occ
    &&& a.all == b.all
    &&& a.stm == b.stm
    &&& a.castling == b.castling
    &&& a.ep == b.ep
    &&& a.halfmove == b.halfmove
    &&& a.fullmove == b.fullmove
}

/// The board part of `movable`: moves can be generated and played.
pub open spec fn ready(pos: Position) -> bool {
    &&& pos.board_wf()
    &&& pawns_in_range(pos)
    &&& rights_consistent(pos)
    &&& ep_consistent(pos)
    &&& pos.halfmove < u16::MAX
    &&& pos.fullmove < u16::MAX
    &&& pos.pieces[pos.stm.spec_index()][5] != 0
}

/// Every position of the legal move tree above `depth` can generate and play
/// its moves.
pub open spec fn perft_ok(pos: Position, depth: nat) -> bool
    decreases depth,
{
    depth == 0 || (ready(pos) && forall|m: Move| #[trigger] legal_move(pos, m) ==> perft_ok(after(pos, m), (depth - 1) as nat))
}

/// An exact listing of the moves satisfying `p` (any one, when one exists).
pub open spec fn listing_of(p: spec_fn(Move) -> bool) -> Seq<Move> {
    choose|s: Seq<Move>| lists_exactly(s, p)
}

/// The legal moves of `pos`, in some order.
pub open spec fn legal_list(pos: Position) -> Seq<Move> {
    listing_of(|m: Move| legal_move(pos, m))
}

/// The number of leaf nodes of the legal move tree of `pos` at `depth`.
pub open spec fn spec_perft(pos: Position, depth: nat) -> nat
    decreases depth, 0nat,
{
    if depth == 0 {
        1
    } else {
        perft_sum(pos, legal_list(pos), (depth - 1) as nat)
    }
}

/// The sum, over the moves `s` of `pos`, of the leaf counts at `depth` below them.
pub open spec fn perft_sum(pos: Position, s: Seq<Move>, depth: nat) -> nat
    decreases depth, s.len(),
{
    if s.len() == 0 {
        0
    } else {
        perft_sum(pos, s.drop_last(), depth) + spec_perft(after(pos, s.last()), depth)
    }
}

/// Making a move yields the board of `after`.
pub proof fn lemma_make_after(p0: Position, mv: Move, p1: Position)
    requires
        make_result(p0, mv, p1),
    ensures
        same_board(p1, after(p0, mv)),
{
    assert(p1.pieces[0] =~= made_pieces(p0, mv)[0]);
    assert(p1.pieces[1] =~= made_pieces(p0, mv)[1]);
    assert(p1.pieces =~= made_pieces(p0, mv));
    assert(p1.occ =~= after(p0, mv).occ);
}

/// Whether a move is legal depends only on the board fields.
#[verifier::spinoff_prover]
proof fn lemma_board_legal(a: Position, b: Position, m: Move)
    requires
        same_board(a, b),
    ensures
        legal_move(a, m) == legal_move(b, m),
{
    assert(made_pieces(a, m) == made_pieces(b, m)) by {
        reveal(make_pieces);
        assert(made_pieces(a, m)[0] =~= made_pieces(b, m)[0]);
        assert(made_pieces(a, m)[1] =~= made_pieces(b, m)[1]);
    }
    assert(make_all(a, m) == make_all(b, m)) by {
        reveal(make_all);
    }
}

/// The board after a move depends only on the board fields.
#[verifier::spinoff_prover]
pub proof fn lemma_board_after(a: Position, b: Position, m: Move)
    requires
        same_board(a, b),
    ensures
        same_board(after(a, m), after(b, m)),
{
    assert(made_pieces(a, m) == made_pieces(b, m)) by {
        reveal(make_pieces);
        assert(made_pieces(a, m)[0] =~= made_pieces(b, m)[0]);
        assert(made_pieces(a, m)[1] =~= made_pieces(b, m)[1]);
    }
    assert(make_all(a, m) == make_all(b, m)) by {
        reveal(make_all);
    }
    assert(make_occ(a, m, 0) == make_occ(b, m, 0) && make_occ(a, m, 1) == make_occ(b, m, 1)) by {
        reveal(make_occ);
    }
    assert(make_castling(a, m) == make_castling(b, m)) by {
        reveal(make_castling);
    }
    assert(after(a, m).occ =~= after(b, m).occ);
}

/// Move generation and the next boards depend only on the board fields.
pub proof fn lemma_board_moves(a: Position, b: Position)
    requires
        same_board(a, b),
    ensures
        ready(a) == ready(b),
        forall|m: Move| #[trigger] legal_move(a, m) == legal_move(b, m),
        forall|m: Move| #[trigger] same_board(after(a, m), after(b, m)),
{
    assert forall|m: Move| #[trigger] legal_move(a, m) == legal_move(b, m) by {
        lemma_board_legal(a, b, m);
    }
    assert forall|m: Move| #[trigger] same_board(after(a, m), after(b, m)) by {
        lemma_board_after(a, b, m);
    }
}

/// Removing the member at `j` takes its term out of the sum.
proof fn lemma_sum_remove(pos: Position, s: Seq<Move>, j: int, d: nat)
    requires
        0 <= j < s.len(),
    ensures
        perft_sum(pos, s, d) == perft_sum(pos, s.remove(j), d) + spec_perft(after(pos, s[j]), d),
    decreases s.len(),
{
    if j == s.len() - 1 {
        assert(s.remove(j) =~= s.drop_last());
    } else {
        lemma_sum_remove(pos, s.drop_last(), j, d);
        assert(s.remove(j).drop_last() =~= s.drop_last().remove(j));
        assert(s.remove(j).last() == s.last());
    }
}

/// The sum does not depend on the order of the moves.
pub proof fn lemma_sum_perm(pos: Position, a: Seq<Move>, b: Seq<Move>, d: nat)
    requires
        a.no_duplicates(),
        b.no_duplicates(),
        forall|m: Move| a.contains(m) <==> b.contains(m),
    ensures
        perft_sum(pos, a, d) == perft_sum(pos, b, d),
    decreases a.len(),
{
    if a.len() == 0 {
        if b.len() > 0 {
            assert(b.contains(b[0]));
        }
    } else {
        let x = a.last();
        assert(a.contains(x));
        let j = choose|j: int| 0 <= j < b.len() && b[j] == x;
        let a2 = a.drop_last();
        let b2 = b.remove(j);
        assert forall|m: Move| a2.contains(m) <==> b2.contains(m) by {
            if a2.contains(m) {
                let i = choose|i: int| 0 <= i < a2.len() && a2[i] == m;
                assert(a[i] == m);
                assert(m != x);
                assert(b.contains(m));
                let k = choose|k: int| 0 <= k < b.len() && b[k] == m;
                assert(k != j);
                if k < j {
                    assert(b2[k] == m);
                } else {
                    assert(b2[k - 1] == m);
                }
            }
            if b2.contains(m) {
                let k = choose|k: int| 0 <= k < b2.len() && b2[k] == m;
                let kk = if k < j { k } else { k + 1 };
                assert(b[kk] == m);
                assert(kk != j);
                assert(m != x);
                assert(a.contains(m));
                let i = choose|i: int| 0 <= i < a.len() && a[i] == m;
                assert(i != a.len() - 1);
                assert(a2[i] == m);
            }
        }
        assert forall|p: int, q: int| 0 <= p < b2.len() && 0 <= q < b2.len() && p != q implies b2[p] != b2[q] by {
            let pp = if p < j { p } else { p + 1 };
            let qq = if q < j { q } else { q + 1 };
            assert(b2[p] == b[pp] && b2[q] == b[qq]);
        }
        assert forall|p: int, q: int| 0 <= p < a2.len() && 0 <= q < a2.len() && p != q implies a2[p] != a2[q] by {
            assert(a2[p] == a[p] && a2[q] == a[q]);
        }
        lemma_sum_perm(pos, a2, b2, d);
        lemma_sum_remove(pos, b, j, d);
    }
}

/// At depth zero below every move, the sum counts the moves.
pub proof fn lemma_sum_count(pos: Position, s: Seq<Move>)
    ensures
        perft_sum(pos, s, 0) == s.len(),
    decreases s.len(),
{
    if s.len() > 0 {
        lemma_sum_count(pos, s.drop_last());
        assert(spec_perft(after(pos, s.last()), 0) == 1);
    }
}

/// A prefix sums to at most the whole.
proof fn lemma_sum_prefix(pos: Position, s: Seq<Move>, i: int, d: nat)
    requires
        0 <= i <= s.len(),
    ensures
        perft_sum(pos, s.take(i), d) <= perft_sum(pos, s, d),
    decreases s.len() - i,
{
    if i < s.len() {
        lemma_sum_prefix(pos, s, i + 1, d);
        assert(s.take(i + 1).drop_last() =~= s.take(i));
    } else {
        assert(s.take(i) =~= s);
    }
}

/// Sums over the same moves of two boards whose terms agree are equal.
proof fn lemma_sum_pointwise(a: Position, b: Position, s: Seq<Move>, d: nat)
    requires
        forall|m: Move| s.contains(m) ==> spec_perft(after(a, m), d) == spec_perft(after(b, m), d),
    ensures
        perft_sum(a, s, d) == perft_sum(b, s, d),
    decreases s.len(),
{
    if s.len() > 0 {
        assert forall|m: Move| s.drop_last().contains(m) implies spec_perft(after(a, m), d) == spec_perft(after(b, m), d) by {
            let i = choose|i: int| 0 <= i < s.drop_last().len() && s.drop_last()[i] == m;
            assert(s[i] == m);
            assert(s.contains(m));
        }
        lemma_sum_pointwise(a, b, s.drop_last(), d);
        assert(s.contains(s[s.len() - 1]));
    }
}

/// Perft reads only the board fields.
pub proof fn lemma_board_perft(a: Position, b: Position, d: nat)
    requires
        same_board(a, b),
    ensures
        perft_ok(a, d) == perft_ok(b, d),
        spec_perft(a, d) == spec_perft(b, d),
    decreases d,
{
    if d > 0 {
        lemma_board_moves(a, b);
        assert forall|m: Move| perft_ok(after(a, m), (d - 1) as nat) == perft_ok(after(b, m), (d - 1) as nat)
            && spec_perft(after(a, m), (d - 1) as nat) == spec_perft(after(b, m), (d - 1) as nat) by {
            assert(same_board(after(a, m), after(b, m)));
            lemma_board_perft(after(a, m), after(b, m), (d - 1) as nat);
        }
        assert((|m: Move| legal_move(a, m)) =~= (|m: Move| legal_move(b, m)));
        assert(legal_list(a) == legal_list(b));
        lemma_sum_pointwise(a, b, legal_list(a), (d - 1) as nat);
        let fa = forall|m: Move| #[trigger] legal_move(a, m) ==> perft_ok(after(a, m), (d - 1) as nat);
        let fb = forall|m: Move| #[trigger] legal_move(b, m) ==> perft_ok(after(b, m), (d - 1) as nat);
        if fa {
            assert forall|m: Move| #[trigger] legal_move(b, m) implies perft_ok(after(b, m), (d - 1) as nat) by {
                assert(legal_move(a, m));
                lemma_board_perft(after(a, m), after(b, m), (d - 1) as nat);
            }
        }
        if fb {
            assert forall|m: Move| #[trigger] legal_move(a, m) implies perft_ok(after(a, m), (d - 1) as nat) by {
                assert(legal_move(b, m));
                lemma_board_perft(after(a, m), after(b, m), (d - 1) as nat);
            }
        }
    }
}

/// The depth counted below each root move by `perft_divide`.
pub open spec fn divide_depth(depth: nat) -> nat {
    if depth <= 1 {
        0
    } else {
        (depth - 1) as nat
    }
}

/// The sum of the counts of a divide table.
pub open spec fn divide_total(t: Seq<(Move, u64)>) -> nat
    decreases t.len(),
{
    if t.len() == 0 {
        0
    } else {
        divide_total(t.drop_last()) + t.last().1 as nat
    }
}

/// Make `mv` on `pos`, run `count` on the result, and take the move back: the
/// bookkeeping shared by `perft` and `perft_divide`.
pub proof fn lemma_child(p0: Position, before: Position, mv: Move, p1: Position, d: nat)
    requires
        before.same_state(p0),
        p0.wf(),
        make_result(before, mv, p1),
    ensures
        same_board(p1, after(p0, mv)),
        perft_ok(p1, d) == perft_ok(after(p0, mv), d),
        spec_perft(p1, d) == spec_perft(after(p0, mv), d),
{
    lemma_make_after(before, mv, p1);
    lemma_board_moves(before, p0);
    assert(same_board(after(before, mv), after(p0, mv)));
    lemma_board_perft(p1, after(p0, mv), d);
}

/// Count the legal leaf nodes at `depth`. The position is restored.
pub fn perft(pos: &mut Position, depth: u32) -> (nodes: u64)
    requires
        old(pos).wf(),
        perft_ok(*old(pos), depth as nat),
        spec_perft(*old(pos), depth as nat) <= u64::MAX,
    ensures
        final(pos).same_state(*old(pos)),
        nodes == spec_perft(*old(pos), depth as nat),
    decreases depth,
{
    if depth == 0 {
        return 1;
    }
    let ghost p0 = *pos;
    let moves = generate_legal(pos);
    let ghost d1 = (depth - 1) as nat;
    proof {
        assert(lists_exactly(legal_list(p0), |m: Move| legal_move(p0, m)));
        lemma_sum_perm(p0, moves@, legal_list(p0), d1);
    }
    if depth == 1 {
        proof {
            lemma_sum_count(p0, moves@);
        }
        return moves.len() as u64;
    }
    let mut nodes: u64 = 0;
    let n = moves.len();
    let mut i: usize = 0;
    assert(moves@.take(0) =~= Seq::<Move>::empty());
    while i < n
        invariant
            n == moves@.len(),
            i <= n,
            depth >= 2,
            d1 == depth - 1,
            p0 == *old(pos),
            pos.same_state(p0),
            p0.wf(),
            perft_ok(p0, depth as nat),
            lists_exactly(moves@, |m: Move| legal_move(p0, m)),
            perft_sum(p0, moves@, d1) <= u64::MAX,
            nodes == perft_sum(p0, moves@.take(i as int), d1),
        decreases n - i,
    {
        let mv = moves[i];
        let ghost before = *pos;
        proof {
            assert(moves@.contains(mv));
            lemma_same_state_moves(before, p0);
            lemma_pseudo_consistent(before, mv);
        }
        pos.make(mv);
        let ghost p1 = *pos;
        proof {
            lemma_child(p0, before, mv, p1, d1);
            lemma_sum_prefix(p0, moves@, i + 1, d1);
            assert(moves@.take(i + 1).drop_last() =~= moves@.take(i as int));
        }
        let k = perft(pos, depth - 1);
        let ghost p2 = *pos;
        assert(make_result(before, mv, p2));
        pos.unmake();
        proof {
            crate::position::lemma_make_unmake(before, mv, p2, *pos);
        }
        nodes = nodes + k;
        i = i + 1;
    }
    assert(moves@.take(n as int) =~= moves@);
    nodes
}

/// Per-root-move perft: each legal move with the leaf count below it (1 when
/// `depth` is at most 1). The counts add up to the perft of the position.
pub fn perft_divide(pos: &mut Position, depth: u32) -> (out: Vec<(Move, u64)>)
    requires
        old(pos).wf(),
        perft_ok(*old(pos), divide_depth(depth as nat) + 1),
        forall|m: Move| #[trigger] legal_move(*old(pos), m) ==> spec_perft(after(*old(pos), m), divide_depth(depth as nat)) <= u64::MAX,
    ensures
        final(pos).same_state(*old(pos)),
        lists_exactly(out@.map_values(|e: (Move, u64)| e.0), |m: Move| legal_move(*old(pos), m)),
        forall|i: int| 0 <= i < out@.len() ==> #[trigger] out@[i].1 == spec_perft(after(*old(pos), out@[i].0), divide_depth(depth as nat)),
        divide_total(out@) == spec_perft(*old(pos), divide_depth(depth as nat) + 1),
{
    let ghost p0 = *pos;
    let ghost dd = divide_depth(depth as nat);
    let moves = generate_legal(pos);
    proof {
        assert(lists_exactly(legal_list(p0), |m: Move| legal_move(p0, m)));
        lemma_sum_perm(p0, moves@, legal_list(p0), dd);
    }
    let mut out: Vec<(Move, u64)> = Vec::new();
    let n = moves.len();
    let mut i: usize = 0;
    assert(moves@.take(0) =~= Seq::<Move>::empty());
    while i < n
        invariant
            n == moves@.len(),
            i <= n,
            dd == divide_depth(depth as nat),
            p0 == *old(pos),
            pos.same_state(p0),
            p0.wf(),
            perft_ok(p0, dd + 1),
            forall|m: Move| #[trigger] legal_move(p0, m) ==> spec_perft(after(p0, m), dd) <= u64::MAX,
            lists_exactly(moves@, |m: Move| legal_move(p0, m)),
            out@.len() == i,
            forall|k: int| 0 <= k < i ==> #[trigger] out@[k].0 == moves@[k],
            forall|k: int| 0 <= k < i ==> #[trigger] out@[k].1 == spec_perft(after(p0, out@[k].0), dd),
            divide_total(out@) == perft_sum(p0, moves@.take(i as int), dd),
        decreases n - i,
    {
        let mv = moves[i];
        let ghost before = *pos;
        proof {
            assert(moves@.contains(mv));
            lemma_same_state_moves(before, p0);
            lemma_pseudo_consistent(before, mv);
        }
        pos.make(mv);
        let ghost p1 = *pos;
        proof {
            lemma_child(p0, before, mv, p1, dd);
        }
        let c = if depth <= 1 {
            1
        } else {
            perft(pos, depth - 1)
        };
        let ghost p2 = *pos;
        assert(make_result(before, mv, p2));
        pos.unmake();
        proof {
            crate::position::lemma_make_unmake(before, mv, p2, *pos);
            assert(moves@.take(i + 1).drop_last() =~= moves@.take(i as int));
        }
        let ghost prev = out@;
        out.push((mv, c));
        proof {
            assert(out@.drop_last() =~= prev);
        }
        i = i + 1;
    }
    proof {
        assert(moves@.take(n as int) =~= moves@);
        assert(out@.map_values(|e: (Move, u64)| e.0) =~= moves@);
    }
    out
}

} // verus!

verus! {

/// `has_legal_move` and `generate_legal_list` agree: any exact listing of the
/// legal moves is non-empty exactly when the side to move has a legal move.
pub proof fn law_has_legal_move_iff_listed(pos: Position, s: Seq<Move>)
    requires
        lists_exactly(s, |m: Move| legal_move(pos, m)),
    ensures
        (exists|m: Move| #[trigger] legal_move(pos, m)) <==> s.len() > 0,
{
    if s.len() > 0 {
        assert(s.contains(s[0]));
        assert(legal_move(pos, s[0]));
    }
    if exists|m: Move| #[trigger] legal_move(pos, m) {
        let m = choose|m: Move| #[trigger] legal_move(pos, m);
        assert(s.contains(m));
    }
}

/// `generate_legal_noisy_list` lists exactly the captures, en-passant
/// captures and promotions among the moves `generate_legal_list` lists.
pub proof fn law_noisy_moves_within_legal(pos: Position, all: Seq<Move>, noisy: Seq<Move>)
    requires
        lists_exactly(all, |m: Move| legal_move(pos, m)),
        lists_exactly(noisy, |m: Move| legal_move(pos, m) && is_noisy(m.flag)),
    ensures
        forall|m: Move| #[trigger] noisy.contains(m) <==> all.contains(m) && is_noisy(m.flag),
{
    assert forall|m: Move| #[trigger] noisy.contains(m) <==> all.contains(m) && is_noisy(m.flag) by {
        assert(noisy.contains(m) <==> legal_move(pos, m) && is_noisy(m.flag));
        assert(all.contains(m) <==> legal_move(pos, m));
    }
}

/// `gives_check` answers whether the side to move is in check in the
/// position that making the move produces.
pub proof fn law_gives_check_is_check_after_make(pos: Position, mv: Move, q: Position)
    requires
        make_result(pos, mv, q),
    ensures
        square_attacked(made_pieces(pos, mv), king_square(made_pieces(pos, mv), 1 - pos.stm.spec_index()), pos.stm, make_all(pos, mv))
            == square_attacked(q.pieces, king_square(q.pieces, q.stm.spec_index()), q.stm.spec_flip(), q.all),
{
    lemma_make_after(pos, mv, q);
    assert(q.stm.spec_index() == 1 - pos.stm.spec_index());
    assert(q.stm.spec_flip() == pos.stm);
}

} // verus!

verus! {

/// No two of the twelve piece bitboards share a square.
fn pieces_disjoint_check(pieces: &[[u64; 6]; 2]) -> (b: bool)
    ensures
        b == crate::position::pieces_disjoint(*pieces),
{
    let mut i: usize = 0;
    while i < 12
        invariant
            i <= 12,
            forall|c: int, p: int, c2: int, p2: int|
                0 <= c < 2 && 0 <= p < 6 && 0 <= c2 < 2 && 0 <= p2 < 6 && (c != c2 || p != p2) && c * 6 + p < i ==> (
                #[trigger] pieces[c][p] & #[trigger] pieces[c2][p2]) == 0,
        decreases 12 - i,
    {
        let c = i / 6;
        let p = i % 6;
        let mut j: usize = 0;
        while j < 12
            invariant
                i < 12,
                c == i / 6,
                p == i % 6,
                j <= 12,
                forall|c: int, p: int, c2: int, p2: int|
                    0 <= c < 2 && 0 <= p < 6 && 0 <= c2 < 2 && 0 <= p2 < 6 && (c != c2 || p != p2) && c * 6 + p < i ==> (
                    #[trigger] pieces[c][p] & #[trigger] pieces[c2][p2]) == 0,
                forall|c2: int, p2: int|
                    0 <= c2 < 2 && 0 <= p2 < 6 && (c != c2 || p != p2) && c2 * 6 + p2 < j ==> (pieces[c as int][p as int]
                        & #[trigger] pieces[c2][p2]) == 0,
            decreases 12 - j,
        {
            let c2 = j / 6;
            let p2 = j % 6;
            if i != j && pieces[c][p] & pieces[c2][p2] != 0 {
                return false;
            }
            j = j + 1;
        }
        i = i + 1;
    }
    true
}

/// Whether the board part of `movable` holds: moves can be generated and
/// played on `pos`.
pub fn is_ready(pos: &Position) -> (b: bool)
    ensures
        b == ready(*pos),
{
    if !pieces_disjoint_check(&pos.pieces) {
        return false;
    }
    let w = pos.pieces[0];
    let k = pos.pieces[1];
    if pos.occ[0] != (w[0] | w[1] | w[2] | w[3] | w[4] | w[5]) || pos.occ[1] != (k[0] | k[1] | k[2] | k[3] | k[4] | k[5]) {
        return false;
    }
    if pos.all != (pos.occ[0] | pos.occ[1]) || pos.castling >= 16 {
        return false;
    }
    let us = pos.stm.index();
    let them = 1 - us;
    match pos.ep {
        Some(e) => {
            if e >= 64 || pos.all & (1u64 << e) != 0 {
                return false;
            }
            let bsq: i32 = if pos.stm == Color::White { e as i32 - 8 } else { e as i32 + 8 };
            if bsq < 0 || bsq >= 64 || pos.pieces[them][0] & (1u64 << (bsq as u64)) == 0 {
                return false;
            }
        },
        None => {},
    }
    let last: u64 = if pos.stm == Color::White { 7 } else { 0 };
    let pawns = pos.pieces[us][0];
    let mut s: u64 = 0;
    while s < 64
        invariant
            s <= 64,
            pawns == pos.pieces[pos.stm.spec_index()][0],
            last == crate::movegen::promo_rank(pos.stm),
            forall|t: u64| t < s && #[trigger] bit(pawns, t) ==> t / 8 != last,
        decreases 64 - s,
    {
        if pawns & (1u64 << s) != 0 && s / 8 == last {
            assert(bit(pawns, s));
            return false;
        }
        s = s + 1;
    }
    let c = pos.castling;
    if c & crate::castle::WK != 0 && (pos.pieces[0][5] & (1u64 << 4u64) == 0 || pos.pieces[0][3] & (1u64 << 7u64) == 0) {
        return false;
    }
    if c & crate::castle::WQ != 0 && (pos.pieces[0][5] & (1u64 << 4u64) == 0 || pos.pieces[0][3] & (1u64 << 0u64) == 0) {
        return false;
    }
    if c & crate::castle::BK != 0 && (pos.pieces[1][5] & (1u64 << 60u64) == 0 || pos.pieces[1][3] & (1u64 << 63u64) == 0) {
        return false;
    }
    if c & crate::castle::BQ != 0 && (pos.pieces[1][5] & (1u64 << 60u64) == 0 || pos.pieces[1][3] & (1u64 << 56u64) == 0) {
        return false;
    }
    pos.halfmove < u16::MAX && pos.fullmove < u16::MAX && pos.pieces[us][5] != 0
}

/// Whether every position of the legal move tree of `pos` above `depth` can
/// generate and play its moves (what `perft` and the fact builders require).
pub fn tree_ready(pos: &mut Position, depth: u32) -> (b: bool)
    requires
        old(pos).wf(),
    ensures
        final(pos).same_state(*old(pos)),
        b == perft_ok(*old(pos), depth as nat),
    decreases depth,
{
    if depth == 0 {
        return true;
    }
    if !is_ready(pos) {
        return false;
    }
    let ghost p0 = *pos;
    let moves = generate_legal(pos);
    let mut i: usize = 0;
    while i < moves.len()
        invariant
            i <= moves@.len(),
            depth > 0,
            p0.wf(),
            ready(p0),
            movable(p0),
            pos.same_state(p0),
            p0 == *old(pos),
            lists_exactly(moves@, |m: Move| legal_move(p0, m)),
            forall|j: int| 0 <= j < i ==> perft_ok(after(p0, #[trigger] moves@[j]), (depth - 1) as nat),
        decreases moves@.len() - i,
    {
        let mv = moves[i];
        let ghost before = *pos;
        proof {
            assert(moves@.contains(mv));
            assert(legal_move(p0, mv));
            crate::movegen::lemma_same_state_moves(before, p0);
            crate::movegen::lemma_pseudo_consistent(before, mv);
        }
        pos.make(mv);
        let ghost p1 = *pos;
        proof {
            lemma_child(p0, before, mv, p1, (depth - 1) as nat);
        }
        let ok = tree_ready(pos, depth - 1);
        let ghost p2 = *pos;
        assert(make_result(before, mv, p2));
        pos.unmake();
        proof {
            crate::position::lemma_make_unmake(before, mv, p2, *pos);
        }
        if !ok {
            return false;
        }
        i = i + 1;
    }
    proof {
        assert forall|m: Move| #[trigger] legal_move(p0, m) implies perft_ok(after(p0, m), (depth - 1) as nat) by {
            assert(moves@.contains(m));
            let j = choose|j: int| 0 <= j < moves@.len() && moves@[j] == m;
            assert(perft_ok(after(p0, moves@[j]), (depth - 1) as nat));
        }
    }
    true
}

} // verus!
