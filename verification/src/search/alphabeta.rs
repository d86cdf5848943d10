//! Alpha-beta search over the legal move tree with a quiescence search at the
//! leaves: mate and stalemate scoring, the fifty-move, material and
//! repetition draws, the fail-hard stand-pat rule and the quiescence ply limit.
//! The static evaluation of a leaf comes in as a function of the position.
//!
//! The value of a node is defined over the position's board (`board_of`),
//! its undo history (for repetitions) and the distance from the root; the
//! search functions return it exactly when it lies inside the window, and a
//! bound on the right side of the window otherwise.
use vstd::prelude::*;
use crate::attacks::square_attacked;
use crate::eval::insufficient_spec;
use crate::movegen::{generate_legal, generate_legal_noisy, has_legal_move, in_check, is_noisy, king_square, legal_move,
    lists_exactly, movable};
use crate::perft::{after, lemma_board_moves, lemma_board_perft, lemma_child, listing_of, perft_ok, same_board};
use crate::position::{make_hash, make_result, make_undo, Position, Undo};
use crate::search::{MATE_SCORE, MATE_THRESHOLD};
use crate::see::see_spec;
use crate::Move;

verus! {

/// Beyond any score.
pub const INF: i32 = 2_000_000;

/// Quiescence stops standing pat at this ply.
pub const MAX_QUIESCENCE_PLY: u32 = 64;

/// Evasions in check are searched below this ply; beyond it a mate score
/// would no longer read as one, and the static evaluation stands.
pub const MAX_EVASION_PLY: u32 = 999;

/// The board and counters of `p`, with its move history left out.
pub open spec fn board_of(p: Position) -> Position {
    Position {
        pieces: p.pieces,
        occ: p.occ,
        all: p.all,
        stm: p.stm,
        castling: p.castling,
        ep: p.ep,
        halfmove: p.halfmove,
        fullmove: p.fullmove,
        hash: p.hash,
        history: arbitrary(),
    }
}

/// The side to move is in check.
pub open spec fn checked(pos: Position) -> bool {
    square_attacked(pos.pieces, king_square(pos.pieces, pos.stm.spec_index()), pos.stm.spec_flip(), pos.all)
}

/// The side to move has a legal move.
pub open spec fn can_move(pos: Position) -> bool {
    exists|m: Move| #[trigger] legal_move(pos, m)
}

/// The score of a position with no legal move, `ply` plies from the root.
pub open spec fn terminal_score(pos: Position, ply: int) -> int {
    if checked(pos) { -(MATE_SCORE - ply) } else { 0 }
}

/// The evaluator can be called on any position, scores below mate, and gives
/// one score to each board.
pub open spec fn leaf_eval_ok<F: Fn(&Position) -> i32>(eval: F) -> bool {
    &&& forall|p: &Position| #[trigger] call_requires(eval, (p,))
    &&& forall|p: &Position, v: i32| #[trigger] call_ensures(eval, (p,), v) ==> -MATE_THRESHOLD < v < MATE_THRESHOLD
    &&& forall|p: &Position, q: &Position, v: i32, w: i32|
        #![trigger call_ensures(eval, (p,), v), call_ensures(eval, (q,), w)]
        board_of(*p) == board_of(*q) && call_ensures(eval, (p,), v) && call_ensures(eval, (q,), w) ==> v == w
}

/// Some position with board `b` was evaluated to `v`.
pub open spec fn evaluated_to<F: Fn(&Position) -> i32>(eval: F, b: Position, v: i32) -> bool {
    exists|q: Position| board_of(q) == b && #[trigger] call_ensures(eval, (&q,), v)
}

/// The evaluation of the board `b` (0 for a board the evaluator never scored).
pub open spec fn leaf<F: Fn(&Position) -> i32>(eval: F, b: Position) -> int {
    if exists|v: i32| evaluated_to(eval, b, v) {
        (choose|v: i32| evaluated_to(eval, b, v)) as int
    } else {
        0
    }
}

/// A move that quiescence searches: any legal move in check, otherwise a
/// capture or promotion that does not lose material by exchange.
pub open spec fn q_candidate(p: Position, m: Move) -> bool {
    legal_move(p, m) && (checked(p) || (is_noisy(m.flag) && see_spec(p, m.from, m.to) >= 0))
}

/// The quiescence candidates of `p`, in some order.
pub open spec fn q_moves_of(p: Position) -> Seq<Move> {
    listing_of(|m: Move| q_candidate(p, m))
}

/// The score of `m` for the mover at a quiescence node `ply` plies deep.
pub open spec fn q_child<F: Fn(&Position) -> i32>(eval: F, p: Position, m: Move, ply: int) -> int
    decreases MAX_EVASION_PLY - ply, 0int, 0int,
{
    if 0 <= ply < MAX_EVASION_PLY {
        -q_value(eval, board_of(after(p, m)), ply + 1)
    } else {
        0
    }
}

/// The best of `floor` and the scores of the moves of `s` at a quiescence node.
pub open spec fn q_best<F: Fn(&Position) -> i32>(eval: F, p: Position, ply: int, s: Seq<Move>, floor: int) -> int
    decreases MAX_EVASION_PLY - ply, 1int, s.len(),
{
    if s.len() == 0 {
        floor
    } else {
        let w = q_best(eval, p, ply, s.drop_last(), floor);
        let c = q_child(eval, p, s.last(), ply);
        if c > w { c } else { w }
    }
}

/// The quiescence value of the board `p` at `ply`: with no legal move, mate
/// or stalemate; at the ply limit (the evasion limit in check), the static
/// evaluation; in check, the best
/// evasion; otherwise the best of the static evaluation and the candidates.
pub open spec fn q_value<F: Fn(&Position) -> i32>(eval: F, p: Position, ply: int) -> int
    decreases MAX_EVASION_PLY - ply, 2int, 0int,
{
    if !can_move(p) {
        terminal_score(p, ply)
    } else if ply < 0 || ply >= MAX_EVASION_PLY || (!checked(p) && ply >= MAX_QUIESCENCE_PLY) {
        leaf(eval, p)
    } else if checked(p) {
        q_best(eval, p, ply, q_moves_of(p), -INF as int)
    } else {
        q_best(eval, p, ply, q_moves_of(p), leaf(eval, p))
    }
}

} // verus!

verus! {

/// The fifty-move or insufficient-material rule makes the position a draw.
pub open spec fn rule_draw(b: Position) -> bool {
    b.halfmove >= 100 || insufficient_spec(b)
}

/// The position (by hash) occurred in the reversible part of the history `h`.
pub open spec fn repeated(b: Position, h: Seq<Undo>) -> bool {
    exists|i: int| h.len() - b.halfmove <= i < h.len() && 0 <= i && #[trigger] h[i].prev_hash == b.hash
}

/// The legal moves of `b`, in some order.
pub open spec fn n_moves_of(b: Position) -> Seq<Move> {
    listing_of(|m: Move| legal_move(b, m))
}

/// The score of `m` for the mover at a node searched to `depth`.
pub open spec fn n_child<F: Fn(&Position) -> i32>(eval: F, b: Position, h: Seq<Undo>, m: Move, depth: int, ply: int) -> int
    decreases depth, 0int, 0int,
{
    if depth > 0 {
        -n_value(eval, board_of(after(b, m)), h.push(make_undo(b, m)), depth - 1, ply + 1)
    } else {
        0
    }
}

/// The best of `floor` and the scores of the moves of `s`.
pub open spec fn n_best<F: Fn(&Position) -> i32>(eval: F, b: Position, h: Seq<Undo>, depth: int, ply: int, s: Seq<Move>, floor: int) -> int
    decreases depth, 1int, s.len(),
{
    if s.len() == 0 {
        floor
    } else {
        let w = n_best(eval, b, h, depth, ply, s.drop_last(), floor);
        let c = n_child(eval, b, h, s.last(), depth, ply);
        if c > w { c } else { w }
    }
}

/// The alpha-beta value of the board `b` with history `h`, searched to
/// `depth` at `ply`: a draw by rule (out of check) or by repetition (below the
/// root), the quiescence value at depth 0, mate or stalemate without a move, a
/// draw by rule in check with a move, and otherwise the best move's score.
pub open spec fn n_value<F: Fn(&Position) -> i32>(eval: F, b: Position, h: Seq<Undo>, depth: int, ply: int) -> int
    decreases depth, 2int, 0int,
{
    if !checked(b) && rule_draw(b) {
        0
    } else if ply > 0 && repeated(b, h) {
        0
    } else if depth <= 0 {
        q_value(eval, b, ply)
    } else if !can_move(b) {
        terminal_score(b, ply)
    } else if rule_draw(b) {
        0
    } else {
        n_best(eval, b, h, depth, ply, n_moves_of(b), -INF as int)
    }
}

/// The plies of soundness that a search of `depth` from `ply` needs.
pub open spec fn search_budget(depth: int, ply: int) -> nat
    decreases depth,
{
    if depth <= 0 { q_budget(ply) } else { search_budget(depth - 1, ply + 1) + 1 }
}

/// The plies of soundness that quiescence needs from ply `ply`.
pub open spec fn q_budget(ply: int) -> nat {
    if ply < MAX_EVASION_PLY { (MAX_EVASION_PLY - ply + 1) as nat } else { 1 }
}

/// A window of scores.
pub open spec fn window_ok(alpha: int, beta: int) -> bool {
    -INF <= alpha < beta <= INF
}

/// What a fail-soft search owes for a node of value `v` searched with the
/// window (`alpha`, `beta`): the value inside the window; at or below `alpha`
/// a result at or below `alpha` that bounds the value from above; at or above
/// `beta` a result at or above `beta` that bounds the value from below.
pub open spec fn bounds_value(r: int, v: int, alpha: int, beta: int) -> bool {
    &&& alpha < v < beta ==> r == v
    &&& v <= alpha ==> r <= alpha
    &&& v >= beta ==> r >= beta
    &&& r <= alpha ==> v <= r
    &&& r >= beta ==> v >= r
}

/// The evaluation recorded for a position is the leaf value of its board.
proof fn lemma_leaf<F: Fn(&Position) -> i32>(eval: F, p: Position, v: i32)
    requires
        leaf_eval_ok(eval),
        call_ensures(eval, (&p,), v),
    ensures
        leaf(eval, board_of(p)) == v,
{
    let b = board_of(p);
    assert(evaluated_to(eval, b, v));
    let c = choose|c: i32| evaluated_to(eval, b, c);
    let q = choose|q: Position| board_of(q) == b && #[trigger] call_ensures(eval, (&q,), c);
    assert(call_ensures(eval, (&q,), c));
}

/// A position and the board it stands on have the same moves and children.
proof fn lemma_board_of(p: Position)
    requires
        p.wf(),
    ensures
        same_board(board_of(p), p),
        forall|m: Move| #[trigger] legal_move(board_of(p), m) == legal_move(p, m),
        checked(board_of(p)) == checked(p),
        can_move(board_of(p)) == can_move(p),
        forall|m: Move| #[trigger] see_spec(board_of(p), m.from, m.to) == see_spec(p, m.from, m.to),
{
    lemma_board_moves(board_of(p), p);
    if can_move(p) {
        let m = choose|m: Move| legal_move(p, m);
        assert(legal_move(board_of(p), m));
    }
    if can_move(board_of(p)) {
        let m = choose|m: Move| legal_move(board_of(p), m);
        assert(legal_move(p, m));
    }
}

/// A position in the same state as another is the same node of the tree.
proof fn lemma_same_node(p: Position, p0: Position, d: nat)
    requires
        p.same_state(p0),
    ensures
        perft_ok(p, d) == perft_ok(p0, d),
        board_of(p) == board_of(p0),
        forall|m: Move| #[trigger] legal_move(p, m) == legal_move(p0, m),
        can_move(p) == can_move(p0),
        checked(p) == checked(p0),
        movable(p) == movable(p0),
{
    lemma_board_perft(p, p0, d);
    crate::movegen::lemma_same_state_moves(p, p0);
    if can_move(p) {
        let m = choose|m: Move| legal_move(p, m);
        assert(legal_move(p0, m));
    }
    if can_move(p0) {
        let m = choose|m: Move| legal_move(p0, m);
        assert(legal_move(p, m));
    }
}

/// The board after a made move is the board of the child in the move tree.
proof fn lemma_child_board(p0: Position, before: Position, mv: Move, p1: Position)
    requires
        before.same_state(p0),
        p0.wf(),
        make_result(before, mv, p1),
    ensures
        board_of(p1) == board_of(after(board_of(p0), mv)),
        p1.history_view() == p0.history_view().push(make_undo(board_of(p0), mv)),
{
    lemma_child(p0, before, mv, p1, 0);
    lemma_board_moves(board_of(p0), p0);
    assert(same_board(after(board_of(p0), mv), after(p0, mv)));
    let b = board_of(p0);
    assert(crate::position::moving_piece(before, mv) == crate::position::moving_piece(b, mv));
    assert(crate::position::captured_piece(before, mv) == crate::position::captured_piece(b, mv));
    assert(crate::position::make_piece_hash(before, mv) == crate::position::make_piece_hash(b, mv)) by {
        reveal(crate::position::make_piece_hash);
    }
    assert(crate::position::make_castling(before, mv) == crate::position::make_castling(b, mv));
    assert(make_hash(before, mv) == make_hash(b, mv)) by {
        reveal(make_hash);
    }
    assert(make_undo(before, mv) == make_undo(b, mv));
}

/// The best score over a list is at least the floor and every member's
/// score, and is the floor or one of them.
proof fn lemma_q_best<F: Fn(&Position) -> i32>(eval: F, p: Position, ply: int, s: Seq<Move>, floor: int)
    ensures
        floor <= q_best(eval, p, ply, s, floor),
        forall|j: int| 0 <= j < s.len() ==> q_child(eval, p, #[trigger] s[j], ply) <= q_best(eval, p, ply, s, floor),
        q_best(eval, p, ply, s, floor) == floor || exists|j: int|
            0 <= j < s.len() && q_best(eval, p, ply, s, floor) == q_child(eval, p, #[trigger] s[j], ply),
    decreases s.len(),
{
    if s.len() > 0 {
        let d = s.drop_last();
        lemma_q_best(eval, p, ply, d, floor);
        assert forall|j: int| 0 <= j < s.len() - 1 implies #[trigger] s[j] == d[j] by {}
        if q_best(eval, p, ply, d, floor) != floor {
            let j = choose|j: int| 0 <= j < d.len() && q_best(eval, p, ply, d, floor) == q_child(eval, p, #[trigger] d[j], ply);
            assert(s[j] == d[j]);
        }
    }
}

/// Two lists with the same members have the same best score.
proof fn lemma_q_best_same<F: Fn(&Position) -> i32>(eval: F, p: Position, ply: int, s: Seq<Move>, t: Seq<Move>, floor: int)
    requires
        forall|m: Move| s.contains(m) <==> t.contains(m),
    ensures
        q_best(eval, p, ply, s, floor) == q_best(eval, p, ply, t, floor),
{
    lemma_q_best(eval, p, ply, s, floor);
    lemma_q_best(eval, p, ply, t, floor);
    let a = q_best(eval, p, ply, s, floor);
    let b = q_best(eval, p, ply, t, floor);
    if a != floor {
        let j = choose|j: int| 0 <= j < s.len() && a == q_child(eval, p, #[trigger] s[j], ply);
        assert(s.contains(s[j]));
        let k = choose|k: int| 0 <= k < t.len() && t[k] == s[j];
        assert(q_child(eval, p, t[k], ply) <= b);
    }
    if b != floor {
        let j = choose|j: int| 0 <= j < t.len() && b == q_child(eval, p, #[trigger] t[j], ply);
        assert(t.contains(t[j]));
        let k = choose|k: int| 0 <= k < s.len() && s[k] == t[j];
        assert(q_child(eval, p, s[k], ply) <= a);
    }
}

/// An exact list of the candidates gives the value of a quiescence node.
proof fn lemma_q_listing<F: Fn(&Position) -> i32>(eval: F, p: Position, ply: int, s: Seq<Move>, floor: int)
    requires
        lists_exactly(s, |m: Move| q_candidate(p, m)),
    ensures
        lists_exactly(q_moves_of(p), |m: Move| q_candidate(p, m)),
        q_best(eval, p, ply, s, floor) == q_best(eval, p, ply, q_moves_of(p), floor),
{
    let c = q_moves_of(p);
    assert(lists_exactly(c, |m: Move| q_candidate(p, m)));
    assert forall|m: Move| s.contains(m) <==> c.contains(m) by {
        assert(s.contains(m) <==> q_candidate(p, m));
        assert(c.contains(m) <==> q_candidate(p, m));
    }
    lemma_q_best_same(eval, p, ply, s, c, floor);
}

/// The best score over a list is at least the floor and every member's
/// score, and is the floor or one of them.
proof fn lemma_n_best<F: Fn(&Position) -> i32>(eval: F, p: Position, hh: Seq<Undo>, depth: int, ply: int, s: Seq<Move>, floor: int)
    ensures
        floor <= n_best(eval, p, hh, depth, ply, s, floor),
        forall|j: int| 0 <= j < s.len() ==> n_child(eval, p, hh, #[trigger] s[j], depth, ply) <= n_best(eval, p, hh, depth, ply, s, floor),
        n_best(eval, p, hh, depth, ply, s, floor) == floor || exists|j: int|
            0 <= j < s.len() && n_best(eval, p, hh, depth, ply, s, floor) == n_child(eval, p, hh, #[trigger] s[j], depth, ply),
    decreases s.len(),
{
    if s.len() > 0 {
        let d = s.drop_last();
        lemma_n_best(eval, p, hh, depth, ply, d, floor);
        assert forall|j: int| 0 <= j < s.len() - 1 implies #[trigger] s[j] == d[j] by {}
        if n_best(eval, p, hh, depth, ply, d, floor) != floor {
            let j = choose|j: int| 0 <= j < d.len() && n_best(eval, p, hh, depth, ply, d, floor) == n_child(eval, p, hh, #[trigger] d[j], depth, ply);
            assert(s[j] == d[j]);
        }
    }
}

/// Two lists with the same members have the same best score.
proof fn lemma_n_best_same<F: Fn(&Position) -> i32>(eval: F, p: Position, hh: Seq<Undo>, depth: int, ply: int, s: Seq<Move>, t: Seq<Move>, floor: int)
    requires
        forall|m: Move| s.contains(m) <==> t.contains(m),
    ensures
        n_best(eval, p, hh, depth, ply, s, floor) == n_best(eval, p, hh, depth, ply, t, floor),
{
    lemma_n_best(eval, p, hh, depth, ply, s, floor);
    lemma_n_best(eval, p, hh, depth, ply, t, floor);
    let a = n_best(eval, p, hh, depth, ply, s, floor);
    let b = n_best(eval, p, hh, depth, ply, t, floor);
    if a != floor {
        let j = choose|j: int| 0 <= j < s.len() && a == n_child(eval, p, hh, #[trigger] s[j], depth, ply);
        assert(s.contains(s[j]));
        let k = choose|k: int| 0 <= k < t.len() && t[k] == s[j];
        assert(n_child(eval, p, hh, t[k], depth, ply) <= b);
    }
    if b != floor {
        let j = choose|j: int| 0 <= j < t.len() && b == n_child(eval, p, hh, #[trigger] t[j], depth, ply);
        assert(t.contains(t[j]));
        let k = choose|k: int| 0 <= k < s.len() && s[k] == t[j];
        assert(n_child(eval, p, hh, s[k], depth, ply) <= a);
    }
}

/// An exact list of the candidates gives the value of a searched node.
proof fn lemma_n_listing<F: Fn(&Position) -> i32>(eval: F, p: Position, hh: Seq<Undo>, depth: int, ply: int, s: Seq<Move>, floor: int)
    requires
        lists_exactly(s, |m: Move| legal_move(p, m)),
    ensures
        lists_exactly(n_moves_of(p), |m: Move| legal_move(p, m)),
        n_best(eval, p, hh, depth, ply, s, floor) == n_best(eval, p, hh, depth, ply, n_moves_of(p), floor),
{
    let c = n_moves_of(p);
    assert(lists_exactly(c, |m: Move| legal_move(p, m)));
    assert forall|m: Move| s.contains(m) <==> c.contains(m) by {
        assert(s.contains(m) <==> legal_move(p, m));
        assert(c.contains(m) <==> legal_move(p, m));
    }
    lemma_n_best_same(eval, p, hh, depth, ply, s, c, floor);
}

} // verus!

verus! {

/// Searches `moves`, exactly the quiescence candidates of `pos` at ply `ply`:
/// each is made, scored by the negated quiescence of the child and taken back,
/// the best score starting from `best0`, raising alpha from `alpha_start`,
/// stopping at a cutoff. `floor` is the value the node has before its moves
/// and `alpha0` the window's lower end as the caller passed it.
fn q_moves<F: Fn(&Position) -> i32>(
    pos: &mut Position,
    moves: &Vec<Move>,
    best0: i32,
    alpha_start: i32,
    Ghost(alpha0): Ghost<int>,
    Ghost(floor): Ghost<int>,
    beta: i32,
    ply: u32,
    eval: &F,
) -> (r: i32)
    requires
        old(pos).wf(),
        perft_ok(*old(pos), q_budget(ply as int)),
        ply < MAX_EVASION_PLY,
        lists_exactly(moves@, |m: Move| q_candidate(board_of(*old(pos)), m)),
        -INF <= alpha0 <= alpha_start < beta <= INF,
        -INF <= floor <= alpha_start,
        -INF <= best0 <= alpha_start,
        floor <= best0,
        floor > alpha0 ==> best0 == floor && alpha_start == floor,
        floor <= alpha0 ==> alpha_start == alpha0 && best0 <= alpha0,
        leaf_eval_ok(*eval),
    ensures
        final(pos).same_state(*old(pos)),
        -INF <= r <= INF,
        best0 <= r,
        bounds_value(r as int, q_best(*eval, board_of(*old(pos)), ply as int, moves@, floor), alpha0, beta as int),
    decreases MAX_EVASION_PLY - ply, 0int,
{
    let ghost p0 = *pos;
    let ghost b = board_of(p0);
    let ghost mut t: int = floor;
    let mut best = best0;
    let mut alpha = alpha_start;
    let mut i: usize = 0;
    proof {
        lemma_board_of(p0);
        assert(moves@.take(0) =~= Seq::<Move>::empty());
    }
    while i < moves.len()
        invariant
            i <= moves@.len(),
            p0 == *old(pos),
            b == board_of(p0),
            pos.same_state(p0),
            p0.wf(),
            perft_ok(p0, q_budget(ply as int)),
            ply < MAX_EVASION_PLY,
            lists_exactly(moves@, |m: Move| q_candidate(b, m)),
            forall|m: Move| #[trigger] legal_move(b, m) == legal_move(p0, m),
            leaf_eval_ok(*eval),
            -INF <= alpha0 <= alpha < beta <= INF,
            -INF <= best0 <= best <= alpha,
            t == q_best(*eval, b, ply as int, moves@.take(i as int), floor),
            t <= alpha,
            t <= best,
            t > alpha0 ==> best == t && alpha == t,
            t <= alpha0 ==> alpha == alpha0 && best <= alpha0,
        decreases moves@.len() - i,
    {
        let mv = moves[i];
        let ghost before = *pos;
        proof {
            assert(moves@.contains(mv));
            assert(legal_move(p0, mv));
            crate::movegen::lemma_same_state_moves(before, p0);
            crate::movegen::lemma_pseudo_consistent(before, mv);
        }
        pos.make(mv);
        let ghost p1 = *pos;
        proof {
            lemma_child(p0, before, mv, p1, q_budget(ply + 1));
            lemma_child_board(p0, before, mv, p1);
        }
        let child = quiesce(pos, -beta, -alpha, ply + 1, eval);
        let ghost p2 = *pos;
        assert(make_result(before, mv, p2));
        pos.unmake();
        proof {
            crate::position::lemma_make_unmake(before, mv, p2, *pos);
        }
        let score = -child;
        let ghost c = q_child(*eval, b, mv, ply as int);
        proof {
            let s1 = moves@.take(i + 1);
            assert(s1.drop_last() =~= moves@.take(i as int));
            assert(s1.last() == mv);
        }
        if score > best {
            best = score;
        }
        if best > alpha {
            alpha = best;
        }
        if alpha >= beta {
            proof {
                lemma_q_best(*eval, b, ply as int, moves@, floor);
                assert(moves@[i as int] == mv);
            }
            return best;
        }
        proof {
            t = if c > t { c } else { t };
        }
        i = i + 1;
    }
    proof {
        assert(moves@.take(moves@.len() as int) =~= moves@);
    }
    best
}

/// Quiescence at ply `ply`: in check, every evasion is searched (mate when
/// there is none) below `MAX_EVASION_PLY`; otherwise stalemate scores 0, a static evaluation at or
/// above `beta` returns `beta` (fail-hard stand pat), the evaluation raises
/// alpha, and at the ply limit it is the score; below it, the captures and
/// promotions that do not lose material by exchange are searched.
pub fn quiesce<F: Fn(&Position) -> i32>(pos: &mut Position, alpha: i32, beta: i32, ply: u32, eval: &F) -> (r: i32)
    requires
        old(pos).wf(),
        perft_ok(*old(pos), q_budget(ply as int)),
        window_ok(alpha as int, beta as int),
        ply < MATE_SCORE - MATE_THRESHOLD,
        leaf_eval_ok(*eval),
    ensures
        final(pos).same_state(*old(pos)),
        -INF <= r <= INF,
        bounds_value(r as int, q_value(*eval, board_of(*old(pos)), ply as int), alpha as int, beta as int),
        !can_move(*old(pos)) ==> r == terminal_score(*old(pos), ply as int),
        can_move(*old(pos)) && !checked(*old(pos)) && leaf(*eval, board_of(*old(pos))) >= beta ==> r == beta,
    decreases MAX_EVASION_PLY - ply, 1int,
{
    let ghost p0 = *pos;
    let ghost b = board_of(p0);
    proof {
        lemma_board_of(p0);
        assert(movable(p0));
    }
    let chk = in_check(pos);
    if chk {
        let legal = generate_legal(pos);
        proof {
            lemma_same_node(*pos, p0, q_budget(ply as int));
        }
        if legal.len() == 0 {
            proof {
                if can_move(p0) {
                    let m = choose|m: Move| legal_move(p0, m);
                    assert(legal@.contains(m));
                }
            }
            return -(MATE_SCORE - ply as i32);
        }
        proof {
            assert(legal@.contains(legal@[0]));
            assert(legal_move(p0, legal@[0]));
        }
        if ply >= MAX_EVASION_PLY {
            let v = eval(&*pos);
            proof {
                lemma_leaf(*eval, *pos, v);
                assert(board_of(*pos) == b);
            }
            return v;
        }
        proof {
            assert forall|m: Move| #[trigger] legal@.contains(m) <==> q_candidate(b, m) by {
                assert(legal@.contains(m) <==> legal_move(p0, m));
            }
            assert(lists_exactly(legal@, |m: Move| q_candidate(b, m)));
            assert forall|j: int| 0 <= j < legal@.len() implies (#[trigger] legal@[j]).from < 64 && legal@[j].to < 64 by {
                assert(legal@.contains(legal@[j]));
                crate::movegen::lemma_pseudo_consistent(p0, legal@[j]);
            }
        }
        let ghost unordered = legal@;
        let evasions = capture_ordered(pos, legal);
        proof {
            let (from, nk) = choose|from: Seq<int>, nk: Seq<i32>| #[trigger] crate::search::ordering::stable_desc(
                unordered,
                capture_keys(*pos, unordered),
                evasions@,
                nk,
                from,
            );
            crate::search::ordering::lemma_reordered_listing(
                unordered,
                capture_keys(*pos, unordered),
                evasions@,
                nk,
                from,
                |m: Move| q_candidate(b, m),
            );
            lemma_q_listing(*eval, b, ply as int, evasions@, -INF as int);
        }
        let r = q_moves(pos, &evasions, -INF, alpha, Ghost(alpha as int), Ghost(-INF as int), beta, ply, eval);
        return r;
    }
    let noisy = generate_legal_noisy(pos);
    proof {
        lemma_same_node(*pos, p0, q_budget(ply as int));
    }
    if noisy.len() == 0 {
        let any = has_legal_move(pos);
        proof {
            lemma_same_node(*pos, p0, q_budget(ply as int));
        }
        if !any {
            return 0;
        }
    }
    proof {
        if noisy.len() > 0 {
            assert(noisy@.contains(noisy@[0]));
            assert(legal_move(p0, noisy@[0]));
        }
    }
    let stand = eval(&*pos);
    let ghost pc = *pos;
    proof {
        lemma_leaf(*eval, *pos, stand);
        lemma_same_node(pc, p0, q_budget(ply as int));
        lemma_board_of(pc);
    }
    if stand >= beta {
        proof {
            if ply < MAX_QUIESCENCE_PLY {
                lemma_q_best(*eval, b, ply as int, q_moves_of(b), stand as int);
            }
        }
        return beta;
    }
    let a = if stand > alpha { stand } else { alpha };
    if ply >= MAX_QUIESCENCE_PLY {
        return stand;
    }
    let mut keep: Vec<Move> = Vec::new();
    let mut i: usize = 0;
    while i < noisy.len()
        invariant
            i <= noisy@.len(),
            pos.same_state(pc),
            pc.same_state(p0),
            p0.wf(),
            movable(p0),
            b == board_of(p0),
            b == board_of(pc),
            lists_exactly(noisy@, |m: Move| legal_move(p0, m) && is_noisy(m.flag)),
            forall|m: Move| #[trigger] legal_move(b, m) == legal_move(p0, m),
            forall|m: Move| #[trigger] see_spec(b, m.from, m.to) == see_spec(pc, m.from, m.to),
            !checked(b),
            keep@.no_duplicates(),
            forall|k: int| 0 <= k < keep@.len() ==> q_candidate(b, #[trigger] keep@[k]),
            forall|k: int| #![trigger keep@[k]] 0 <= k < keep@.len() ==> exists|j: int| 0 <= j < i && keep@[k] == #[trigger] noisy@[j],
            forall|j: int| 0 <= j < i && q_candidate(b, #[trigger] noisy@[j]) ==> keep@.contains(noisy@[j]),
        decreases noisy@.len() - i,
    {
        let m = noisy[i];
        proof {
            assert(noisy@.contains(m));
            assert(legal_move(p0, m));
            crate::movegen::lemma_pseudo_consistent(p0, m);
        }
        let s = crate::see::see(pos, m.from, m.to);
        if s >= 0 {
            proof {
                if keep@.contains(m) {
                    let k = choose|k: int| 0 <= k < keep@.len() && keep@[k] == m;
                    let j = choose|j: int| 0 <= j < i && keep@[k] == #[trigger] noisy@[j];
                    assert(noisy@[j] == noisy@[i as int]);
                }
            }
            let ghost old_keep = keep@;
            keep.push(m);
            proof {
                assert(keep@.drop_last() =~= old_keep);
                assert forall|k: int| #![trigger keep@[k]] 0 <= k < keep@.len() implies exists|j: int| 0 <= j < i + 1 && keep@[k] == #[trigger] noisy@[j] by {
                    if k < keep@.len() - 1 {
                        let j = choose|j: int| 0 <= j < i && keep@.drop_last()[k] == #[trigger] noisy@[j];
                        assert(keep@[k] == noisy@[j]);
                    } else {
                        assert(keep@[k] == noisy@[i as int]);
                    }
                }
                assert forall|j: int| 0 <= j < i + 1 && q_candidate(b, #[trigger] noisy@[j]) implies keep@.contains(noisy@[j]) by {
                    if j < i {
                        assert(keep@.drop_last().contains(noisy@[j]));
                        let k = choose|k: int| 0 <= k < keep@.drop_last().len() && keep@.drop_last()[k] == noisy@[j];
                        assert(keep@[k] == noisy@[j]);
                    } else {
                        assert(keep@[keep@.len() - 1] == noisy@[j]);
                    }
                }
            }
        }
        i = i + 1;
    }
    proof {
        assert forall|m: Move| #[trigger] keep@.contains(m) <==> q_candidate(b, m) by {
            if q_candidate(b, m) {
                assert(noisy@.contains(m));
                let j = choose|j: int| 0 <= j < noisy@.len() && noisy@[j] == m;
                assert(q_candidate(b, noisy@[j]));
            }
        }
        assert(lists_exactly(keep@, |m: Move| q_candidate(b, m)));
        assert forall|j: int| 0 <= j < keep@.len() implies (#[trigger] keep@[j]).from < 64 && keep@[j].to < 64 by {
            assert(q_candidate(b, keep@[j]));
            crate::movegen::lemma_pseudo_consistent(p0, keep@[j]);
        }
    }
    let ghost unordered = keep@;
    let captures = capture_ordered(pos, keep);
    proof {
        let (from, nk) = choose|from: Seq<int>, nk: Seq<i32>| #[trigger] crate::search::ordering::stable_desc(
            unordered,
            capture_keys(*pos, unordered),
            captures@,
            nk,
            from,
        );
        crate::search::ordering::lemma_reordered_listing(
            unordered,
            capture_keys(*pos, unordered),
            captures@,
            nk,
            from,
            |m: Move| q_candidate(b, m),
        );
        lemma_q_listing(*eval, b, ply as int, captures@, stand as int);
    }
    q_moves(pos, &captures, a, a, Ghost(alpha as int), Ghost(stand as int), beta, ply, eval)
}

} // verus!

verus! {

/// Searches `moves`, exactly the legal moves of `pos`, to `depth`: each is
/// made, scored by the negated search of the child one ply deeper (after the
/// first move that raised alpha, by a null-window probe re-searched with the
/// full window when it lands inside) and taken back; the best score from
/// -INF, raising alpha, stopping at a cutoff, where a quiet cutting move is
/// recorded in `tables` with the quiet moves tried before it.
fn n_moves<F: Fn(&Position) -> i32>(
    pos: &mut Position,
    moves: &Vec<Move>,
    alpha_in: i32,
    beta: i32,
    depth: i32,
    ply: u32,
    tables: &mut crate::search::tables::SearchTables,
    eval: &F,
) -> (r: i32)
    requires
        old(pos).wf(),
        old(tables).wf(),
        perft_ok(*old(pos), search_budget(depth as int, ply as int)),
        depth > 0,
        ply + depth < 900,
        lists_exactly(moves@, |m: Move| legal_move(board_of(*old(pos)), m)),
        window_ok(alpha_in as int, beta as int),
        leaf_eval_ok(*eval),
    ensures
        final(pos).same_state(*old(pos)),
        final(tables).wf(),
        -INF <= r <= INF,
        bounds_value(
            r as int,
            n_best(*eval, board_of(*old(pos)), old(pos).history_view(), depth as int, ply as int, moves@, -INF as int),
            alpha_in as int,
            beta as int,
        ),
    decreases depth, 0int,
{
    let ghost p0 = *pos;
    let ghost b = board_of(p0);
    let ghost h = p0.history_view();
    let ghost floor: int = -INF as int;
    let ghost mut t: int = floor;
    let mut best: i32 = -INF;
    let mut alpha = alpha_in;
    let mut i: usize = 0;
    let side = pos.stm.index();
    let mut tried: Vec<Move> = Vec::new();
    proof {
        lemma_board_of(p0);
        assert(moves@.take(0) =~= Seq::<Move>::empty());
        assert(perft_ok(p0, search_budget(depth - 1, ply + 1) + 1));
    }
    while i < moves.len()
        invariant
            i <= moves@.len(),
            tables.wf(),
            side < 2,
            forall|j: int| 0 <= j < tried@.len() ==> (#[trigger] tried@[j]).from < 64 && tried@[j].to < 64,
            p0 == *old(pos),
            b == board_of(p0),
            h == p0.history_view(),
            floor == -INF,
            pos.same_state(p0),
            p0.wf(),
            perft_ok(p0, search_budget(depth - 1, ply + 1) + 1),
            depth > 0,
            ply + depth < 900,
            lists_exactly(moves@, |m: Move| legal_move(b, m)),
            forall|m: Move| #[trigger] legal_move(b, m) == legal_move(p0, m),
            leaf_eval_ok(*eval),
            -INF <= alpha_in <= alpha < beta <= INF,
            -INF <= best <= alpha,
            t == n_best(*eval, b, h, depth as int, ply as int, moves@.take(i as int), floor),
            t <= alpha,
            t <= best,
            t > alpha_in ==> best == t && alpha == t,
            t <= alpha_in ==> alpha == alpha_in && best <= alpha_in,
        decreases moves@.len() - i,
    {
        let mv = moves[i];
        let ghost before = *pos;
        proof {
            assert(moves@.contains(mv));
            assert(legal_move(p0, mv));
            crate::movegen::lemma_same_state_moves(before, p0);
            crate::movegen::lemma_pseudo_consistent(before, mv);
        }
        pos.make(mv);
        let ghost p1 = *pos;
        proof {
            lemma_child(p0, before, mv, p1, search_budget(depth - 1, ply + 1));
            lemma_child_board(p0, before, mv, p1);
        }
        let ghost c = n_child(*eval, b, h, mv, depth as int, ply as int);
        let score: i32 = if i > 0 && best > alpha_in {
            // Principal-variation search: a null-window probe first, the full
            // window only when the probe lands inside it.
            let probe = -negamax(pos, depth - 1, -alpha - 1, -alpha, ply + 1, tables, eval);
            if probe > alpha && probe < beta {
                proof {
                    lemma_same_node(*pos, p1, search_budget(depth - 1, ply + 1));
                }
                -negamax(pos, depth - 1, -beta, -alpha, ply + 1, tables, eval)
            } else {
                probe
            }
        } else {
            -negamax(pos, depth - 1, -beta, -alpha, ply + 1, tables, eval)
        };
        proof {
            assert(alpha < c < beta ==> score == c);
            assert(c <= alpha ==> score <= alpha && c <= score);
            assert(c >= beta ==> score >= beta);
            assert(score >= beta ==> c >= score);
        }
        let ghost p2 = *pos;
        assert(make_result(before, mv, p2));
        pos.unmake();
        proof {
            crate::position::lemma_make_unmake(before, mv, p2, *pos);
        }
        proof {
            let s1 = moves@.take(i + 1);
            assert(s1.drop_last() =~= moves@.take(i as int));
            assert(s1.last() == mv);
        }
        let quiet = !mv.flag.is_capture() && mv.flag.promo_piece().is_none();
        proof {
            crate::movegen::lemma_pseudo_consistent(p0, mv);
        }
        if quiet {
            tried.push(mv);
        }
        if score > best {
            best = score;
        }
        if best > alpha {
            alpha = best;
        }
        if alpha >= beta {
            proof {
                lemma_n_best(*eval, b, h, depth as int, ply as int, moves@, floor);
                assert(moves@[i as int] == mv);
            }
            if quiet {
                tables.record_quiet_cutoff(side, mv, depth, ply, &tried);
            }
            return best;
        }
        proof {
            t = if c > t { c } else { t };
        }
        i = i + 1;
    }
    proof {
        assert(moves@.take(moves@.len() as int) =~= moves@);
    }
    best
}

/// Fail-soft alpha-beta search of `pos` to `depth` at `ply` plies from the
/// root: a draw by the fifty-move or material rule scores 0 out of check, a
/// repetition below the root scores 0, depth 0 hands over to quiescence, no
/// legal move is mate or stalemate, a rule draw in check with a move scores 0,
/// and otherwise every legal move is searched one ply deeper, in the order of
/// `node_keys` (promotions, winning captures, killers, history, losing
/// captures), with a null-window probe for each move after one that raised
/// alpha; a quiet move that causes a cutoff is recorded in `tables`. The
/// score is the alpha-beta value of the full tree, whatever the tables hold.
pub fn negamax<F: Fn(&Position) -> i32>(
    pos: &mut Position,
    depth: i32,
    alpha: i32,
    beta: i32,
    ply: u32,
    tables: &mut crate::search::tables::SearchTables,
    eval: &F,
) -> (r: i32)
    requires
        old(pos).wf(),
        old(tables).wf(),
        perft_ok(*old(pos), search_budget(depth as int, ply as int)),
        window_ok(alpha as int, beta as int),
        ply + depth < 900,
        ply < 900,
        leaf_eval_ok(*eval),
    ensures
        final(pos).same_state(*old(pos)),
        final(tables).wf(),
        -INF <= r <= INF,
        bounds_value(
            r as int,
            n_value(*eval, board_of(*old(pos)), old(pos).history_view(), depth as int, ply as int),
            alpha as int,
            beta as int,
        ),
        !can_move(*old(pos)) && !(ply > 0 && repeated(*old(pos), old(pos).history_view())) ==> r == terminal_score(
            *old(pos),
            ply as int,
        ),
    decreases depth, 1int,
{
    let ghost p0 = *pos;
    let ghost b = board_of(p0);
    let ghost h = p0.history_view();
    proof {
        lemma_board_of(p0);
        if depth > 0 {
            assert(search_budget(depth as int, ply as int) == search_budget(depth - 1, ply + 1) + 1);
        }
        assert(search_budget(depth as int, ply as int) >= 1);
        assert(movable(p0));
    }
    let chk = in_check(pos);
    let rule = pos.halfmove >= 100 || crate::eval::insufficient_material(pos);
    proof {
        assert(rule == rule_draw(b));
    }
    if !chk && rule {
        return 0;
    }
    if ply > 0 && pos.is_repetition() {
        return 0;
    }
    if depth <= 0 {
        return quiesce(pos, alpha, beta, ply, eval);
    }
    let legal = generate_legal(pos);
    proof {
        lemma_same_node(*pos, p0, search_budget(depth as int, ply as int));
    }
    if legal.len() == 0 {
        proof {
            if can_move(p0) {
                let m = choose|m: Move| legal_move(p0, m);
                assert(legal@.contains(m));
            }
        }
        return if chk { -(MATE_SCORE - ply as i32) } else { 0 };
    }
    proof {
        assert(legal@.contains(legal@[0]));
        assert(legal_move(p0, legal@[0]));
    }
    if chk && rule {
        return 0;
    }
    proof {
        assert forall|m: Move| #[trigger] legal@.contains(m) <==> legal_move(b, m) by {
            assert(legal@.contains(m) <==> legal_move(p0, m));
        }
        assert(lists_exactly(legal@, |m: Move| legal_move(b, m)));
        assert forall|j: int| 0 <= j < legal@.len() implies (#[trigger] legal@[j]).from < 64 && legal@[j].to < 64 by {
            assert(legal@.contains(legal@[j]));
            crate::movegen::lemma_pseudo_consistent(p0, legal@[j]);
        }
    }
    let ghost unordered = legal@;
    let ordered = ordered_moves(pos, legal, ply, tables);
    proof {
        let (from, nk) = choose|from: Seq<int>, nk: Seq<i32>| #[trigger] crate::search::ordering::stable_desc(
            unordered,
            node_keys(*pos, unordered, tables.killer_pair(ply as int), tables.history@),
            ordered@,
            nk,
            from,
        );
        crate::search::ordering::lemma_reordered_listing(
            unordered,
            node_keys(*pos, unordered, tables.killer_pair(ply as int), tables.history@),
            ordered@,
            nk,
            from,
            |m: Move| legal_move(b, m),
        );
        lemma_n_listing(*eval, b, h, depth as int, ply as int, ordered@, -INF as int);
    }
    n_moves(pos, &ordered, alpha, beta, depth, ply, tables, eval)
}

} // verus!

verus! {

/// A move the root searches: a legal move, and the one move of the scope
/// when the root is restricted to one.
pub open spec fn root_candidate(b: Position, only: Option<Move>, m: Move) -> bool {
    legal_move(b, m) && (only matches Some(f) ==> m == f)
}

/// The root's candidates, in some order.
pub open spec fn root_moves_of(b: Position, only: Option<Move>) -> Seq<Move> {
    listing_of(|m: Move| root_candidate(b, only, m))
}

/// The root of an iteration: every legal move of `pos` (or only `only`, when
/// the root is restricted to that move and it is legal) is searched to
/// `depth - 1` plies below it (fail-soft, from -INF), and the move that last
/// raised the best score is returned with it. With no candidate the score is
/// -MATE_SCORE in check and 0 otherwise, and there is no move.
pub fn root_search<F: Fn(&Position) -> i32>(
    pos: &mut Position,
    depth: i32,
    alpha_in: i32,
    beta: i32,
    only: Option<Move>,
    tables: &mut crate::search::tables::SearchTables,
    eval: &F,
) -> (r: (i32, Option<Move>))
    requires
        old(pos).wf(),
        old(tables).wf(),
        perft_ok(*old(pos), search_budget(depth as int, 0)),
        1 <= depth < 900,
        window_ok(alpha_in as int, beta as int),
        leaf_eval_ok(*eval),
    ensures
        final(pos).same_state(*old(pos)),
        final(tables).wf(),
        -INF <= r.0 <= INF,
        !(exists|m: Move| #[trigger] root_candidate(*old(pos), only, m)) ==> r.0 == (if checked(*old(pos)) {
            -MATE_SCORE
        } else {
            0
        }) && r.1 is None,
        (exists|m: Move| #[trigger] root_candidate(*old(pos), only, m)) ==> {
            &&& r.1 is Some
            &&& root_candidate(*old(pos), only, r.1->0)
            &&& bounds_value(
                r.0 as int,
                n_best(
                    *eval,
                    board_of(*old(pos)),
                    old(pos).history_view(),
                    depth as int,
                    0,
                    root_moves_of(board_of(*old(pos)), only),
                    -INF as int,
                ),
                alpha_in as int,
                beta as int,
            )
            &&& alpha_in < r.0 < beta ==> r.0 == n_child(*eval, board_of(*old(pos)), old(pos).history_view(), r.1->0, depth as int, 0)
        },
{
    let ghost p0 = *pos;
    let ghost b = board_of(p0);
    let ghost h = p0.history_view();
    proof {
        lemma_board_of(p0);
        assert(search_budget(depth as int, 0) == search_budget(depth - 1, 1) + 1);
        assert(movable(p0));
    }
    let legal = generate_legal(pos);
    proof {
        lemma_same_node(*pos, p0, search_budget(depth as int, 0));
    }
    let scoped: Vec<Move> = match only {
        None => legal,
        Some(f) => {
            let mut found = false;
            let mut k: usize = 0;
            while k < legal.len()
                invariant
                    k <= legal@.len(),
                    found == (exists|j: int| 0 <= j < k && legal@[j] == f),
                decreases legal@.len() - k,
            {
                if legal[k] == f {
                    found = true;
                }
                k = k + 1;
            }
            proof {
                if found {
                    let j = choose|j: int| 0 <= j < k && legal@[j] == f;
                    assert(legal@.contains(f));
                } else {
                    if legal@.contains(f) {
                        let j = choose|j: int| 0 <= j < legal@.len() && legal@[j] == f;
                        assert(legal@[j] == f);
                    }
                }
            }
            if found {
                let mut v = Vec::new();
                v.push(f);
                assert(v@ =~= seq![f]);
                assert(v@[0] == f);
                v
            } else {
                Vec::new()
            }
        },
    };
    proof {
        assert forall|m: Move| #[trigger] scoped@.contains(m) <==> root_candidate(b, only, m) by {
            assert(legal@.contains(m) <==> legal_move(p0, m));
            if only is Some && scoped@.len() == 1 {
                if scoped@.contains(m) {
                    let j = choose|j: int| 0 <= j < scoped@.len() && scoped@[j] == m;
                    assert(j == 0);
                }
            }
        }
        assert(scoped@.no_duplicates());
        assert(lists_exactly(scoped@, |m: Move| root_candidate(b, only, m)));
        assert forall|j: int| 0 <= j < scoped@.len() implies (#[trigger] scoped@[j]).from < 64 && scoped@[j].to < 64 by {
            assert(scoped@.contains(scoped@[j]));
            crate::movegen::lemma_pseudo_consistent(p0, scoped@[j]);
        }
    }
    let ghost unordered = scoped@;
    let moves = ordered_moves(pos, scoped, 0, tables);
    proof {
        let (from, nk) = choose|from: Seq<int>, nk: Seq<i32>| #[trigger] crate::search::ordering::stable_desc(
            unordered,
            node_keys(*pos, unordered, tables.killer_pair(0), tables.history@),
            moves@,
            nk,
            from,
        );
        crate::search::ordering::lemma_reordered_listing(
            unordered,
            node_keys(*pos, unordered, tables.killer_pair(0), tables.history@),
            moves@,
            nk,
            from,
            |m: Move| root_candidate(b, only, m),
        );
        let c = root_moves_of(b, only);
        assert(lists_exactly(c, |m: Move| root_candidate(b, only, m)));
        assert forall|m: Move| moves@.contains(m) <==> c.contains(m) by {
            assert(c.contains(m) <==> root_candidate(b, only, m));
        }
        lemma_n_best_same(*eval, b, h, depth as int, 0, moves@, c, -INF as int);
        assert forall|m: Move| #[trigger] root_candidate(p0, only, m) == root_candidate(b, only, m) by {}
    }
    if moves.len() == 0 {
        proof {
            if exists|m: Move| #[trigger] root_candidate(p0, only, m) {
                let m = choose|m: Move| #[trigger] root_candidate(p0, only, m);
                assert(moves@.contains(m));
            }
        }
        let chk = in_check(pos);
        return (if chk { -MATE_SCORE } else { 0 }, None);
    }
    proof {
        assert(moves@.contains(moves@[0]));
        assert(root_candidate(b, only, moves@[0]));
        assert(root_candidate(p0, only, moves@[0]));
        assert forall|j: int| 0 <= j < moves@.len() implies root_candidate(b, only, #[trigger] moves@[j]) by {
            assert(moves@.contains(moves@[j]));
        }
    }
    let ghost floor: int = -INF as int;
    let ghost mut t: int = floor;
    let mut best: i32 = -INF;
    let mut best_move: Option<Move> = None;
    let mut alpha = alpha_in;
    let mut i: usize = 0;
    proof {
        assert(moves@.take(0) =~= Seq::<Move>::empty());
    }
    while i < moves.len()
        invariant
            i <= moves@.len(),
            moves@.len() > 0,
            b == board_of(p0),
            h == p0.history_view(),
            floor == -INF,
            pos.same_state(p0),
            p0.wf(),
            p0 == *old(pos),
            perft_ok(p0, search_budget(depth - 1, 1) + 1),
            1 <= depth < 900,
            forall|j: int| 0 <= j < moves@.len() ==> root_candidate(b, only, #[trigger] moves@[j]),
            root_candidate(p0, only, moves@[0]),
            tables.wf(),
            forall|m: Move| #[trigger] legal_move(b, m) == legal_move(p0, m),
            leaf_eval_ok(*eval),
            -INF <= alpha_in <= alpha < beta <= INF,
            -INF <= best <= alpha,
            i > 0 ==> best_move is Some && root_candidate(b, only, best_move->0),
            n_best(*eval, b, h, depth as int, 0, moves@, floor) == n_best(*eval, b, h, depth as int, 0, root_moves_of(b, only), floor),
            t == n_best(*eval, b, h, depth as int, 0, moves@.take(i as int), floor),
            t <= alpha,
            t <= best,
            t > alpha_in ==> best == t && alpha == t && best_move is Some && n_child(*eval, b, h, best_move->0, depth as int, 0) == t,
            t <= alpha_in ==> alpha == alpha_in && best <= alpha_in,
        decreases moves@.len() - i,
    {
        let mv = moves[i];
        let ghost before = *pos;
        proof {
            assert(moves@.contains(mv));
            assert(legal_move(p0, mv));
            crate::movegen::lemma_same_state_moves(before, p0);
            crate::movegen::lemma_pseudo_consistent(before, mv);
        }
        pos.make(mv);
        let ghost p1 = *pos;
        proof {
            lemma_child(p0, before, mv, p1, search_budget(depth - 1, 1));
            lemma_child_board(p0, before, mv, p1);
        }
        let child = negamax(pos, depth - 1, -beta, -alpha, 1, tables, eval);
        let ghost p2 = *pos;
        assert(make_result(before, mv, p2));
        pos.unmake();
        proof {
            crate::position::lemma_make_unmake(before, mv, p2, *pos);
        }
        let score = -child;
        let ghost c = n_child(*eval, b, h, mv, depth as int, 0);
        proof {
            let s1 = moves@.take(i + 1);
            assert(s1.drop_last() =~= moves@.take(i as int));
            assert(s1.last() == mv);
        }
        if score > best || i == 0 {
            best = if score > best { score } else { best };
            best_move = Some(mv);
        }
        if best > alpha {
            alpha = best;
        }
        if alpha >= beta {
            proof {
                lemma_n_best(*eval, b, h, depth as int, 0, moves@, floor);
                assert(moves@[i as int] == mv);
            }
            return (best, best_move);
        }
        proof {
            t = if c > t { c } else { t };
        }
        i = i + 1;
    }
    proof {
        assert(moves@.take(moves@.len() as int) =~= moves@);
    }
    (best, best_move)
}

} // verus!

verus! {

/// The ordering keys of the moves `ms` at a node of `pos` whose killer pair is
/// `killers`: no table move, no capture or lane bonus, and the history score
/// of the side to move for quiet moves.
pub open spec fn node_keys(pos: Position, ms: Seq<Move>, killers: [Option<Move>; 2], history: Seq<i32>) -> Seq<i32> {
    Seq::new(
        ms.len(),
        |k: int|
            crate::search::ordering::order_key_spec(
                pos,
                ms[k],
                None,
                killers,
                0,
                0,
                history[crate::search::tables::history_index(pos.stm.spec_index(), ms[k])] as int,
            ) as i32,
    )
}

/// The moves `moves` of `pos` in search order: by `node_keys`, highest first,
/// ties in the given order.
fn ordered_moves(pos: &Position, moves: Vec<Move>, ply: u32, tables: &crate::search::tables::SearchTables) -> (out: Vec<Move>)
    requires
        pos.board_wf(),
        tables.wf(),
        forall|j: int| 0 <= j < moves@.len() ==> (#[trigger] moves@[j]).from < 64 && moves@[j].to < 64,
    ensures
        exists|from: Seq<int>, nk: Seq<i32>| #[trigger] crate::search::ordering::stable_desc(
            moves@,
            node_keys(*pos, moves@, tables.killer_pair(ply as int), tables.history@),
            out@,
            nk,
            from,
        ),
{
    let killers = tables.killers_at(ply);
    let side = pos.stm.index();
    let ghost ks = node_keys(*pos, moves@, killers, tables.history@);
    let mut keys: Vec<i32> = Vec::new();
    let mut i: usize = 0;
    while i < moves.len()
        invariant
            i <= moves@.len(),
            pos.board_wf(),
            tables.wf(),
            side == pos.stm.spec_index(),
            side < 2,
            ks == node_keys(*pos, moves@, killers, tables.history@),
            forall|j: int| 0 <= j < moves@.len() ==> (#[trigger] moves@[j]).from < 64 && moves@[j].to < 64,
            keys@ == ks.take(i as int),
        decreases moves@.len() - i,
    {
        let m = moves[i];
        assert(m.from < 64 && m.to < 64);
        let h = tables.history_of(side, m);
        let k = crate::search::ordering::order_key(pos, m, None, killers, 0, 0, h);
        keys.push(k);
        assert(ks.take(i + 1) =~= ks.take(i as int).push(ks[i as int]));
        i = i + 1;
    }
    assert(ks.take(moves@.len() as int) =~= ks);
    let mut out = moves;
    crate::search::ordering::sort_by_key_desc(&mut out, &mut keys);
    out
}

} // verus!

verus! {

/// The capture-order keys of the moves `ms` of `pos`.
pub open spec fn capture_keys(pos: Position, ms: Seq<Move>) -> Seq<i32> {
    Seq::new(ms.len(), |k: int| crate::search::ordering::capture_order_spec(pos, ms[k], 0) as i32)
}

/// The moves `moves` of `pos` in quiescence order: by capture order, highest
/// first, ties in the given order.
fn capture_ordered(pos: &Position, moves: Vec<Move>) -> (out: Vec<Move>)
    requires
        pos.board_wf(),
        forall|j: int| 0 <= j < moves@.len() ==> (#[trigger] moves@[j]).from < 64 && moves@[j].to < 64,
    ensures
        exists|from: Seq<int>, nk: Seq<i32>| #[trigger] crate::search::ordering::stable_desc(
            moves@,
            capture_keys(*pos, moves@),
            out@,
            nk,
            from,
        ),
{
    let ghost ks = capture_keys(*pos, moves@);
    let mut keys: Vec<i32> = Vec::new();
    let mut i: usize = 0;
    while i < moves.len()
        invariant
            i <= moves@.len(),
            pos.board_wf(),
            ks == capture_keys(*pos, moves@),
            forall|j: int| 0 <= j < moves@.len() ==> (#[trigger] moves@[j]).from < 64 && moves@[j].to < 64,
            keys@ == ks.take(i as int),
        decreases moves@.len() - i,
    {
        let m = moves[i];
        assert(m.from < 64 && m.to < 64);
        let k = crate::search::ordering::capture_order(pos, m, 0);
        keys.push(k);
        assert(ks.take(i + 1) =~= ks.take(i as int).push(ks[i as int]));
        i = i + 1;
    }
    assert(ks.take(moves@.len() as int) =~= ks);
    let mut out = moves;
    crate::search::ordering::sort_by_key_desc(&mut out, &mut keys);
    out
}

} // verus!
