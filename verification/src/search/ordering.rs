//! Move ordering: a stable sort of the moves by a descending key, with the
//! move from the transposition table placed first.
use vstd::prelude::*;
use crate::Move;

verus! {

/// The key the table's move is ordered by: above every other key.
pub const TT_MOVE_KEY: i32 = 1_000_000_000;

/// (`ka`, `ia`) comes before (`kb`, `ib`): a higher key, or an equal key and
/// an earlier position in the input.
pub open spec fn ranked_before(ka: int, ia: int, kb: int, ib: int) -> bool {
    ka > kb || (ka == kb && ia < ib)
}

/// Position `j` is where some entry of `from` came from.
pub open spec fn has_source(from: Seq<int>, n: int, j: int) -> bool {
    exists|k: int| 0 <= k < n && #[trigger] from[k] == j
}

/// `nm`/`nk` are `om`/`ok` reordered by `from` (entry `k` came from position
/// `from[k]`), highest key first and equal keys in their input order.
pub open spec fn stable_desc(om: Seq<Move>, ok: Seq<i32>, nm: Seq<Move>, nk: Seq<i32>, from: Seq<int>) -> bool {
    let n = om.len();
    &&& ok.len() == n && nm.len() == n && nk.len() == n && from.len() == n
    &&& forall|k: int| 0 <= k < n ==> 0 <= #[trigger] from[k] < n
    &&& forall|k: int, l: int| 0 <= k < l < n ==> #[trigger] from[k] != #[trigger] from[l]
    &&& forall|j: int| 0 <= j < n ==> #[trigger] has_source(from, n as int, j)
    &&& forall|k: int| 0 <= k < n ==> nm[k] == om[#[trigger] from[k]] && nk[k] == ok[from[k]]
    &&& forall|k: int, l: int| 0 <= k < l < n ==> ranked_before(#[trigger] nk[k] as int, from[k], #[trigger] nk[l] as int, from[l])
}

/// Sorts `moves` by `keys` (kept alongside), highest key first; moves with
/// equal keys keep their order.
pub fn sort_by_key_desc(moves: &mut Vec<Move>, keys: &mut Vec<i32>)
    requires
        old(moves).len() == old(keys).len(),
    ensures
        exists|from: Seq<int>| #[trigger] stable_desc(old(moves)@, old(keys)@, final(moves)@, final(keys)@, from),
{
    let ghost m0 = moves@;
    let ghost k0 = keys@;
    let n = moves.len();
    let ghost mut from: Seq<int> = Seq::new(n as nat, |k: int| k);
    let mut i: usize = 0;
    proof {
        assert forall|x: int| 0 <= x < n implies #[trigger] has_source(from, n as int, x) by {
            assert(from[x] == x);
        }
    }
    while i < n
        invariant
            n == m0.len(),
            n == k0.len(),
            moves@.len() == n,
            keys@.len() == n,
            from.len() == n,
            i <= n,
            forall|k: int| 0 <= k < n ==> 0 <= #[trigger] from[k] < n,
            forall|k: int, l: int| 0 <= k < l < n ==> #[trigger] from[k] != #[trigger] from[l],
            forall|j: int| 0 <= j < n ==> #[trigger] has_source(from, n as int, j),
            forall|k: int| 0 <= k < n ==> moves@[k] == m0[#[trigger] from[k]] && keys@[k] == k0[from[k]],
            forall|k: int| i <= k < n ==> #[trigger] from[k] == k,
            forall|k: int| 0 <= k < i ==> #[trigger] from[k] < i,
            forall|k: int, l: int| 0 <= k < l < i ==> ranked_before(#[trigger] keys@[k] as int, from[k], #[trigger] keys@[l] as int, from[l]),
        decreases n - i,
    {
        let mut j: usize = i;
        while j > 0 && keys[j - 1] < keys[j]
            invariant
                n == m0.len(),
                n == k0.len(),
                moves@.len() == n,
                keys@.len() == n,
                from.len() == n,
                i < n,
                j <= i,
                forall|k: int| 0 <= k < n ==> 0 <= #[trigger] from[k] < n,
                forall|k: int, l: int| 0 <= k < l < n ==> #[trigger] from[k] != #[trigger] from[l],
                forall|j: int| 0 <= j < n ==> #[trigger] has_source(from, n as int, j),
                forall|k: int| 0 <= k < n ==> moves@[k] == m0[#[trigger] from[k]] && keys@[k] == k0[from[k]],
                forall|k: int| i < k < n ==> #[trigger] from[k] == k,
                from[j as int] == i,
                forall|k: int| 0 <= k <= i && k != j ==> #[trigger] from[k] < i,
                forall|k: int, l: int|
                    0 <= k < l <= i && k != j && l != j ==> ranked_before(#[trigger] keys@[k] as int, from[k], #[trigger] keys@[l] as int, from[l]),
                forall|l: int| j < l <= i ==> keys@[j as int] > #[trigger] keys@[l],
            decreases j,
        {
            let a = moves[j - 1];
            let b = moves[j];
            let ka = keys[j - 1];
            let kb = keys[j];
            moves.set(j - 1, b);
            moves.set(j, a);
            keys.set(j - 1, kb);
            keys.set(j, ka);
            proof {
                let fa = from[j - 1];
                let fb = from[j as int];
                let old_from = from;
                from = from.update(j - 1, fb).update(j as int, fa);
                assert forall|x: int| 0 <= x < n implies #[trigger] has_source(from, n as int, x) by {
                    assert(has_source(old_from, n as int, x));
                    let k = choose|k: int| 0 <= k < n && #[trigger] old_from[k] == x;
                    if k == j - 1 {
                        assert(from[j as int] == x);
                    } else if k == j {
                        assert(from[j - 1] == x);
                    } else {
                        assert(from[k] == x);
                    }
                }
            }
            j = j - 1;
        }
        proof {
            assert forall|k: int, l: int| 0 <= k < l <= i implies ranked_before(#[trigger] keys@[k] as int, from[k], #[trigger] keys@[l] as int, from[l]) by {
                if l == j {
                    if k < j - 1 {
                        assert(ranked_before(keys@[k] as int, from[k], keys@[j - 1] as int, from[j - 1]));
                    }
                    assert(from[j - 1] < i);
                } else if k == j {
                    assert(keys@[j as int] > keys@[l]);
                }
            }
        }
        i = i + 1;
    }
    assert(stable_desc(m0, k0, moves@, keys@, from));
}

/// The keys the moves are sorted by: the table's move gets `TT_MOVE_KEY`.
pub open spec fn effective_keys(moves: Seq<Move>, keys: Seq<i32>, tt_move: Option<Move>) -> Seq<i32> {
    Seq::new(keys.len(), |k: int| if tt_move == Some(moves[k]) { TT_MOVE_KEY } else { keys[k] })
}

/// Orders `moves` for the search: the table's move (`tt_move`) first, then
/// the rest by `keys` (one per move, each below `TT_MOVE_KEY`), highest first,
/// equal keys in generation order.
pub fn order_moves(moves: &mut Vec<Move>, keys: &Vec<i32>, tt_move: Option<Move>) -> (ordered_keys: Vec<i32>)
    requires
        old(moves).len() == keys.len(),
        forall|k: int| 0 <= k < keys.len() ==> keys@[k] < TT_MOVE_KEY,
    ensures
        exists|from: Seq<int>| #[trigger] stable_desc(
            old(moves)@,
            effective_keys(old(moves)@, keys@, tt_move),
            final(moves)@,
            ordered_keys@,
            from,
        ),
        tt_move is Some && old(moves)@.contains(tt_move->0) ==> final(moves)@[0] == tt_move->0,
{
    let ghost m0 = moves@;
    let n = moves.len();
    let mut eff: Vec<i32> = Vec::new();
    let mut i: usize = 0;
    while i < n
        invariant
            n == m0.len(),
            n == keys@.len(),
            moves@ == m0,
            i <= n,
            eff@.len() == i,
            forall|k: int| 0 <= k < i ==> #[trigger] eff@[k] == (if tt_move == Some(m0[k]) { TT_MOVE_KEY } else { keys@[k] }),
        decreases n - i,
    {
        let m = moves[i];
        let is_tt = match tt_move {
            Some(t) => t == m,
            None => false,
        };
        if is_tt {
            eff.push(TT_MOVE_KEY);
        } else {
            eff.push(keys[i]);
        }
        i = i + 1;
    }
    let ghost e0 = eff@;
    assert(e0 =~= effective_keys(m0, keys@, tt_move));
    sort_by_key_desc(moves, &mut eff);
    proof {
        let from = choose|from: Seq<int>| #[trigger] stable_desc(m0, e0, moves@, eff@, from);
        if let Some(t) = tt_move {
            if m0.contains(t) {
                let j = choose|j: int| 0 <= j < m0.len() && m0[j] == t;
                assert(e0[j] == TT_MOVE_KEY);
                assert(has_source(from, n as int, j));
                let l = choose|l: int| 0 <= l < n && #[trigger] from[l] == j;
                assert(moves@[l] == t);
                if l > 0 {
                    assert(ranked_before(eff@[0] as int, from[0], eff@[l] as int, from[l]));
                    assert(e0[from[0]] == TT_MOVE_KEY);
                    assert(tt_move == Some(m0[from[0]]));
                }
            }
        }
    }
    eff
}

} // verus!

verus! {

/// The piece on the from-square of `m` (a pawn when it is empty).
pub open spec fn attacker_of(pos: crate::position::Position, m: Move) -> crate::Piece {
    match crate::position::spec_piece_at(pos, m.from as u64) {
        Some((_, p)) => p,
        None => crate::Piece::Pawn,
    }
}

/// Most-valuable-victim, least-valuable-attacker order of `m`: the victim's
/// value times 16 less the attacker's (an en-passant victim is a pawn, a
/// quiet move has no victim), plus `bonus` for a capture.
pub open spec fn capture_order_spec(pos: crate::position::Position, m: Move, bonus: int) -> int {
    let victim: int = if m.flag == crate::MoveFlag::EnPassant {
        100
    } else if m.flag.spec_is_capture() {
        match crate::position::spec_piece_at(pos, m.to as u64) {
            Some((_, p)) => crate::see::piece_value(p),
            None => 0,
        }
    } else {
        0
    };
    victim * 16 - crate::see::piece_value(attacker_of(pos, m)) + if m.flag.spec_is_capture() { bonus } else { 0 }
}

/// The ordering key of `m`: the table's move first; then promotions; then
/// captures that do not lose material (en passant never does); then the two
/// killer moves; then the quiet moves by `quiet`; captures that lose material
/// last. Captures and promotions are ranked within their tier by
/// `capture_order_spec`, killers by `lane`.
pub open spec fn order_key_spec(
    pos: crate::position::Position,
    m: Move,
    tt_move: Option<Move>,
    killers: [Option<Move>; 2],
    capture_bonus: int,
    lane: int,
    quiet: int,
) -> int {
    let co = capture_order_spec(pos, m, capture_bonus);
    if tt_move == Some(m) {
        TT_MOVE_KEY as int
    } else if m.flag.spec_promo_piece() is Some {
        900_000 + co
    } else if m.flag.spec_is_capture() {
        if m.flag == crate::MoveFlag::EnPassant || crate::see::see_spec(pos, m.from, m.to) >= 0 {
            800_000 + co
        } else {
            -100_000 + co
        }
    } else if killers[0] == Some(m) {
        700_000 + lane
    } else if killers[1] == Some(m) {
        699_999 + lane
    } else {
        quiet
    }
}

/// `capture_order_spec`, computed.
pub fn capture_order(pos: &crate::position::Position, m: Move, bonus: i32) -> (s: i32)
    requires
        pos.board_wf(),
        m.from < 64,
        m.to < 64,
        -1_000_000 <= bonus <= 1_000_000,
    ensures
        s == capture_order_spec(*pos, m, bonus as int),
{
    let attacker = match pos.piece_at(m.from) {
        Some((_, p)) => p,
        None => crate::Piece::Pawn,
    };
    let victim: i32 = if m.flag == crate::MoveFlag::EnPassant {
        100
    } else if m.flag.is_capture() {
        match pos.piece_at(m.to) {
            Some((_, p)) => crate::see::value_of(p),
            None => 0,
        }
    } else {
        0
    };
    let base = victim * 16 - crate::see::value_of(attacker);
    if m.flag.is_capture() { base + bonus } else { base }
}

/// The ordering key of `m` (see `order_key_spec`).
pub fn order_key(
    pos: &crate::position::Position,
    m: Move,
    tt_move: Option<Move>,
    killers: [Option<Move>; 2],
    capture_bonus: i32,
    lane: i32,
    quiet: i32,
) -> (k: i32)
    requires
        pos.board_wf(),
        m.from < 64,
        m.to < 64,
        -1_000_000 <= capture_bonus <= 1_000_000,
        -1_000_000 <= lane <= 1_000_000,
    ensures
        k == order_key_spec(*pos, m, tt_move, killers, capture_bonus as int, lane as int, quiet as int),
{
    if tt_move == Some(m) {
        return TT_MOVE_KEY;
    }
    let co = capture_order(pos, m, capture_bonus);
    if m.flag.promo_piece().is_some() {
        900_000 + co
    } else if m.flag.is_capture() {
        if m.flag == crate::MoveFlag::EnPassant || crate::see::see(pos, m.from, m.to) >= 0 {
            800_000 + co
        } else {
            -100_000 + co
        }
    } else if killers[0] == Some(m) {
        700_000 + lane
    } else if killers[1] == Some(m) {
        699_999 + lane
    } else {
        quiet
    }
}

} // verus!

verus! {

/// Reordering an exact listing by `stable_desc` gives an exact listing.
pub proof fn lemma_reordered_listing(
    om: Seq<Move>,
    ok: Seq<i32>,
    nm: Seq<Move>,
    nk: Seq<i32>,
    from: Seq<int>,
    pred: spec_fn(Move) -> bool,
)
    requires
        stable_desc(om, ok, nm, nk, from),
        crate::movegen::lists_exactly(om, pred),
    ensures
        crate::movegen::lists_exactly(nm, pred),
{
    let n = om.len();
    assert forall|m: Move| #[trigger] nm.contains(m) <==> pred(m) by {
        if nm.contains(m) {
            let k = choose|k: int| 0 <= k < nm.len() && nm[k] == m;
            assert(nm[k] == om[from[k]]);
            assert(om.contains(om[from[k]]));
        }
        if pred(m) {
            assert(om.contains(m));
            let j = choose|j: int| 0 <= j < om.len() && om[j] == m;
            assert(has_source(from, n as int, j));
            let k = choose|k: int| 0 <= k < n && #[trigger] from[k] == j;
            assert(nm[k] == om[from[k]]);
            assert(nm.contains(nm[k]));
        }
    }
    assert forall|k: int, l: int| 0 <= k < nm.len() && 0 <= l < nm.len() && k != l implies nm[k] != nm[l] by {
        assert(nm[k] == om[from[k]]);
        assert(nm[l] == om[from[l]]);
        if k < l {
            assert(from[k] != from[l]);
        } else {
            assert(from[l] != from[k]);
        }
    }
}

} // verus!
