//! What the search learns across nodes for move ordering: two killer moves
//! per ply (quiet moves that caused a cutoff there) and a history score per
//! side and (from, to) pair, updated by the bounded "gravity" rule.
use vstd::prelude::*;
use crate::Move;

verus! {

/// Plies that keep killer moves.
pub const MAX_KILLER_PLY: usize = 128;

/// History scores stay within ±HISTORY_BOUND.
pub const HISTORY_BOUND: i32 = 8192;

/// The history slot of `m` for side index `side`.
pub open spec fn history_index(side: int, m: Move) -> int {
    side * 4096 + m.from * 64 + m.to
}

/// The gravity update of a history score `e` by `delta`:
/// `e + delta - e * |delta| / HISTORY_BOUND`, the division rounding toward
/// zero. It keeps a score within the bound.
pub open spec fn gravity(e: int, delta: int) -> int {
    let ad = if delta >= 0 { delta } else { -delta };
    let t = if e >= 0 { (e * ad) / 8192 } else { -((-e * ad) / 8192) };
    e + delta - t
}

/// The bonus of the quiet move that caused a cutoff at `depth`.
pub open spec fn cutoff_bonus(depth: int) -> int {
    if 150 * depth < 1500 { 150 * depth } else { 1500 }
}

/// The penalty of a quiet move searched before the cutoff at `depth`.
pub open spec fn tried_malus(depth: int) -> int {
    if 300 * depth < 2200 { 300 * depth } else { 2200 }
}

/// Killer moves and history scores.
pub struct SearchTables {
    pub killers: Vec<[Option<Move>; 2]>,
    pub history: Vec<i32>,
}

impl SearchTables {
    /// One killer pair per ply and one history score per side and square
    /// pair, each within the bound.
    pub open spec fn wf(&self) -> bool {
        &&& self.killers@.len() == MAX_KILLER_PLY
        &&& self.history@.len() == 8192
        &&& forall|i: int| 0 <= i < 8192 ==> -HISTORY_BOUND <= #[trigger] self.history@[i] <= HISTORY_BOUND
    }

    /// Empty tables.
    pub fn new() -> (t: SearchTables)
        ensures
            t.wf(),
            forall|p: int| 0 <= p < MAX_KILLER_PLY ==> #[trigger] t.killers@[p] == [None::<Move>, None::<Move>],
            forall|i: int| 0 <= i < 8192 ==> #[trigger] t.history@[i] == 0,
    {
        let mut killers: Vec<[Option<Move>; 2]> = Vec::new();
        let mut k: usize = 0;
        while k < MAX_KILLER_PLY
            invariant
                k <= MAX_KILLER_PLY,
                killers@.len() == k,
                forall|p: int| 0 <= p < k ==> #[trigger] killers@[p] == [None::<Move>, None::<Move>],
            decreases MAX_KILLER_PLY - k,
        {
            killers.push([None, None]);
            k = k + 1;
        }
        let mut history: Vec<i32> = Vec::new();
        let mut h: usize = 0;
        while h < 8192
            invariant
                h <= 8192,
                history@.len() == h,
                forall|i: int| 0 <= i < h ==> #[trigger] history@[i] == 0,
            decreases 8192 - h,
        {
            history.push(0);
            h = h + 1;
        }
        SearchTables { killers, history }
    }

    /// The killer pair at `ply` (none beyond the last killer ply).
    pub open spec fn killer_pair(&self, ply: int) -> [Option<Move>; 2] {
        if 0 <= ply < MAX_KILLER_PLY { self.killers@[ply] } else { [None::<Move>, None::<Move>] }
    }

    /// The killer pair at `ply` (none beyond the last killer ply).
    pub fn killers_at(&self, ply: u32) -> (k: [Option<Move>; 2])
        requires
            self.wf(),
        ensures
            k == self.killer_pair(ply as int),
    {
        if (ply as usize) < MAX_KILLER_PLY {
            self.killers[ply as usize]
        } else {
            [None, None]
        }
    }

    /// The history score of `m` for side index `side`.
    pub fn history_of(&self, side: usize, m: Move) -> (h: i32)
        requires
            self.wf(),
            side < 2,
            m.from < 64,
            m.to < 64,
        ensures
            h == self.history@[history_index(side as int, m)],
            -HISTORY_BOUND <= h <= HISTORY_BOUND,
    {
        self.history[side * 4096 + m.from as usize * 64 + m.to as usize]
    }

    /// Moves the score of `m` for `side` by `delta` under the gravity rule.
    pub fn history_update(&mut self, side: usize, m: Move, delta: i32)
        requires
            old(self).wf(),
            side < 2,
            m.from < 64,
            m.to < 64,
            -HISTORY_BOUND <= delta <= HISTORY_BOUND,
        ensures
            final(self).wf(),
            final(self).killers@ == old(self).killers@,
            final(self).history@ == old(self).history@.update(
                history_index(side as int, m),
                gravity(old(self).history@[history_index(side as int, m)] as int, delta as int) as i32,
            ),
    {
        let i = side * 4096 + m.from as usize * 64 + m.to as usize;
        let e = self.history[i];
        let ad: i32 = if delta >= 0 { delta } else { -delta };
        assert(0 <= ad <= 8192);
        let t: i32 = if e >= 0 {
            assert(0 <= e * ad <= 8192 * 8192) by (nonlinear_arith)
                requires
                    0 <= e <= 8192,
                    0 <= ad <= 8192,
            ;
            (e * ad) / 8192
        } else {
            assert(0 <= -e * ad <= 8192 * 8192) by (nonlinear_arith)
                requires
                    -8192 <= e < 0,
                    0 <= ad <= 8192,
            ;
            -((-e * ad) / 8192)
        };
        proof {
            let ei = e as int;
            let adi = ad as int;
            if e >= 0 {
                assert(ei * adi / 8192 <= ei) by (nonlinear_arith)
                    requires
                        0 <= ei <= 8192,
                        0 <= adi <= 8192,
                ;
                assert(ei * adi / 8192 >= ei * adi / 8192);
                assert(ei - ei * adi / 8192 >= 0) by (nonlinear_arith)
                    requires
                        0 <= ei <= 8192,
                        0 <= adi <= 8192,
                ;
                assert(ei - ei * adi / 8192 <= 8192 - adi) by (nonlinear_arith)
                    requires
                        0 <= ei <= 8192,
                        0 <= adi <= 8192,
                ;
            } else {
                assert(-ei - (-ei) * adi / 8192 >= 0) by (nonlinear_arith)
                    requires
                        0 < -ei <= 8192,
                        0 <= adi <= 8192,
                ;
                assert(-ei - (-ei) * adi / 8192 <= 8192 - adi) by (nonlinear_arith)
                    requires
                        0 < -ei <= 8192,
                        0 <= adi <= 8192,
                ;
            }
        }
        let v = e + delta - t;
        self.history.set(i, v);
    }

    /// Records a quiet move `m` that caused a cutoff at `ply` and `depth` for
    /// side `side`: it becomes the first killer (the old first killer moves to
    /// second, unless `m` already was the first); its history score rises by
    /// the cutoff bonus, and each other quiet move of `tried` falls by the
    /// tried malus.
    pub fn record_quiet_cutoff(&mut self, side: usize, m: Move, depth: i32, ply: u32, tried: &Vec<Move>)
        requires
            old(self).wf(),
            side < 2,
            m.from < 64,
            m.to < 64,
            1 <= depth < 1000,
            forall|j: int| 0 <= j < tried@.len() ==> tried@[j].from < 64 && tried@[j].to < 64,
        ensures
            final(self).wf(),
            ply < MAX_KILLER_PLY ==> final(self).killers@ == old(self).killers@.update(
                ply as int,
                if old(self).killers@[ply as int][0] == Some(m) {
                    old(self).killers@[ply as int]
                } else {
                    [Some(m), old(self).killers@[ply as int][0]]
                },
            ),
            ply >= MAX_KILLER_PLY ==> final(self).killers@ == old(self).killers@,
    {
        let p = ply as usize;
        if p < MAX_KILLER_PLY {
            let pair = self.killers[p];
            if pair[0] != Some(m) {
                self.killers.set(p, [Some(m), pair[0]]);
            }
        }
        let ghost k1 = self.killers@;
        let bonus: i32 = if 150 * depth < 1500 { 150 * depth } else { 1500 };
        self.history_update(side, m, bonus);
        let malus: i32 = if 300 * depth < 2200 { 300 * depth } else { 2200 };
        let mut j: usize = 0;
        while j < tried.len()
            invariant
                self.wf(),
                self.killers@ == k1,
                side < 2,
                0 < malus <= 2200,
                j <= tried@.len(),
                forall|k: int| 0 <= k < tried@.len() ==> tried@[k].from < 64 && tried@[k].to < 64,
            decreases tried@.len() - j,
        {
            let q = tried[j];
            if q != m {
                self.history_update(side, q, -malus);
            }
            j = j + 1;
        }
    }
}

} // verus!
