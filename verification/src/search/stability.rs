//! Stabilization report: how settled a search result is, judged from its
//! iterative-deepening trajectory (it changes nothing in the search). The
//! strongest verdict from the trajectory alone is `StableAtBudget`;
//! `ExactTablebase` comes from a tablebase answer.
use vstd::prelude::*;
use super::types::{SearchIteration, SearchResult, SearchResultSource};
use super::MATE_THRESHOLD;
use crate::Move;

verus! {

/// A score step must be at least this many centipawns to count toward the
/// odd-even oscillation pattern.
pub const MIN_OSC_SWING_CP: i32 = 8;

#[derive(Clone, Copy, Debug, PartialEq, Eq, Structural)]
pub enum StabilizationStatus {
    ExactTablebase,
    VerifiedForcedMate,
    StableAtBudget,
    UnstableTrajectory,
    OmissionRisk,
    VerifierConflict,
    UnresolvedAtBudget,
}

impl StabilizationStatus {
    pub fn as_str(self) -> (s: &'static str)
        ensures
            s@ == (match self {
                StabilizationStatus::ExactTablebase => "exact-tablebase"@,
                StabilizationStatus::VerifiedForcedMate => "verified-forced-mate"@,
                StabilizationStatus::StableAtBudget => "stable-at-budget"@,
                StabilizationStatus::UnstableTrajectory => "unstable-trajectory"@,
                StabilizationStatus::OmissionRisk => "omission-risk"@,
                StabilizationStatus::VerifierConflict => "verifier-conflict"@,
                StabilizationStatus::UnresolvedAtBudget => "unresolved-at-budget"@,
            }),
    {
        match self {
            StabilizationStatus::ExactTablebase => "exact-tablebase",
            StabilizationStatus::VerifiedForcedMate => "verified-forced-mate",
            StabilizationStatus::StableAtBudget => "stable-at-budget",
            StabilizationStatus::UnstableTrajectory => "unstable-trajectory",
            StabilizationStatus::OmissionRisk => "omission-risk",
            StabilizationStatus::VerifierConflict => "verifier-conflict",
            StabilizationStatus::UnresolvedAtBudget => "unresolved-at-budget",
        }
    }
}

#[derive(Clone, Copy, Debug)]
pub struct StabilizationConfig {
    /// Trailing completed iterations to analyze.
    pub window: usize,
    /// A settled score's largest adjacent swing stays at or below this (cp).
    pub stable_max_swing_cp: i32,
    /// A settled result's best move changes at most this many times across the window.
    pub stable_max_changes: u32,
    /// Negative-SEE quiescence skips at or above this flag an omission risk on an
    /// otherwise stable result.
    pub omission_skip_threshold: u64,
}

impl Default for StabilizationConfig {
    fn default() -> (c: Self)
        ensures
            c.window == 4,
            c.stable_max_swing_cp == 30,
            c.stable_max_changes == 0,
            c.omission_skip_threshold == 64,
    {
        StabilizationConfig { window: 4, stable_max_swing_cp: 30, stable_max_changes: 0, omission_skip_threshold: 64 }
    }
}

#[derive(Clone, Debug)]
pub struct StabilizationReport {
    pub status: StabilizationStatus,
    pub window: usize,
    /// Highest minus lowest score over the trailing window.
    pub score_range_cp: i32,
    /// Largest |score[i] - score[i-1]| in the window.
    pub max_adjacent_swing_cp: i32,
    /// Number of best-move changes across the window.
    pub best_move_changes: u32,
    /// Adjacent score steps alternate in sign (depth-parity swing).
    pub odd_even_oscillation: bool,
    /// A mate / non-mate transition occurred in the window.
    pub mate_flip: bool,
    /// Score sign flips (win/loss class changes) in the window.
    pub sign_flips: u32,
    /// Negative-SEE quiescence skips (the omission-risk input).
    pub see_prune_skips: u64,
    /// Machine-readable reasons for the status.
    pub reasons: Vec<&'static str>,
}

/// Two optional moves read the same in UCI notation: same squares and the same
/// promotion piece.
pub open spec fn same_uci(a: Option<Move>, b: Option<Move>) -> bool {
    match (a, b) {
        (None, None) => true,
        (Some(x), Some(y)) => x.from == y.from && x.to == y.to && x.flag.spec_promo_piece() == y.flag.spec_promo_piece(),
        _ => false,
    }
}

fn same_uci_exec(a: Option<Move>, b: Option<Move>) -> (r: bool)
    ensures
        r == same_uci(a, b),
{
    match (a, b) {
        (None, None) => true,
        (Some(x), Some(y)) => x.from == y.from && x.to == y.to && x.flag.promo_piece() == y.flag.promo_piece(),
        _ => false,
    }
}

/// The first trailing-window index for `n` iterations.
pub open spec fn window_start(n: int, window: usize) -> int {
    let wl: int = if window < 1 { 1 } else { window as int };
    if n > wl { n - wl } else { 0 }
}

/// The trailing window of completed iterations.
pub open spec fn trailing(result: SearchResult, cfg: StabilizationConfig) -> Seq<SearchIteration> {
    let it = result.iterations@;
    it.subrange(window_start(it.len() as int, cfg.window), it.len() as int)
}

pub open spec fn abs(x: int) -> int {
    if x < 0 { -x } else { x }
}

/// Highest score among the first `n` (at least one) iterations of `w`.
pub open spec fn score_max(w: Seq<SearchIteration>, n: int) -> int
    decreases n,
{
    if n <= 1 {
        w[0].score_cp as int
    } else if w[n - 1].score_cp > score_max(w, n - 1) {
        w[n - 1].score_cp as int
    } else {
        score_max(w, n - 1)
    }
}

/// Lowest score among the first `n` (at least one) iterations of `w`.
pub open spec fn score_min(w: Seq<SearchIteration>, n: int) -> int
    decreases n,
{
    if n <= 1 {
        w[0].score_cp as int
    } else if w[n - 1].score_cp < score_min(w, n - 1) {
        w[n - 1].score_cp as int
    } else {
        score_min(w, n - 1)
    }
}

/// The score step between iterations `i - 1` and `i`.
pub open spec fn step(w: Seq<SearchIteration>, i: int) -> int {
    w[i].score_cp - w[i - 1].score_cp
}

/// Largest absolute score step among the first `n` iterations.
pub open spec fn max_swing(w: Seq<SearchIteration>, n: int) -> int
    decreases n,
{
    if n < 2 {
        0
    } else if abs(step(w, n - 1)) > max_swing(w, n - 1) {
        abs(step(w, n - 1))
    } else {
        max_swing(w, n - 1)
    }
}

/// Adjacent nonzero scores of opposite sign.
pub open spec fn sign_flip_at(w: Seq<SearchIteration>, i: int) -> bool {
    let a = w[i - 1].score_cp;
    let b = w[i].score_cp;
    a != 0 && b != 0 && (a > 0) != (b > 0)
}

pub open spec fn sign_flip_count(w: Seq<SearchIteration>, n: int) -> nat
    decreases n,
{
    if n < 2 {
        0
    } else {
        sign_flip_count(w, n - 1) + if sign_flip_at(w, n - 1) { 1nat } else { 0nat }
    }
}

pub open spec fn signum(x: int) -> int {
    if x > 0 { 1 } else if x < 0 { -1 } else { 0 }
}

/// Signs of the score steps of at least `MIN_OSC_SWING_CP`, in order.
pub open spec fn osc_signs(w: Seq<SearchIteration>, n: int) -> Seq<int>
    decreases n,
{
    if n < 2 {
        Seq::empty()
    } else if abs(step(w, n - 1)) >= MIN_OSC_SWING_CP {
        osc_signs(w, n - 1).push(signum(step(w, n - 1)))
    } else {
        osc_signs(w, n - 1)
    }
}

/// Every sign is the opposite of the next one.
pub open spec fn alternates(s: Seq<int>) -> bool {
    forall|i: int| 0 <= i < s.len() - 1 ==> #[trigger] s[i] == -s[i + 1]
}

pub open spec fn move_change_count(w: Seq<SearchIteration>, n: int) -> nat
    decreases n,
{
    if n < 2 {
        0
    } else {
        move_change_count(w, n - 1) + if !same_uci(w[n - 2].best_move, w[n - 1].best_move) { 1nat } else { 0nat }
    }
}

pub open spec fn is_mate_cp(s: int) -> bool {
    abs(s) >= MATE_THRESHOLD
}

/// Some adjacent pair among the first `n` iterations crosses between mate and non-mate scores.
pub open spec fn mate_flips(w: Seq<SearchIteration>, n: int) -> bool
    decreases n,
{
    n >= 2 && (mate_flips(w, n - 1) || is_mate_cp(w[n - 2].score_cp as int) != is_mate_cp(w[n - 1].score_cp as int))
}

/// The report's verdict is computed from the trajectory (not a tablebase
/// answer, and some iteration completed).
pub open spec fn trajectory_case(result: SearchResult) -> bool {
    result.result_source != SearchResultSource::Tablebase && result.result_source
        != SearchResultSource::NoCompletedIteration && result.iterations@.len() > 0
}

/// The budget cut the search off while the root move was shifting away from
/// the last completed iteration's choice.
pub open spec fn partial_shift(result: SearchResult, w: Seq<SearchIteration>) -> bool {
    match result.partial_iteration {
        Some(p) => p.provisional_best is Some && !same_uci(p.provisional_best, w.last().best_move),
        None => false,
    }
}

/// The trajectory settled: few best-move changes, small swings, no parity
/// oscillation and no mate flip.
pub open spec fn would_be_stable(w: Seq<SearchIteration>, cfg: StabilizationConfig) -> bool {
    &&& move_change_count(w, w.len() as int) <= cfg.stable_max_changes
    &&& max_swing(w, w.len() as int) <= cfg.stable_max_swing_cp
    &&& !(osc_signs(w, w.len() as int).len() >= 3 && alternates(osc_signs(w, w.len() as int)))
    &&& !mate_flips(w, w.len() as int)
}

pub open spec fn status_spec(result: SearchResult, cfg: StabilizationConfig) -> StabilizationStatus {
    let w = trailing(result, cfg);
    if result.result_source == SearchResultSource::Tablebase {
        StabilizationStatus::ExactTablebase
    } else if !trajectory_case(result) {
        StabilizationStatus::UnresolvedAtBudget
    } else if partial_shift(result, w) {
        StabilizationStatus::UnresolvedAtBudget
    } else if !would_be_stable(w, cfg) {
        StabilizationStatus::UnstableTrajectory
    } else if result.telemetry.see_prune_skips >= cfg.omission_skip_threshold {
        StabilizationStatus::OmissionRisk
    } else {
        StabilizationStatus::StableAtBudget
    }
}

pub open spec fn reasons_spec(result: SearchResult, cfg: StabilizationConfig) -> Seq<Seq<char>> {
    let w = trailing(result, cfg);
    let n = w.len() as int;
    if result.result_source == SearchResultSource::Tablebase {
        seq!["tablebase-source"@]
    } else if !trajectory_case(result) {
        seq!["no-completed-iteration"@]
    } else {
        let base: Seq<Seq<char>> = if mate_flips(w, n) { seq!["mate-flip"@] } else { Seq::empty() };
        if partial_shift(result, w) {
            base.push("partial-iteration-move-shift"@)
        } else if !would_be_stable(w, cfg) {
            let r1 = if move_change_count(w, n) > cfg.stable_max_changes { base.push("best-move-churn"@) } else { base };
            let r2 = if max_swing(w, n) > cfg.stable_max_swing_cp { r1.push("score-swing"@) } else { r1 };
            if osc_signs(w, n).len() >= 3 && alternates(osc_signs(w, n)) { r2.push("odd-even-oscillation"@) } else { r2 }
        } else if result.telemetry.see_prune_skips >= cfg.omission_skip_threshold {
            base.push("negative-see-omission"@)
        } else {
            base.push("trajectory-settled"@)
        }
    }
}

/// The scores of the trailing window fit the report's integer fields: the
/// range fits in an `i32`, and (when there are pairs to compare) no score is
/// `i32::MIN`.
pub open spec fn window_fits(result: SearchResult, cfg: StabilizationConfig) -> bool {
    let w = trailing(result, cfg);
    trajectory_case(result) ==> {
        &&& score_max(w, w.len() as int) - score_min(w, w.len() as int) <= i32::MAX
        &&& w.len() >= 2 ==> forall|i: int| 0 <= i < w.len() ==> #[trigger] w[i].score_cp > i32::MIN
        &&& w.len() <= u32::MAX
    }
}

pub open spec fn texts(r: Seq<&'static str>) -> Seq<Seq<char>> {
    r.map_values(|s: &'static str| s@)
}

/// Every score of the first `n` iterations lies between their lowest and highest.
proof fn lemma_score_bounds(w: Seq<SearchIteration>, n: int, i: int)
    requires
        0 <= i < n <= w.len(),
    ensures
        score_min(w, n) <= w[i].score_cp <= score_max(w, n),
    decreases n,
{
    if n > 1 && i < n - 1 {
        lemma_score_bounds(w, n - 1, i);
    }
}

fn push_reason(reasons: &mut Vec<&'static str>, r: &'static str)
    ensures
        texts(final(reasons)@) == texts(old(reasons)@).push(r@),
{
    reasons.push(r);
    assert(texts(reasons@) =~= texts(old(reasons)@).push(r@));
}

/// Stabilization report with the default configuration.
pub fn stabilization_report(result: &SearchResult) -> (r: StabilizationReport)
    requires
        window_fits(*result, StabilizationConfig { window: 4, stable_max_swing_cp: 30, stable_max_changes: 0, omission_skip_threshold: 64 }),
    ensures
        r.status == status_spec(*result, StabilizationConfig { window: 4, stable_max_swing_cp: 30, stable_max_changes: 0, omission_skip_threshold: 64 }),
        texts(r.reasons@) == reasons_spec(*result, StabilizationConfig { window: 4, stable_max_swing_cp: 30, stable_max_changes: 0, omission_skip_threshold: 64 }),
{
    let cfg = StabilizationConfig::default();
    stabilization_report_with(result, &cfg)
}

/// Stabilization report over the trailing `cfg.window` completed iterations.
#[verifier::rlimit(40)]
pub fn stabilization_report_with(result: &SearchResult, cfg: &StabilizationConfig) -> (r: StabilizationReport)
    requires
        window_fits(*result, *cfg),
    ensures
        r.status == status_spec(*result, *cfg),
        texts(r.reasons@) == reasons_spec(*result, *cfg),
        r.window == cfg.window,
        r.see_prune_skips == result.telemetry.see_prune_skips,
        trajectory_case(*result) ==> ({
            let w = trailing(*result, *cfg);
            let n = w.len() as int;
            &&& r.score_range_cp == score_max(w, n) - score_min(w, n)
            &&& r.max_adjacent_swing_cp == max_swing(w, n)
            &&& r.best_move_changes == move_change_count(w, n)
            &&& r.odd_even_oscillation == (osc_signs(w, n).len() >= 3 && alternates(osc_signs(w, n)))
            &&& r.mate_flip == mate_flips(w, n)
            &&& r.sign_flips == sign_flip_count(w, n)
        }),
        !trajectory_case(*result) ==> r.score_range_cp == 0 && r.max_adjacent_swing_cp == 0 && r.best_move_changes == 0
            && !r.odd_even_oscillation && !r.mate_flip && r.sign_flips == 0,
{
    let mut reasons: Vec<&'static str> = Vec::new();
    assert(texts(reasons@) =~= Seq::<Seq<char>>::empty());
    let see_prune_skips = result.telemetry.see_prune_skips;
    let iters = &result.iterations;
    if result.result_source == SearchResultSource::Tablebase {
        push_reason(&mut reasons, "tablebase-source");
        return StabilizationReport {
            status: StabilizationStatus::ExactTablebase,
            window: cfg.window,
            score_range_cp: 0,
            max_adjacent_swing_cp: 0,
            best_move_changes: 0,
            odd_even_oscillation: false,
            mate_flip: false,
            sign_flips: 0,
            see_prune_skips,
            reasons,
        };
    }
    if result.result_source == SearchResultSource::NoCompletedIteration || iters.len() == 0 {
        push_reason(&mut reasons, "no-completed-iteration");
        return StabilizationReport {
            status: StabilizationStatus::UnresolvedAtBudget,
            window: cfg.window,
            score_range_cp: 0,
            max_adjacent_swing_cp: 0,
            best_move_changes: 0,
            odd_even_oscillation: false,
            mate_flip: false,
            sign_flips: 0,
            see_prune_skips,
            reasons,
        };
    }
    let total = iters.len();
    let wl = if cfg.window < 1 { 1 } else { cfg.window };
    let start = if total > wl { total - wl } else { 0 };
    let len = total - start;
    let ghost w = trailing(*result, *cfg);
    assert(w.len() == len);
    assert(forall|i: int| 0 <= i < len ==> #[trigger] w[i] == iters@[start + i]);
    // Highest and lowest scores of the window.
    let mut hi = iters[start].score_cp;
    let mut lo = hi;
    let mut k: usize = 1;
    while k < len
        invariant
            1 <= k <= len,
            start + len == iters@.len(),
            total == iters@.len(),
            w.len() == len,
            forall|i: int| 0 <= i < len ==> #[trigger] w[i] == iters@[start + i],
            hi == score_max(w, k as int),
            lo == score_min(w, k as int),
        decreases len - k,
    {
        let s = iters[start + k].score_cp;
        assert(w[k as int] == iters@[start + k]);
        if s > hi {
            hi = s;
        }
        if s < lo {
            lo = s;
        }
        k = k + 1;
    }
    let score_range_cp = hi - lo;
    // Adjacent pairs.
    let mut max_adjacent_swing_cp: i32 = 0;
    let mut sign_flips: u32 = 0;
    let mut best_move_changes: u32 = 0;
    let mut mate_flip = false;
    let mut osc: Vec<i32> = Vec::new();
    let mut k: usize = 1;
    while k < len
        invariant
            1 <= k <= len,
            len <= u32::MAX,
            start + len == iters@.len(),
            total == iters@.len(),
            w.len() == len,
            forall|i: int| 0 <= i < len ==> #[trigger] w[i] == iters@[start + i],
            hi - lo <= i32::MAX,
            hi == score_max(w, len as int),
            lo == score_min(w, len as int),
            len >= 2 ==> forall|i: int| 0 <= i < w.len() ==> #[trigger] w[i].score_cp > i32::MIN,
            max_adjacent_swing_cp == max_swing(w, k as int),
            sign_flips == sign_flip_count(w, k as int),
            sign_flips < k,
            best_move_changes == move_change_count(w, k as int),
            best_move_changes < k,
            mate_flip == mate_flips(w, k as int),
            osc@.map_values(|x: i32| x as int) == osc_signs(w, k as int),
        decreases len - k,
    {
        let a = iters[start + k - 1].score_cp;
        let b = iters[start + k].score_cp;
        proof {
            assert(w[k - 1] == iters@[start + k - 1]);
            assert(w[k as int] == iters@[start + k]);
            lemma_score_bounds(w, len as int, k - 1);
            lemma_score_bounds(w, len as int, k as int);
        }
        let d = b - a;
        let ad = if d < 0 { -d } else { d };
        if ad > max_adjacent_swing_cp {
            max_adjacent_swing_cp = ad;
        }
        if a != 0 && b != 0 && (a > 0) != (b > 0) {
            sign_flips = sign_flips + 1;
        }
        if ad >= MIN_OSC_SWING_CP {
            let sg: i32 = if d > 0 { 1 } else if d < 0 { -1 } else { 0 };
            let ghost before = osc@;
            osc.push(sg);
            assert(osc@.map_values(|x: i32| x as int) =~= before.map_values(|x: i32| x as int).push(sg as int));
        }
        if !same_uci_exec(iters[start + k - 1].best_move, iters[start + k].best_move) {
            best_move_changes = best_move_changes + 1;
        }
        let am = (if a < 0 { -a } else { a }) >= MATE_THRESHOLD;
        let bm = (if b < 0 { -b } else { b }) >= MATE_THRESHOLD;
        if am != bm {
            mate_flip = true;
        }
        k = k + 1;
    }
    // Odd-even oscillation: at least three signed steps, alternating.
    let mut alt = true;
    let m = osc.len();
    let mut j: usize = 0;
    while m > 0 && j < m - 1
        invariant
            m == osc@.len(),
            j <= m,
            alt == (forall|i: int| 0 <= i < j && i < m - 1 ==> #[trigger] osc@[i] as int == -(osc@[i + 1] as int)),
        decreases m - j,
    {
        if osc[j] as i64 != -(osc[j + 1] as i64) {
            alt = false;
        }
        j = j + 1;
    }
    let odd_even_oscillation = m >= 3 && alt;
    proof {
        let os = osc_signs(w, len as int);
        assert(os.len() == m);
        assert forall|i: int| 0 <= i < m implies #[trigger] os[i] == osc@[i] as int by {
            assert(osc@.map_values(|x: i32| x as int)[i] == osc@[i] as int);
        }
        if m > 0 {
            assert(j >= m - 1);
        }
        assert(alt == alternates(os)) by {
            if alt {
                assert forall|i: int| 0 <= i < os.len() - 1 implies #[trigger] os[i] == -os[i + 1] by {
                    assert(osc@[i] as int == -(osc@[i + 1] as int));
                }
            } else {
                let i = choose|i: int| !(0 <= i < j && i < m - 1 ==> #[trigger] osc@[i] as int == -(osc@[i + 1] as int));
                assert(os[i] != -os[i + 1]);
            }
        }
        assert(odd_even_oscillation == (os.len() >= 3 && alternates(os)));
    }
    if mate_flip {
        push_reason(&mut reasons, "mate-flip");
    }
    let last_best = iters[total - 1].best_move;
    assert(w.last() == iters@[total - 1]);
    let partial = match &result.partial_iteration {
        Some(p) => p.provisional_best.is_some() && !same_uci_exec(p.provisional_best, last_best),
        None => false,
    };
    let stable = best_move_changes <= cfg.stable_max_changes && max_adjacent_swing_cp <= cfg.stable_max_swing_cp
        && !odd_even_oscillation && !mate_flip;
    let status = if partial {
        push_reason(&mut reasons, "partial-iteration-move-shift");
        StabilizationStatus::UnresolvedAtBudget
    } else if !stable {
        if best_move_changes > cfg.stable_max_changes {
            push_reason(&mut reasons, "best-move-churn");
        }
        if max_adjacent_swing_cp > cfg.stable_max_swing_cp {
            push_reason(&mut reasons, "score-swing");
        }
        if odd_even_oscillation {
            push_reason(&mut reasons, "odd-even-oscillation");
        }
        StabilizationStatus::UnstableTrajectory
    } else if see_prune_skips >= cfg.omission_skip_threshold {
        push_reason(&mut reasons, "negative-see-omission");
        StabilizationStatus::OmissionRisk
    } else {
        push_reason(&mut reasons, "trajectory-settled");
        StabilizationStatus::StableAtBudget
    };
    StabilizationReport {
        status,
        window: cfg.window,
        score_range_cp,
        max_adjacent_swing_cp,
        best_move_changes,
        odd_even_oscillation,
        mate_flip,
        sign_flips,
        see_prune_skips,
        reasons,
    }
}

} // verus!
