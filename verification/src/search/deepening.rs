//! Iterative deepening as a state machine: each step takes the state and what
//! the last search reported, and says what to search next or that the search
//! is over. Running the searches and reading the clock are the caller's.
use vstd::prelude::*;
use crate::search::alphabeta::INF;
use crate::search::types::SearchTermination;
use crate::search::{MATE_SCORE, MATE_THRESHOLD};
use crate::Move;

verus! {

/// Half-width of the aspiration window around the previous score.
pub const ASPIRATION_CP: i32 = 50;

/// The mate distance of `score` in full moves, signed by the side to move
/// (`Some(1)`: mates or is mated in one; `Some(0)`: already mated); `None`
/// for a score that is not a mate score.
pub open spec fn mate_moves_spec(score: int) -> Option<int> {
    if score > MATE_THRESHOLD {
        Some((MATE_SCORE - score + 1) / 2)
    } else if score < -MATE_THRESHOLD {
        Some(-((MATE_SCORE + score + 1) / 2))
    } else {
        None
    }
}

/// The mate distance of a search score in full moves.
pub fn mate_in_moves(score: i32) -> (m: Option<i32>)
    requires
        -MATE_SCORE <= score <= MATE_SCORE,
    ensures
        match m {
            Some(v) => mate_moves_spec(score as int) == Some(v as int),
            None => mate_moves_spec(score as int) is None,
        },
{
    if score > MATE_THRESHOLD {
        Some((MATE_SCORE - score + 1) / 2)
    } else if score < -MATE_THRESHOLD {
        Some(-((MATE_SCORE + score + 1) / 2))
    } else {
        None
    }
}

/// What the caller reports to the deepening loop.
pub enum SearchEvent {
    /// The search begins.
    Start,
    /// The search at the current depth and window finished with `score` and
    /// `best_move`, `elapsed_ms` after the start.
    Iteration { score: i32, best_move: Option<Move>, elapsed_ms: u64 },
    /// The search was stopped before the current iteration finished.
    Stopped,
}

/// What the deepening loop asks of the caller next.
pub enum SearchAction {
    /// Search the root to `depth` with the window (`alpha`, `beta`).
    Search { depth: u32, alpha: i32, beta: i32 },
    /// The search is over; the state holds the result.
    Finish,
}

/// The deepening loop's state: the limits, the iteration under way and the
/// result of the last completed iteration.
pub struct SearchState {
    pub start_depth: u32,
    pub max_depth: u32,
    /// Aspiration windows from the third iteration on.
    pub aspiration: bool,
    pub soft_time_ms: Option<u64>,
    /// The iteration under way and its window.
    pub depth: u32,
    pub alpha: i32,
    pub beta: i32,
    /// The last completed iteration.
    pub completed_depth: u32,
    pub best_move: Option<Move>,
    pub score_cp: i32,
    pub mate: Option<i32>,
    /// Best-move stability for the soft time limit.
    pub stable_iterations: u32,
    pub last_best: Option<Move>,
    pub last_score: Option<i32>,
    pub termination: SearchTermination,
}

impl SearchState {
    /// The limits are in range and the window is one the search accepts.
    pub open spec fn wf(self) -> bool {
        &&& 1 <= self.start_depth <= self.max_depth < 1000
        &&& self.depth <= self.max_depth
        &&& -INF <= self.alpha < self.beta <= INF
        &&& self.soft_time_ms matches Some(s) ==> s <= u64::MAX / 16
        &&& self.stable_iterations < 1000
        &&& self.last_score matches Some(p) ==> -INF <= p <= INF
    }

    /// A fresh state for a search of depths `start_depth..=max_depth`, with
    /// `static_score` as the result until an iteration completes.
    pub fn new(start_depth: u32, max_depth: u32, aspiration: bool, soft_time_ms: Option<u64>, static_score: i32) -> (s: SearchState)
        requires
            1 <= start_depth <= max_depth < 1000,
            soft_time_ms matches Some(t) ==> t <= u64::MAX / 16,
        ensures
            s.wf(),
            s.start_depth == start_depth && s.max_depth == max_depth && s.aspiration == aspiration,
            s.soft_time_ms == soft_time_ms,
            s.completed_depth == 0 && s.best_move is None && s.score_cp == static_score && s.mate is None,
            s.termination == SearchTermination::DepthLimit,
    {
        SearchState {
            start_depth,
            max_depth,
            aspiration,
            soft_time_ms,
            depth: start_depth,
            alpha: -INF,
            beta: INF,
            completed_depth: 0,
            best_move: None,
            score_cp: static_score,
            mate: None,
            stable_iterations: 0,
            last_best: None,
            last_score: None,
            termination: SearchTermination::DepthLimit,
        }
    }
}

/// The score fell outside the window it was searched with (a bound, not a value).
pub open spec fn fails_window(st: SearchState, score: int) -> bool {
    (score <= st.alpha && st.alpha > -INF) || (score >= st.beta && st.beta < INF)
}

/// An iteration at the soft limit is critical when the best move changed at
/// depth 5 or more, or the score dropped by more than 40.
pub open spec fn critical(st: SearchState, score: int, best: Option<Move>) -> bool {
    (st.last_best is Some && best != st.last_best && st.depth >= 5) || (st.last_score matches Some(p) && score + 40 < p)
}

/// The soft time target after an iteration: extended by 2/5 when critical,
/// cut to 11/20 after three stable iterations, else the soft limit.
pub open spec fn soft_target(soft: int, crit: bool, stable: int) -> int {
    if crit { soft + soft * 2 / 5 } else if stable >= 3 { soft * 11 / 20 } else { soft }
}

/// The window for the iteration at `depth` after a score `prev`.
pub open spec fn next_window(aspiration: bool, depth: int, prev: int) -> (int, int) {
    if aspiration && depth >= 3 && -MATE_THRESHOLD < prev < MATE_THRESHOLD {
        (prev - ASPIRATION_CP, prev + ASPIRATION_CP)
    } else {
        (-INF as int, INF as int)
    }
}

/// One step of iterative deepening. `Start` asks for the first depth with a
/// full window. A finished iteration whose score fails its aspiration window
/// asks for the same depth with a full window; otherwise it becomes the result
/// (with its mate distance), and the search ends on a proven mate, on the soft
/// time target, or at the last depth, else goes one depth deeper. `Stopped`
/// ends the search with the last completed result.
pub fn search_step(st: SearchState, ev: SearchEvent) -> (out: (SearchState, SearchAction))
    requires
        st.wf(),
        ev matches SearchEvent::Iteration { score, .. } ==> -MATE_SCORE <= score <= MATE_SCORE,
    ensures
        out.0.wf(),
        out.0.start_depth == st.start_depth && out.0.max_depth == st.max_depth,
        out.0.aspiration == st.aspiration && out.0.soft_time_ms == st.soft_time_ms,
        ev is Start ==> out.1 == (SearchAction::Search { depth: st.start_depth, alpha: (-INF) as i32, beta: INF })
            && out.0.depth == st.start_depth && out.0.completed_depth == st.completed_depth
            && out.0.best_move == st.best_move && out.0.score_cp == st.score_cp,
        ev is Stopped ==> out.1 == SearchAction::Finish && out.0.termination == SearchTermination::HardTime
            && out.0.completed_depth == st.completed_depth && out.0.best_move == st.best_move
            && out.0.score_cp == st.score_cp && out.0.mate == st.mate,
        ev matches SearchEvent::Iteration { score, best_move, elapsed_ms } ==> {
            if fails_window(st, score as int) {
                &&& out.1 == (SearchAction::Search { depth: st.depth, alpha: (-INF) as i32, beta: INF })
                &&& out.0.completed_depth == st.completed_depth && out.0.best_move == st.best_move
                &&& out.0.score_cp == st.score_cp
            } else {
                &&& out.0.completed_depth == st.depth && out.0.best_move == best_move
                &&& out.0.score_cp == score
                &&& (match out.0.mate {
                    Some(v) => mate_moves_spec(score as int) == Some(v as int),
                    None => mate_moves_spec(score as int) is None,
                })
                &&& (score > MATE_THRESHOLD || score < -MATE_THRESHOLD) ==> out.1 == SearchAction::Finish
                    && out.0.termination == SearchTermination::ProvenMate
                &&& !(score > MATE_THRESHOLD || score < -MATE_THRESHOLD) ==> {
                    let stable = if best_move is Some && best_move == st.last_best { st.stable_iterations + 1 } else { 0 };
                    let soft_stop = st.soft_time_ms matches Some(soft) && elapsed_ms >= soft_target(
                        soft as int,
                        critical(st, score as int, best_move),
                        stable,
                    );
                    if soft_stop {
                        out.1 == SearchAction::Finish && out.0.termination == SearchTermination::SoftTime
                    } else if st.depth >= st.max_depth {
                        out.1 == SearchAction::Finish && out.0.termination == SearchTermination::DepthLimit
                    } else {
                        let w = next_window(st.aspiration, st.depth + 1, score as int);
                        out.1 == (SearchAction::Search { depth: (st.depth + 1) as u32, alpha: w.0 as i32, beta: w.1 as i32 })
                    }
                }
            }
        },
{
    let mut st = st;
    match ev {
        SearchEvent::Start => {
            st.depth = st.start_depth;
            st.alpha = -INF;
            st.beta = INF;
            let d = st.start_depth;
            (st, SearchAction::Search { depth: d, alpha: -INF, beta: INF })
        },
        SearchEvent::Stopped => {
            st.termination = SearchTermination::HardTime;
            (st, SearchAction::Finish)
        },
        SearchEvent::Iteration { score, best_move, elapsed_ms } => {
            if (score <= st.alpha && st.alpha > -INF) || (score >= st.beta && st.beta < INF) {
                st.alpha = -INF;
                st.beta = INF;
                let d = st.depth;
                return (st, SearchAction::Search { depth: d, alpha: -INF, beta: INF });
            }
            let crit = (st.last_best.is_some() && best_move != st.last_best && st.depth >= 5) || match st.last_score {
                Some(p) => score + 40 < p,
                None => false,
            };
            let stable = if best_move.is_some() && best_move == st.last_best {
                st.stable_iterations + 1
            } else {
                0
            };
            st.completed_depth = st.depth;
            st.best_move = best_move;
            st.score_cp = score;
            st.mate = mate_in_moves(score);
            if score > MATE_THRESHOLD || score < -MATE_THRESHOLD {
                st.termination = SearchTermination::ProvenMate;
                return (st, SearchAction::Finish);
            }
            st.last_best = best_move;
            st.last_score = Some(score);
            st.stable_iterations = if stable < 999 { stable } else { 999 };
            if let Some(soft) = st.soft_time_ms {
                let target = if crit {
                    soft + soft * 2 / 5
                } else if stable >= 3 {
                    soft * 11 / 20
                } else {
                    soft
                };
                if elapsed_ms >= target {
                    st.termination = SearchTermination::SoftTime;
                    return (st, SearchAction::Finish);
                }
            }
            if st.depth >= st.max_depth {
                st.termination = SearchTermination::DepthLimit;
                return (st, SearchAction::Finish);
            }
            let d = st.depth + 1;
            let (a, b) = if st.aspiration && d >= 3 && -MATE_THRESHOLD < score && score < MATE_THRESHOLD {
                (score - ASPIRATION_CP, score + ASPIRATION_CP)
            } else {
                (-INF, INF)
            };
            st.depth = d;
            st.alpha = a;
            st.beta = b;
            (st, SearchAction::Search { depth: d, alpha: a, beta: b })
        },
    }
}

} // verus!
