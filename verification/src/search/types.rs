//! The vocabulary of search results: lanes, telemetry counters, iterations,
//! how a search ended and where its answer came from.
use vstd::prelude::*;
use crate::Move;

verus! {

pub const TELEMETRY_PLY_BUCKETS: usize = 32;

/// A specialist search lane.
#[derive(Clone, Copy, Debug, PartialEq, Eq, Structural, Default)]
pub enum Lane {
    #[default]
    Fast,
    KingSafety,
    See,
    Tactics,
    DefenderRemoval,
    QuietDefense,
    PawnEndgame,
}

impl Lane {
    /// The 2-bit provenance id a lane's table entries carry.
    pub open spec fn spec_id(self) -> u8 {
        match self {
            Lane::Fast => 0,
            Lane::KingSafety | Lane::QuietDefense => 1,
            Lane::See | Lane::DefenderRemoval => 2,
            Lane::Tactics | Lane::PawnEndgame => 3,
        }
    }

    pub fn id(self) -> (i: u8)
        ensures
            i == self.spec_id(),
            i < 4,
    {
        match self {
            Lane::Fast => 0,
            Lane::KingSafety | Lane::QuietDefense => 1,
            Lane::See | Lane::DefenderRemoval => 2,
            Lane::Tactics | Lane::PawnEndgame => 3,
        }
    }
}

/// Search counters.
#[derive(Clone, Copy, Debug, Default)]
pub struct Telemetry {
    pub nodes: u64,
    pub main_nodes: u64,
    pub q_nodes: u64,
    pub q_capture_nodes: u64,
    pub q_see_skips: u64,
    /// Negative-SEE captures and promotions kept by the SEE verification trigger.
    pub see_verify_kept: u64,
    pub quiet_check_extensions: u64,
    pub mate_threat_extensions: u64,
    pub hanging_major_extensions: u64,
    pub max_q_depth: u32,
    pub tt_probes: u64,
    pub tt_entries: u64,
    pub tt_hits: u64,
    pub tt_miss_cold: u64,
    pub tt_miss_contended: u64,
    pub tt_cutoffs: u64,
    pub beta_cutoffs: u64,
    pub hash_move_cutoffs: u64,
    pub first_move_cutoffs: u64,
    /// Nodes where a reduced search seeded a missing table move, and the subset
    /// where the re-probe then yielded a usable move.
    pub iid_searches: u64,
    pub iid_found: u64,
    pub cutoff_move_index_sum: u64,
    pub cutoff_move_index_count: u64,
    pub legal_move_nodes: u64,
    pub legal_move_sum: u64,
    pub searched_moves: u64,
    pub pruned_moves: u64,
    pub elapsed_ms: u64,
    pub danger_extension_plies: u32,
    pub killer_cutoffs: u64,
    pub history_cutoffs: u64,
    pub null_attempts: u64,
    pub null_cutoffs: u64,
    pub lmr_reductions: u64,
    pub lmr_researches: u64,
    pub pvs_researches: u64,
    pub aspiration_researches: u64,
    pub razor_attempts: u64,
    pub razor_cutoffs: u64,
    pub probcut_attempts: u64,
    pub probcut_cutoffs: u64,
    pub recapture_extensions: u64,
    pub rfp_attempts: u64,
    pub rfp_cutoffs: u64,
    pub futility_attempts: u64,
    pub futility_skips: u64,
    pub lmp_attempts: u64,
    pub lmp_skips: u64,
    pub see_prune_attempts: u64,
    pub see_prune_skips: u64,
    pub delta_attempts: u64,
    pub delta_skips: u64,
    pub cvs_trace_features: u64,
    pub foreign_tt_hints: [u64; 4],
    pub foreign_tt_cutoffs: [u64; 4],
    pub ply_nodes: [u64; TELEMETRY_PLY_BUCKETS],
    pub ply_child_searches: [u64; TELEMETRY_PLY_BUCKETS],
}

#[derive(Clone, Debug)]
pub struct SearchResult {
    pub best_move: Option<Move>,
    pub score_cp: i32,
    /// Mate distance in full moves, signed by the side to move: `Some(1)` = the
    /// side to move mates (or is mated) in one; `Some(0)` = already mated.
    pub mate: Option<i32>,
    pub pv: Vec<Move>,
    pub depth: u32,
    pub telemetry: Telemetry,
    pub iterations: Vec<SearchIteration>,
    pub root_order: Vec<Move>,
    pub attempted_depth: u32,
    pub termination: SearchTermination,
    pub result_source: SearchResultSource,
    pub partial_iteration: Option<PartialIteration>,
}

#[derive(Clone, Debug)]
pub struct SearchIteration {
    pub depth: u32,
    pub best_move: Option<Move>,
    pub score_cp: i32,
    pub nodes: u64,
    pub time_ms: u64,
    pub pv: Vec<Move>,
}

/// Why a search stopped.
#[derive(Clone, Copy, Debug, PartialEq, Eq, Structural)]
pub enum SearchTermination {
    DepthLimit,
    SoftTime,
    HardTime,
    NodeLimit,
    ExternalStop,
    ProvenMate,
    Book,
    Tablebase,
}

impl SearchTermination {
    pub fn as_str(self) -> (s: &'static str)
        ensures
            s@ == (match self {
                SearchTermination::DepthLimit => "depth-limit"@,
                SearchTermination::SoftTime => "soft-time"@,
                SearchTermination::HardTime => "hard-time"@,
                SearchTermination::NodeLimit => "node-limit"@,
                SearchTermination::ExternalStop => "external-stop"@,
                SearchTermination::ProvenMate => "proven-mate"@,
                SearchTermination::Book => "book"@,
                SearchTermination::Tablebase => "tablebase"@,
            }),
    {
        match self {
            SearchTermination::DepthLimit => "depth-limit",
            SearchTermination::SoftTime => "soft-time",
            SearchTermination::HardTime => "hard-time",
            SearchTermination::NodeLimit => "node-limit",
            SearchTermination::ExternalStop => "external-stop",
            SearchTermination::ProvenMate => "proven-mate",
            SearchTermination::Book => "book",
            SearchTermination::Tablebase => "tablebase",
        }
    }
}

/// Where a search answer came from.
#[derive(Clone, Copy, Debug, PartialEq, Eq, Structural)]
pub enum SearchResultSource {
    CompletedIteration,
    NoCompletedIteration,
    Book,
    Tablebase,
}

impl SearchResultSource {
    pub fn as_str(self) -> (s: &'static str)
        ensures
            s@ == (match self {
                SearchResultSource::CompletedIteration => "completed-iteration"@,
                SearchResultSource::NoCompletedIteration => "no-completed-iteration"@,
                SearchResultSource::Book => "book"@,
                SearchResultSource::Tablebase => "tablebase"@,
            }),
    {
        match self {
            SearchResultSource::CompletedIteration => "completed-iteration",
            SearchResultSource::NoCompletedIteration => "no-completed-iteration",
            SearchResultSource::Book => "book",
            SearchResultSource::Tablebase => "tablebase",
        }
    }
}

#[derive(Clone, Debug)]
pub struct RootCandidateProgress {
    pub mv: Move,
    pub score_cp: i32,
    pub time_ms: u64,
}

#[derive(Clone, Debug)]
pub struct PartialIteration {
    pub depth: u32,
    pub alpha: i32,
    pub beta: i32,
    pub root_order: Vec<Move>,
    pub completed_candidates: Vec<RootCandidateProgress>,
    pub provisional_best: Option<Move>,
    pub provisional_score_cp: Option<i32>,
}

/// Which root moves a search considers.
#[derive(Clone, Copy, Debug, PartialEq, Eq, Structural)]
pub enum RootScope {
    All,
    Only(Move),
}

#[derive(Clone, Debug)]
pub struct RootGeometryCacheEntry {
    pub zobrist: u64,
    pub model_hash: u64,
    pub registry_hash: u64,
    pub move_scores: Vec<(Move, i32)>,
}

} // verus!
