//! Teaching facts: board facts about pieces and squares for analysis tools
//! (never the search hot path).
pub mod captures;
pub mod discovery;
pub mod double_attack;
pub mod exchange;
pub mod forks;
pub mod hazards;
pub mod lines;
pub mod mate_patterns;
pub mod motifs;
pub mod pawn_structure;
pub mod piece_safety;
pub mod pins;
pub mod position;
pub mod promotion_pressure;
pub mod remove_guard;
pub mod skewers;
pub mod square_control;
pub mod trapped;
pub mod types;
pub mod xrays;

pub use types::{FactCollection, FactValue, PieceRef, PieceType, Side, SquareFact};

use vstd::prelude::*;

verus! {

pub const TEACHING_FACTS_SCHEMA_VERSION: u32 = 1;
pub const FACTS_REGISTRY_VERSION: u32 = 11;

} // verus!
