pub mod best_move;

use vstd::prelude::*;

pub use best_move::{can_research, can_target, is_prime, BestMoveInfo, SectorIndex};

verus! {

/// What a player may ask of the filter.
#[derive(Debug, Clone, Copy, PartialEq, Eq, Structural)]
pub enum RecommendOperation {
    Count,
    CanLocate,
}

/// What the filter answers.
#[derive(Debug, Clone, Copy, PartialEq, Eq, Structural)]
pub enum RecommendOperationResult {
    Count(usize),
    CanLocate(bool),
}

} // verus!
