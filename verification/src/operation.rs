use vstd::prelude::*;

use crate::map::clue::{Clue, ClueEnum};
use crate::map::model::SectorType;

verus! {

/// A count of one sector type over an arc of the board.
#[derive(Clone, Copy, Debug)]
pub struct SurveyOperatoin {
    pub sector_type: SectorType,
    pub start: usize,
    pub end: usize,
}

/// A look at one sector.
#[derive(Clone, Copy, Debug)]
pub struct TargetOperation {
    pub index: usize,
}

/// A look at one research clue.
#[derive(Clone, Copy, Debug)]
pub struct ResearchOperation {
    pub index: ClueEnum,
}

/// A claim of where X is and what lies on its two sides.
#[derive(Clone, Copy, Debug)]
pub struct LocateOperation {
    pub index: usize,
    pub pre_sector_type: SectorType,
    pub next_sector_type: SectorType,
}

/// The tokens that a player lays down at a meeting.
#[derive(Debug)]
pub struct ReadyPublishOperation {
    pub sectors: Vec<SectorType>,
}

impl Clone for ReadyPublishOperation {
    fn clone(&self) -> (r: Self)
        ensures
            r.sectors@ == self.sectors@,
    {
        let mut sectors: Vec<SectorType> = Vec::new();
        let mut i: usize = 0;
        while i < self.sectors.len()
            invariant
                i <= self.sectors@.len(),
                sectors@ == self.sectors@.take(i as int),
            decreases self.sectors@.len() - i,
        {
            sectors.push(self.sectors[i]);
            i += 1;
        }
        ReadyPublishOperation { sectors }
    }
}

/// A token laid on a sector.
#[derive(Clone, Copy, Debug)]
pub struct DoPublishOperation {
    pub index: usize,
    pub sector_type: SectorType,
}

/// What a player may do on a turn.
#[derive(Clone, Debug)]
pub enum Operation {
    Survey(SurveyOperatoin),
    Target(TargetOperation),
    Research(ResearchOperation),
    Locate(LocateOperation),
    ReadyPublish(ReadyPublishOperation),
    DoPublish(DoPublishOperation),
}

/// Whether two operations say the same.
pub open spec fn same_operation(a: Operation, b: Operation) -> bool {
    match (a, b) {
        (Operation::ReadyPublish(x), Operation::ReadyPublish(y)) => x.sectors@ == y.sectors@,
        _ => a == b,
    }
}

impl Operation {
    /// A copy of the operation.
    pub fn clone_operation(&self) -> (r: Operation)
        ensures
            same_operation(r, *self),
    {
        match self {
            Operation::Survey(s) => Operation::Survey(*s),
            Operation::Target(t) => Operation::Target(*t),
            Operation::Research(r) => Operation::Research(*r),
            Operation::Locate(l) => Operation::Locate(*l),
            Operation::ReadyPublish(rp) => Operation::ReadyPublish(rp.clone()),
            Operation::DoPublish(dp) => Operation::DoPublish(*dp),
        }
    }
}

/// What the game answers to an operation.
#[derive(Clone, Copy, Debug)]
pub enum OperationResult {
    Survey(usize),
    Target(SectorType),
    Research(Clue),
    Locate(bool),
    ReadyPublish(usize),
    DoPublish((usize, SectorType)),
}

} // verus!
