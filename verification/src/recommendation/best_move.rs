use vstd::prelude::*;

use crate::map::model::MapType;
use crate::map::validity::is_prime_place;
use crate::operation::Operation;
use crate::room::game_state::{GameStage, UserState};

verus! {

broadcast use vstd::seq_lib::group_seq_properties;

/// A position on a ring of sectors.
#[derive(Debug, Clone, Copy, PartialEq, Eq, Structural)]
pub struct SectorIndex {
    value: usize,
    max: usize,
}

impl SectorIndex {
    #[verifier::type_invariant]
    spec fn inv(&self) -> bool {
        self.value <= self.max
    }

    /// The position, counted from 1.
    pub closed spec fn value(&self) -> usize {
        self.value
    }

    /// The number of sectors of the ring.
    pub closed spec fn ring(&self) -> usize {
        self.max
    }

    pub fn new(value: usize, max: usize) -> (r: Self)
        requires
            value <= max,
        ensures
            r.value() == value,
            r.ring() == max,
    {
        Self { value, max }
    }

    pub fn as_usize(&self) -> (r: usize)
        ensures
            r == self.value(),
            r <= self.ring(),
    {
        proof {
            use_type_invariant(self);
        }
        self.value
    }

    /// The position after this one; after the last comes the first.
    pub fn next(&self) -> (r: Self)
        requires
            self.ring() >= 1,
        ensures
            r.ring() == self.ring(),
            r.value() == if self.value() == self.ring() {
                1
            } else {
                self.value() + 1
            },
    {
        proof {
            use_type_invariant(self);
        }
        if self.value == self.max {
            return Self::new(1, self.max);
        }
        Self::new(self.value + 1, self.max)
    }

    /// The position before this one; before the first comes the last.
    pub fn prev(&self) -> (r: Self)
        requires
            self.value() >= 1,
        ensures
            r.ring() == self.ring(),
            r.value() == if self.value() == 1 {
                self.ring() as int
            } else {
                self.value() - 1
            },
    {
        proof {
            use_type_invariant(self);
        }
        if self.value == 1 {
            return Self::new(self.max, self.max);
        }
        Self::new(self.value - 1, self.max)
    }

    /// How many sectors an arc between two positions holds, both ends
    /// counted, the way round that is shorter for all but the longest arcs.
    pub open spec fn spec_dis(&self, other: &Self) -> int {
        let apart = vstd::math::abs(self.value() - other.value()) as int;
        if apart + 1 > self.ring() / 2 {
            self.ring() - apart + 1
        } else {
            apart + 1
        }
    }

    /// On a ring of an even number of positions the distance is the shorter
    /// of the two arcs between the positions, both ends counted.
    pub proof fn lemma_dis_is_shorter_arc(&self, other: &Self)
        requires
            self.ring() % 2 == 0,
            0 <= self.value() <= self.ring(),
            0 <= other.value() <= self.ring(),
        ensures
            ({
                let apart = vstd::math::abs(self.value() - other.value()) as int;
                self.spec_dis(other) == vstd::math::min(apart + 1, self.ring() - apart + 1)
            }),
    {
    }

    pub fn dis(&self, other: &Self) -> (r: usize)
        requires
            self.value() >= 1,
            other.value() >= 1,
            other.value() <= self.ring(),
        ensures
            r == self.spec_dis(other),
    {
        proof {
            use_type_invariant(self);
        }
        let dis = if self.value > other.value {
            self.value - other.value + 1
        } else {
            other.value - self.value + 1
        };
        if dis > self.max / 2 {
            self.max - dis + 2
        } else {
            dis
        }
    }
}

/// What a bot is told of the game when it is to move.
#[derive(Debug)]
pub struct BestMoveInfo {
    pub stage: GameStage,
    pub map_type: MapType,
    /// The first sector of the window that may be looked at.
    pub start_index: SectorIndex,
    /// The last sector of that window.
    pub end_index: SectorIndex,
    pub revealed_sectors: Vec<usize>,
}

/// How many of the moves are targets.
pub open spec fn targets_among(moves: Seq<Operation>) -> nat
    decreases moves.len(),
{
    if moves.len() == 0 {
        0
    } else {
        targets_among(moves.drop_last()) + if moves.last() is Target {
            1nat
        } else {
            0nat
        }
    }
}

/// Whether the player may research: not twice in a row.
pub fn can_research(user_state: &UserState) -> (r: bool)
    ensures
        r == !(user_state.moves@.len() > 0 && user_state.moves@.last() is Research),
{
    let n = user_state.moves.len();
    if n > 0 {
        match user_state.moves[n - 1] {
            Operation::Research(_) => {
                return false;
            },
            _ => {},
        }
    }
    true
}

/// Whether the player may target: no more than twice in a game.
pub fn can_target(user_state: &UserState) -> (r: bool)
    ensures
        r == (targets_among(user_state.moves@) < 2),
{
    let mut count: usize = 0;
    let mut i: usize = 0;
    while i < user_state.moves.len()
        invariant
            i <= user_state.moves@.len(),
            count <= i,
            count == targets_among(user_state.moves@.take(i as int)),
        decreases user_state.moves@.len() - i,
    {
        assert(user_state.moves@.take(i + 1).drop_last() =~= user_state.moves@.take(i as int));
        match user_state.moves[i] {
            Operation::Target(_) => {
                count += 1;
            },
            _ => {},
        }
        i += 1;
    }
    assert(user_state.moves@.take(user_state.moves@.len() as int) =~= user_state.moves@);
    count < 2
}

/// Whether a position has a prime number, so that a survey for comets may
/// begin or end there.
pub fn is_prime(n: usize) -> (r: bool)
    ensures
        r == is_prime_place(n as int),
{
    n == 2 || n == 3 || n == 5 || n == 7 || n == 11 || n == 13 || n == 17
}

} // verus!
