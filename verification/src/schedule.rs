//! The order of work within one simulation tick.

use vstd::prelude::*;

verus! {

/// A stage of a tick. Each stage reads what the stages before it wrote,
/// so they run strictly in this order.
#[derive(Debug, Clone, Copy, PartialEq, Eq, Structural)]
pub enum Phase {
    /// Behaviours read the positions of the previous tick and add their
    /// contributions to each vehicle's desired velocity.
    Steer,
    /// Desired velocities are consumed and vehicles move and turn.
    Integrate,
    /// Positions that left the world re-enter on the opposite side.
    Wrap,
    /// Final poses are copied out for presentation.
    Publish,
}

impl Phase {
    /// The place of a stage in the order of a tick, from 0.
    pub open spec fn rank(self) -> nat {
        match self {
            Phase::Steer => 0,
            Phase::Integrate => 1,
            Phase::Wrap => 2,
            Phase::Publish => 3,
        }
    }

    /// The stage that a tick starts with.
    pub fn first() -> (phase: Phase)
        ensures
            phase.rank() == 0,
    {
        Phase::Steer
    }

    /// The stage that follows this one, or `None` when the tick is done.
    pub fn next(self) -> (following: Option<Phase>)
        ensures
            following is None <==> self.rank() == 3,
            following is Some ==> following->0.rank() == self.rank() + 1,
    {
        match self {
            Phase::Steer => Some(Phase::Integrate),
            Phase::Integrate => Some(Phase::Wrap),
            Phase::Wrap => Some(Phase::Publish),
            Phase::Publish => None,
        }
    }

    /// A stage is determined by its place in the order.
    pub proof fn lemma_rank_identifies(self, other: Phase)
        requires
            self.rank() == other.rank(),
        ensures
            self == other,
    {
    }
}

} // verus!
