//! The slot rules of a formation: which place beside the leader each
//! member takes, counted in whole spacings.

use vstd::prelude::*;

verus! {

/// The shape a formation takes round its leader.
#[derive(Debug, Clone, Copy, PartialEq, Eq, Structural)]
pub enum FormationType {
    Circle,
    Bar,
    Line,
    Column,
}

/// Marks the vehicle that leads a formation.
#[derive(Debug, Clone, Copy, PartialEq, Eq, Structural)]
pub struct SteeringFormationLeader {
    pub formation: FormationType,
}

/// Marks a vehicle as the `index`-th member of a formation. Member 0 is
/// the leader itself.
#[derive(Debug, Clone, Copy, PartialEq, Eq, Structural)]
pub struct SteeringFormationMember {
    pub index: usize,
}

/// How far to the side of the leader member `index` stands, in spacings:
/// the leader at 0, then members alternately one side and the other, each
/// pair one spacing further out. Odd members stand on the negative side,
/// even members on the positive side.
pub open spec fn lateral_slot(index: nat) -> int {
    if index % 2 == 0 {
        (index / 2) as int
    } else {
        -((index + 1) / 2)
    }
}

impl SteeringFormationMember {
    /// Whether this member is the leader of its formation.
    pub fn is_leader(&self) -> (leads: bool)
        ensures
            leads == (self.index == 0),
    {
        self.index == 0
    }

    /// How many spacings to the side of the leader this member stands,
    /// negative for one side and positive for the other.
    pub fn lateral_steps(&self) -> (steps: i64)
        ensures
            steps == lateral_slot(self.index as nat),
    {
        let half: u64 = (self.index / 2) as u64;
        if self.index % 2 == 0 {
            half as i64
        } else {
            -(half as i64) - 1
        }
    }
}

/// The member that the `position`-th vehicle of a population becomes when
/// the first `followers` vehicles form up: they take the slots in order,
/// the first of them as leader, and the rest of the population stays
/// outside the formation.
pub fn assign_member(position: usize, followers: usize) -> (member: Option<
    SteeringFormationMember,
>)
    ensures
        member == (if position < followers {
            Some(SteeringFormationMember { index: position })
        } else {
            None
        }),
{
    if position < followers {
        Some(SteeringFormationMember { index: position })
    } else {
        None
    }
}

/// The leader stands on the anchor, and every other member stands
/// `ceil(index / 2)` spacings from it.
pub proof fn lemma_slot_distance(index: nat)
    ensures
        lateral_slot(0) == 0,
        index % 2 == 0 ==> lateral_slot(index) == (index + 1) / 2,
        index % 2 == 1 ==> lateral_slot(index) == -((index + 1) / 2),
        index > 0 ==> lateral_slot(index) != 0,
{
}

/// The two members of a pair stand at the same distance on opposite
/// sides.
pub proof fn lemma_slot_pairs(pair: nat)
    requires
        pair > 0,
    ensures
        lateral_slot((2 * pair - 1) as nat) == -pair,
        lateral_slot(2 * pair) == pair,
{
}

/// No two members share a slot.
pub proof fn lemma_slots_distinct(a: nat, b: nat)
    requires
        a != b,
    ensures
        lateral_slot(a) != lateral_slot(b),
{
}

} // verus!
