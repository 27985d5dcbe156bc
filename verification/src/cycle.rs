//! A cursor that walks round a fixed number of positions.

use vstd::prelude::*;

verus! {

/// A cursor over the positions `0..max` that wraps at both ends.
#[derive(Debug, Clone, Copy, PartialEq, Eq, Structural)]
pub struct CycleIndex {
    pub index: usize,
    pub max: usize,
}

impl CycleIndex {
    /// The cursor points at one of its positions.
    pub open spec fn in_range(self) -> bool {
        self.index < self.max
    }

    /// The cursor one position further on, back at 0 after the last.
    pub open spec fn advanced(self) -> CycleIndex {
        CycleIndex {
            index: if self.index + 1 >= self.max {
                0
            } else {
                (self.index + 1) as usize
            },
            max: self.max,
        }
    }

    /// The cursor one position back, at the last position before 0.
    pub open spec fn retreated(self) -> CycleIndex {
        CycleIndex {
            index: if self.index == 0 {
                (self.max - 1) as usize
            } else {
                (self.index - 1) as usize
            },
            max: self.max,
        }
    }

    /// Moves to the next position, wrapping to 0 past the end.
    pub fn next(&mut self)
        ensures
            *final(self) == old(self).advanced(),
    {
        if self.max == 0 || self.index >= self.max - 1 {
            self.index = 0;
        } else {
            self.index = self.index + 1;
        }
    }

    /// Moves to the previous position, wrapping to the last one before 0.
    /// A cursor over no positions at all has nowhere to wrap to.
    pub fn previous(&mut self)
        requires
            old(self).index > 0 || old(self).max > 0,
        ensures
            *final(self) == old(self).retreated(),
    {
        if self.index == 0 {
            self.index = self.max - 1;
        } else {
            self.index = self.index - 1;
        }
    }

    /// A cursor in range stays in range, and stepping forward then back,
    /// or back then forward, returns to where it was.
    pub proof fn lemma_steps_cancel(self)
        requires
            self.in_range(),
        ensures
            self.advanced().in_range(),
            self.retreated().in_range(),
            self.advanced().retreated() == self,
            self.retreated().advanced() == self,
    {
    }
}

} // verus!
