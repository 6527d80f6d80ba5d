use vstd::prelude::*;

use crate::mode::BacktraceMode;

verus! {

/// Allocation figures of one call site.
#[derive(Clone, Copy, Debug, PartialEq, Eq, Structural)]
pub struct BacktraceMetric {
    /// Bytes allocated.
    pub allocated: u64,
    /// Bytes allocated here that have since been freed.
    pub freed: u64,
    /// Number of allocations.
    pub allocations: u64,
    /// The capture mode of the tracker that recorded them.
    pub mode: BacktraceMode,
}

impl BacktraceMetric {
    /// Bytes allocated and not freed, never below zero.
    pub open spec fn spec_in_use(self) -> int {
        if self.allocated >= self.freed {
            self.allocated - self.freed
        } else {
            0
        }
    }

    /// Bytes currently allocated and not freed.
    pub fn in_use(&self) -> (r: u64)
        ensures
            r == self.spec_in_use(),
    {
        self.allocated.saturating_sub(self.freed)
    }
}

impl Default for BacktraceMetric {
    fn default() -> (r: Self)
        ensures
            r == (BacktraceMetric { allocated: 0, freed: 0, allocations: 0, mode: BacktraceMode::Disabled }),
    {
        BacktraceMetric { allocated: 0, freed: 0, allocations: 0, mode: BacktraceMode::Disabled }
    }
}

} // verus!
