use vstd::prelude::*;

verus! {

/// How much of the call stack is recorded for each allocation.
#[derive(Clone, Copy, Debug, PartialEq, Eq, Structural)]
pub enum BacktraceMode {
    /// Report no backtraces.
    Disabled,
    /// Report backtraces with the allocator's own frames removed.
    Short,
    /// Report the full backtrace.
    Full,
}

impl BacktraceMode {
    /// Whether call stacks are captured at all.
    pub open spec fn spec_enabled(self) -> bool {
        !(self is Disabled)
    }

    pub fn is_enabled(&self) -> (r: bool)
        ensures
            r == self.spec_enabled(),
    {
        !matches!(self, BacktraceMode::Disabled)
    }
}

impl Default for BacktraceMode {
    fn default() -> (r: Self)
        ensures
            r == BacktraceMode::Disabled,
    {
        BacktraceMode::Disabled
    }
}

} // verus!
