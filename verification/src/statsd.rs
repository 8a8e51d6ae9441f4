//! Counter names used when reporting allocator statistics.

use vstd::prelude::*;

verus! {

/// Counters emitted by the allocation tracker.
pub enum AllocCounters {
    /// Tracks memory allocated and deallocated.
    Alloc,
    /// Counts failures inside the allocation tracker.
    Error,
}

impl AllocCounters {
    /// The metric name this counter is reported under.
    pub open spec fn spec_name(self) -> Seq<char> {
        match self {
            AllocCounters::Alloc => "alloc"@,
            AllocCounters::Error => "alloc.error"@,
        }
    }

    /// Returns the metric name of this counter.
    pub fn name(&self) -> (name: &'static str)
        ensures
            name@ == self.spec_name(),
    {
        match *self {
            AllocCounters::Alloc => "alloc",
            AllocCounters::Error => "alloc.error",
        }
    }
}

/// The parts of the relay that memory use is accounted to.
#[derive(Debug, Clone, Copy, PartialEq, Eq)]
pub enum RelayMemoryUseCase {
    /// Memory that no other use case accounts for.
    Unassigned,
    ProcessEnvelope,
    ProjectCache,
    StoreEnvelope,
    TrackOutcome,
    TrackOutcomeAggregator,
    ManageEnvelope,
    GetRelay,
}

impl Default for RelayMemoryUseCase {
    fn default() -> (use_case: Self)
        ensures
            use_case == RelayMemoryUseCase::Unassigned,
    {
        RelayMemoryUseCase::Unassigned
    }
}

} // verus!
