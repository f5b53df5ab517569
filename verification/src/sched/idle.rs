//! How idle a processor is when its load is balanced.

use vstd::prelude::*;

verus! {

/// Number of idle states that the balancing statistics tell apart.
pub const MAX_IDLE_TYPES: usize = 3;

/// The state of a processor at the time of a load balance.
#[derive(Debug, Clone, Copy, PartialEq, Eq)]
pub enum CpuIdleType {
    /// The processor is running a task.
    NotIdle,
    /// The processor is idle.
    Idle,
    /// The processor has just become idle.
    NewlyIdle,
}

} // verus!
