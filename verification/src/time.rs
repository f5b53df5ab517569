//! Units of kernel time.

use vstd::prelude::*;

verus! {

/// Number of timer ticks (jiffies) per second.
pub const HZ: u64 = 250;

} // verus!
