//! Flags and limits of load balancing.

use crate::time::HZ;
use vstd::prelude::*;

verus! {

pub const LBF_ALL_PINNED: u32 = 0x01;

pub const LBF_NEED_BREAK: u32 = 0x02;

pub const LBF_DST_PINNED: u32 = 0x04;

pub const LBF_SOME_PINNED: u32 = 0x08;

pub const LBF_ACTIVE_LB: u32 = 0x10;

pub const SYSCTL_SCHED_NR_MIGRATE: u32 = 32;

pub const SCHED_NR_MIGRATE_BREAK: u32 = 8;

/// The longest time between two balances of a domain, in jiffies.
pub const MAX_LOAD_BALANCE_INTERVAL: u64 = HZ / 10;

pub const SYSCTL_SCHED_MIGRATION_COST: u64 = 500000;

} // verus!
