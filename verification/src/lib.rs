//! Verified building blocks of a small kernel: the page layer of a slab
//! allocator, scheduler domains, and netlink message plumbing.

pub mod cpumask;
pub mod error;
pub mod netlink;
pub mod sched;
pub mod slab;
pub mod time;
pub mod uevent;
pub mod uevent_client;
