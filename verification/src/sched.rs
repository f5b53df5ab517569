//! Scheduler domains and the constants of load balancing.

pub mod balance;
pub mod idle;
pub mod sd;
