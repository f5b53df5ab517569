//! The netlink protocol family.

pub mod netlink_protocol;
