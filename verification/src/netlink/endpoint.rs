//! Addresses of sockets.

use vstd::prelude::*;

verus! {

/// The family of a socket address.
#[derive(Debug, Clone, Copy, PartialEq, Eq)]
pub enum AddressFamily {
    Unspecified,
    Unix,
    INet,
    Netlink,
}

/// The address of a netlink socket.
#[derive(Debug, Clone, Copy)]
pub struct SockAddrNl {
    pub nl_family: AddressFamily,
    pub nl_pad: u16,
    /// Port of the socket; zero asks for the kernel or for any free port.
    pub nl_pid: u32,
    /// Mask of the multicast groups.
    pub nl_groups: u32,
}

/// The endpoint of a netlink socket.
#[derive(Debug, Clone, Copy)]
pub struct NetlinkEndpoint {
    pub addr: SockAddrNl,
}

/// The endpoint of a socket.
#[derive(Debug, Clone, Copy)]
pub enum Endpoint {
    /// A netlink socket.
    Netlink(NetlinkEndpoint),
    /// A socket of another family, by its port.
    Ip(u16),
}

} // verus!
