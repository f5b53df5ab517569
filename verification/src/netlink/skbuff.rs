//! Socket buffers: the messages on their way to a socket.

use super::af_netlink::clone_segments;
use super::af_netlink::segments;
use super::af_netlink::NetlinkSock;
use std::sync::Arc;
use vstd::prelude::*;

verus! {

/// A socket buffer: the segments of a message and the socket that owns it.
#[derive(Debug)]
pub struct SkBuff {
    /// The owner of the buffer, as it was when it became the owner.
    pub sk: Arc<NetlinkSock>,
    /// The segments of the message.
    pub inner: Vec<Vec<u8>>,
}

impl Clone for SkBuff {
    fn clone(&self) -> (r: SkBuff)
        ensures
            r.sk == self.sk,
            segments(r.inner@) == segments(self.inner@),
    {
        SkBuff { sk: Arc::clone(&self.sk), inner: clone_segments(&self.inner) }
    }
}

impl SkBuff {
    /// An empty buffer, owned by a new socket of `protocol`.
    pub fn new(protocol: Option<usize>) -> (skb: SkBuff)
        ensures
            skb.inner@.len() == 0,
            skb.sk@ == NetlinkSock::new_view(protocol),
    {
        SkBuff { sk: Arc::new(NetlinkSock::new(protocol)), inner: Vec::new() }
    }

    /// Makes the receiving socket `sk` the owner of the buffer.
    pub fn netlink_skb_set_owner_r(&mut self, sk: Arc<NetlinkSock>)
        ensures
            final(self).sk == sk,
            final(self).inner == old(self).inner,
    {
        self.sk = sk;
    }

    /// Whether the filter of the socket `sk` drops the buffer. No socket has
    /// a filter, so none does.
    pub fn sk_filter(&self, sk: &NetlinkSock) -> (r: bool)
        ensures
            !r,
    {
        false
    }

    /// Whether the buffer is shared with another holder. Buffers are not
    /// shared.
    pub fn skb_shared(&self) -> (r: bool)
        ensures
            !r,
    {
        false
    }

    /// Parts the buffer from its owner. The owner keeps no account of its
    /// buffers, so there is nothing to undo.
    pub fn skb_orphan(&self) {
    }
}

/// Records that the receive queue of `sk` overflowed. Sockets keep no such
/// record, so this leaves everything as it is.
pub fn netlink_overrun(sk: &NetlinkSock) {
}

} // verus!
