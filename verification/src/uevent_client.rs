//! The messages of a process that listens for device events.

use crate::netlink::le_bytes;
use crate::netlink::le_value;
use vstd::prelude::*;

verus! {

/// Number of bytes of the header that a process puts before a message.
pub const NLMSG_USER_HDRLEN: usize = 16;

/// The header that a process puts before a message.
#[derive(Debug, Clone, Copy)]
pub struct Nlmsghdr {
    /// Length of the message, header included.
    pub nlmsg_len: u32,
    pub nlmsg_type: u16,
    pub nlmsg_flags: u16,
    pub nlmsg_seq: u32,
    pub nlmsg_pid: u32,
}

/// Why a received message cannot be read.
#[derive(Debug, Clone, Copy, PartialEq, Eq)]
pub enum ReceiveError {
    /// Fewer bytes arrived than a header has.
    TooShort,
    /// The header claims more bytes than arrived.
    Incomplete,
}

/// The bytes of a header: the length in 4 bytes, the type and the flags in 2
/// each, the sequence number and the port in 4 each; every number with its
/// lowest byte first.
pub open spec fn user_header_bytes(h: Nlmsghdr) -> Seq<u8> {
    le_bytes(h.nlmsg_len as int, 4) + le_bytes(h.nlmsg_type as int, 2) + le_bytes(
        h.nlmsg_flags as int,
        2,
    ) + le_bytes(h.nlmsg_seq as int, 4) + le_bytes(h.nlmsg_pid as int, 4)
}

/// The message that a process sends for the text `message`: a header that
/// holds the length of the whole and is zero otherwise, then the text.
pub open spec fn uevent_message(message: Seq<u8>) -> Seq<u8> {
    user_header_bytes(
        Nlmsghdr {
            nlmsg_len: (NLMSG_USER_HDRLEN + message.len()) as u32,
            nlmsg_type: 0,
            nlmsg_flags: 0,
            nlmsg_seq: 0,
            nlmsg_pid: 0,
        },
    ) + message
}

/// Where the text of a received message lies in the `len` bytes that
/// arrived in `buf`: from the end of the header to the length that the
/// header gives.
pub open spec fn uevent_payload(buf: Seq<u8>, len: int) -> Result<(int, int), ReceiveError> {
    if len < NLMSG_USER_HDRLEN {
        Err(ReceiveError::TooShort)
    } else if le_value(buf, 4) > len {
        Err(ReceiveError::Incomplete)
    } else {
        Ok((NLMSG_USER_HDRLEN as int, le_value(buf, 4)))
    }
}

/// The text of a message that arrived whole is the text that was sent.
pub proof fn lemma_uevent_roundtrip(message: Seq<u8>)
    requires
        NLMSG_USER_HDRLEN + message.len() <= u32::MAX,
    ensures
        uevent_payload(uevent_message(message), uevent_message(message).len() as int) == Ok::<
            (int, int),
            ReceiveError,
        >((NLMSG_USER_HDRLEN as int, uevent_message(message).len() as int)),
        uevent_message(message).subrange(
            NLMSG_USER_HDRLEN as int,
            uevent_message(message).len() as int,
        ) == message,
{
    let total = (NLMSG_USER_HDRLEN + message.len()) as u32;
    let sent = uevent_message(message);
    crate::netlink::lemma_le_bytes_len(total as int, 4);
    crate::netlink::lemma_le_bytes_len(0, 2);
    crate::netlink::lemma_le_bytes_len(0, 4);
    crate::netlink::lemma_le_value_of_bytes(total as int, 4);
    reveal_with_fuel(crate::netlink::pow256, 5);
    assert(crate::netlink::pow256(4) == 0x1_0000_0000);
    assert(le_bytes(total as int, 4).subrange(0, 4) =~= sent.subrange(0, 4));
    lemma_le_value_prefix(le_bytes(total as int, 4), sent, 4);
    assert(sent.subrange(NLMSG_USER_HDRLEN as int, sent.len() as int) =~= message);
}

/// The value of the first `n` bytes depends on those bytes only.
pub proof fn lemma_le_value_prefix(a: Seq<u8>, b: Seq<u8>, n: nat)
    requires
        n <= a.len(),
        n <= b.len(),
        a.subrange(0, n as int) == b.subrange(0, n as int),
    ensures
        le_value(a, n) == le_value(b, n),
    decreases n,
{
    if n > 0 {
        assert(a[0] == a.subrange(0, n as int)[0]);
        assert(b[0] == b.subrange(0, n as int)[0]);
        assert(a.skip(1).subrange(0, n - 1) =~= a.subrange(0, n as int).skip(1));
        assert(b.skip(1).subrange(0, n - 1) =~= b.subrange(0, n as int).skip(1));
        lemma_le_value_prefix(a.skip(1), b.skip(1), (n - 1) as nat);
    }
}

/// Builds the message that a process sends for the text `message`.
pub fn send_uevent(message: &[u8]) -> (buffer: Vec<u8>)
    requires
        message@.len() + NLMSG_USER_HDRLEN <= usize::MAX,
    ensures
        buffer@ == uevent_message(message@),
{
    let nlmsghdr = Nlmsghdr {
        nlmsg_len: (NLMSG_USER_HDRLEN + message.len()) as u32,
        nlmsg_type: 0,
        nlmsg_flags: 0,
        nlmsg_seq: 0,
        nlmsg_pid: 0,
    };
    let mut buffer: Vec<u8> = Vec::new();
    crate::netlink::push_le(&mut buffer, nlmsghdr.nlmsg_len as u64, 4);
    crate::netlink::push_le(&mut buffer, nlmsghdr.nlmsg_type as u64, 2);
    crate::netlink::push_le(&mut buffer, nlmsghdr.nlmsg_flags as u64, 2);
    crate::netlink::push_le(&mut buffer, nlmsghdr.nlmsg_seq as u64, 4);
    crate::netlink::push_le(&mut buffer, nlmsghdr.nlmsg_pid as u64, 4);
    assert(buffer@ =~= user_header_bytes(nlmsghdr));
    buffer.extend_from_slice(message);
    buffer
}

/// Finds the text of a received message in the `len` bytes that arrived in
/// `buf`, and returns a copy of it.
///
/// The length that the header gives must cover the header.
pub fn receive_uevent(buf: &[u8], len: usize) -> (r: Result<Vec<u8>, ReceiveError>)
    requires
        len <= buf@.len(),
        len >= NLMSG_USER_HDRLEN && le_value(buf@, 4) <= len ==> le_value(buf@, 4)
            >= NLMSG_USER_HDRLEN,
    ensures
        match uevent_payload(buf@, len as int) {
            Ok((from, to)) => r is Ok && r->Ok_0@ == buf@.subrange(from, to),
            Err(e) => r == Err::<Vec<u8>, ReceiveError>(e),
        },
{
    let nlmsghdr_size = NLMSG_USER_HDRLEN;
    if len < nlmsghdr_size {
        return Err(ReceiveError::TooShort);
    }
    let nlmsg_len = crate::netlink::read_le(buf, 0, 4);
    assert(buf@.skip(0) =~= buf@);
    if nlmsg_len > len as u64 {
        return Err(ReceiveError::Incomplete);
    }
    let end = nlmsg_len as usize;
    let mut message_data: Vec<u8> = Vec::new();
    let mut i: usize = nlmsghdr_size;
    while i < end
        invariant
            nlmsghdr_size == NLMSG_USER_HDRLEN,
            nlmsghdr_size <= i <= end,
            end <= buf@.len(),
            message_data@ == buf@.subrange(nlmsghdr_size as int, i as int),
        decreases end - i,
    {
        message_data.push(buf[i]);
        assert(message_data@ =~= buf@.subrange(nlmsghdr_size as int, i + 1));
        i += 1;
    }
    Ok(message_data)
}

} // verus!
