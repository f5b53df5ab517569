//! Netlink: messages between the kernel and processes.

use crate::error::SystemError;
pub use af_netlink::__netlink_create;
pub use af_netlink::netlink_kernel_create;
use af_netlink::NetlinkSock;
use netlink_proto::netlink_protocol::KOBJECT_UEVENT;
use std::sync::Arc;
use vstd::prelude::*;

pub mod af_netlink;
pub mod endpoint;
pub mod netlink_proto;
pub mod ports;
pub mod skbuff;

verus! {

/// Socket option: join a multicast group.
pub const NETLINK_ADD_MEMBERSHIP: usize = 1;

/// Socket option: leave a multicast group.
pub const NETLINK_DROP_MEMBERSHIP: usize = 2;

/// Socket option: receive information on the sender with each message.
pub const NETLINK_PKTINFO: usize = 3;

/// Number of netlink protocols.
pub const MAX_LINKS: usize = 32;

/// Configuration flag: processes without privilege may receive.
pub const NL_CFG_F_NONROOT_RECV: u32 = 1;

/// Messages are padded to a multiple of this many bytes.
pub const NLMSG_ALIGNTO: usize = 4;

/// Number of bytes of a message header.
pub const NLMSG_HDRLEN: usize = 24;

/// The general kinds of message.
pub type NLmsgType = u8;

/// Nothing.
pub const NLMSG_NOOP: NLmsgType = 0x1;

/// An error.
pub const NLMSG_ERROR: NLmsgType = 0x2;

/// The end of a dump.
pub const NLMSG_DONE: NLmsgType = 0x3;

/// Data was lost.
pub const NLMSG_OVERRUN: NLmsgType = 0x4;

/// The flags of a message.
pub type NLmsgFlags = u16;

pub const NLM_F_REQUEST: NLmsgFlags = 0x01;

pub const NLM_F_MULTI: NLmsgFlags = 0x02;

pub const NLM_F_ACK: NLmsgFlags = 0x04;

pub const NLM_F_ECHO: NLmsgFlags = 0x08;

pub const NLM_F_DUMP_INTR: NLmsgFlags = 0x10;

pub const NLM_F_DUMP_FILTERED: NLmsgFlags = 0x20;

pub const NLM_F_ROOT: NLmsgFlags = 0x100;

pub const NLM_F_MATCH: NLmsgFlags = 0x200;

pub const NLM_F_ATOMIC: NLmsgFlags = 0x400;

pub const NLM_F_DUMP: NLmsgFlags = 0x100 | 0x200;

pub const NLM_F_REPLACE: NLmsgFlags = 0x100;

pub const NLM_F_EXCL: NLmsgFlags = 0x200;

pub const NLM_F_CREATE: NLmsgFlags = 0x400;

pub const NLM_F_APPEND: NLmsgFlags = 0x800;

pub const NLM_F_NONREC: NLmsgFlags = 0x100;

pub const NLM_F_CAPPED: NLmsgFlags = 0x100;

pub const NLM_F_ACK_TLVS: NLmsgFlags = 0x200;

/// The header of a netlink message.
#[derive(Debug, Clone, Copy)]
pub struct NLmsghdr {
    /// Length of the message, header included.
    pub nlmsg_len: usize,
    pub nlmsg_type: NLmsgType,
    pub nlmsg_flags: NLmsgFlags,
    /// Sequence number.
    pub nlmsg_seq: u32,
    /// Port of the sender.
    pub nlmsg_pid: u32,
}

/// Flag of a receive call: take out-of-band data.
pub const PMSG_OOB: u32 = 1;

/// The level that a socket option belongs to.
#[derive(Debug, Clone, Copy, PartialEq, Eq)]
pub enum PSOL {
    SOCKET,
    TCP,
    UDP,
    NETLINK,
}

/// The state of a netlink socket.
#[derive(Debug, PartialEq, Eq, Copy, Clone)]
pub enum NetlinkState {
    Unconnected,
    Connected,
    SCongested,
}

/// A callback that takes no argument.
pub trait InputHandler: Send + Sync {
    fn call(&self);
}

/// A callback on a multicast group, which it maps to a status.
pub trait GroupHandler: Send + Sync {
    fn call(&self, group: i32) -> i32;
}

/// A callback that tells for a socket whether it matches.
pub trait CompareHandler: Send + Sync {
    fn call(&self, sock: &af_netlink::NetlinkSock) -> bool;
}

/// Called when a message arrives at a kernel socket.
pub struct InputCallback {
    pub handler: Arc<dyn InputHandler>,
}

/// Called when a socket joins a group.
pub struct BindCallback {
    pub handler: Arc<dyn GroupHandler>,
}

/// Called when a socket leaves a group.
pub type UnbindCallback = BindCallback;

/// Called to tell whether a socket may receive.
pub struct CompareCallback {
    pub handler: Arc<dyn CompareHandler>,
}

/// The optional parameters of a kernel socket.
pub struct NetlinkKernelCfg {
    /// Number of multicast groups.
    pub groups: u32,
    pub flags: u32,
    pub input: Option<InputCallback>,
    pub bind: Option<BindCallback>,
    pub unbind: Option<UnbindCallback>,
    pub compare: Option<CompareCallback>,
}

impl Default for NetlinkKernelCfg {
    fn default() -> (cfg: NetlinkKernelCfg)
        ensures
            cfg.groups == 0,
            cfg.flags == 0,
            cfg.input is None,
            cfg.bind is None,
            cfg.unbind is None,
            cfg.compare is None,
    {
        NetlinkKernelCfg { groups: 0, flags: 0, input: None, bind: None, unbind: None, compare: None }
    }
}

impl NetlinkKernelCfg {
    /// Parameters for 32 groups, without flags or callbacks.
    pub fn new() -> (cfg: NetlinkKernelCfg)
        ensures
            cfg.groups == 32,
            cfg.flags == 0,
            cfg.input is None,
            cfg.bind is None,
            cfg.unbind is None,
            cfg.compare is None,
    {
        NetlinkKernelCfg { groups: 32, flags: 0, input: None, bind: None, unbind: None, compare: None }
    }

    pub fn set_input(&mut self, callback: InputCallback)
        ensures
            final(self).input matches Some(c) && c == callback,
            final(self).groups == old(self).groups,
            final(self).flags == old(self).flags,
            final(self).bind == old(self).bind,
            final(self).unbind == old(self).unbind,
            final(self).compare == old(self).compare,
    {
        self.input = Some(callback);
    }

    pub fn set_bind(&mut self, callback: BindCallback)
        ensures
            final(self).bind matches Some(c) && c == callback,
            final(self).groups == old(self).groups,
            final(self).flags == old(self).flags,
            final(self).input == old(self).input,
            final(self).unbind == old(self).unbind,
            final(self).compare == old(self).compare,
    {
        self.bind = Some(callback);
    }

    pub fn set_unbind(&mut self, callback: UnbindCallback)
        ensures
            final(self).unbind matches Some(c) && c == callback,
            final(self).groups == old(self).groups,
            final(self).flags == old(self).flags,
            final(self).input == old(self).input,
            final(self).bind == old(self).bind,
            final(self).compare == old(self).compare,
    {
        self.unbind = Some(callback);
    }

    pub fn set_compare(&mut self, callback: CompareCallback)
        ensures
            final(self).compare matches Some(c) && c == callback,
            final(self).groups == old(self).groups,
            final(self).flags == old(self).flags,
            final(self).input == old(self).input,
            final(self).bind == old(self).bind,
            final(self).unbind == old(self).unbind,
    {
        self.compare = Some(callback);
    }
}

/// The netlink family of sockets.
pub struct Netlink;

/// The flags of a socket.
pub enum SockFlags {
    Dead,
    Done,
    Urginline,
    Keepopen,
    Linger,
    Destroy,
    Broadcast,
    Timestamp,
    Zapped,
    /// Whether the write queue is used.
    UseWriteQueue,
    /// Debugging is on.
    Dbg,
    /// Messages carry a timestamp.
    Rcvtstamp,
    /// Messages carry a timestamp in nanoseconds.
    Rcvtstampns,
    /// Route locally only.
    Localroute,
    /// Swapping depends on this socket.
    Memalloc,
    TimestampingRxSoftware,
    /// Asynchronous notification is active.
    Fasync,
    RxqOvfl,
    /// Buffers come from user space.
    Zerocopy,
    /// Wifi status is pushed to user space.
    WifiStatus,
    /// The last four bytes of a packet stand in place of the frame check.
    Nofcs,
    /// The filter cannot be changed any more.
    FilterLocked,
    /// Select wakes on the error queue.
    SelectErrQueue,
    RcuFree,
    Txtime,
    Xdp,
    /// Timestamps always have 64 bits.
    TstampNew,
    /// Messages carry the mark of their packet.
    Rcvmark,
}

/// The `n` low bytes of `x`, lowest first.
pub open spec fn le_bytes(x: int, n: nat) -> Seq<u8>
    decreases n,
{
    if n == 0 {
        Seq::empty()
    } else {
        seq![(x % 256) as u8] + le_bytes(x / 256, (n - 1) as nat)
    }
}

/// The number whose bytes, lowest first, are the first `n` bytes of `s`.
pub open spec fn le_value(s: Seq<u8>, n: nat) -> int
    decreases n,
{
    if n == 0 {
        0
    } else {
        s[0] as int + 256 * le_value(s.skip(1), (n - 1) as nat)
    }
}

/// `n` zero bytes.
pub open spec fn zeros(n: int) -> Seq<u8> {
    Seq::new(n as nat, |i: int| 0u8)
}

/// The bytes of a header: the length in 8 bytes, the sequence number and the
/// sender's port in 4 bytes each, the flags in 2, the type in 1, and 5 bytes
/// of padding; every number with its lowest byte first.
pub open spec fn header_bytes(h: NLmsghdr) -> Seq<u8> {
    le_bytes(h.nlmsg_len as int, 8) + le_bytes(h.nlmsg_seq as int, 4) + le_bytes(
        h.nlmsg_pid as int,
        4,
    ) + le_bytes(h.nlmsg_flags as int, 2) + seq![h.nlmsg_type] + zeros(5)
}

/// The header that the first `NLMSG_HDRLEN` bytes of `s` hold.
pub open spec fn parse_header(s: Seq<u8>) -> NLmsghdr {
    NLmsghdr {
        nlmsg_len: le_value(s, 8) as usize,
        nlmsg_seq: le_value(s.skip(8), 4) as u32,
        nlmsg_pid: le_value(s.skip(12), 4) as u32,
        nlmsg_flags: le_value(s.skip(16), 2) as u16,
        nlmsg_type: s[18],
    }
}

/// `s` followed by as few zero bytes as make its length a multiple of
/// `NLMSG_ALIGNTO`.
pub open spec fn padded(s: Seq<u8>) -> Seq<u8> {
    s + zeros((4 - s.len() % 4) % 4)
}

/// `s`, made at least `offset + 4` bytes long with zero bytes, with the four
/// bytes of `data` at `offset`.
pub open spec fn with_u32_at(s: Seq<u8>, offset: int, data: u32) -> Seq<u8> {
    let t = if s.len() < offset + 4 {
        s + zeros(offset + 4 - s.len())
    } else {
        s
    };
    Seq::new(
        t.len(),
        |i: int|
            if offset <= i < offset + 4 {
                le_bytes(data as int, 4nat)[i - offset]
            } else {
                t[i]
            },
    )
}

/// 256 to the power `n`.
pub open spec fn pow256(n: nat) -> int
    decreases n,
{
    if n == 0 {
        1
    } else {
        256 * pow256((n - 1) as nat)
    }
}

/// `le_bytes` has the length asked for.
pub proof fn lemma_le_bytes_len(x: int, n: nat)
    ensures
        le_bytes(x, n).len() == n,
    decreases n,
{
    if n > 0 {
        lemma_le_bytes_len(x / 256, (n - 1) as nat);
    }
}

/// A number below `256^n` is the value of its `n` low bytes.
pub proof fn lemma_le_value_of_bytes(x: int, n: nat)
    requires
        0 <= x,
    ensures
        pow256(n) > 0,
        le_value(le_bytes(x, n), n) == x % pow256(n),
    decreases n,
{
    if n > 0 {
        let rest = le_bytes(x / 256, (n - 1) as nat);
        lemma_le_value_of_bytes(x / 256, (n - 1) as nat);
        assert(le_bytes(x, n).skip(1) =~= rest);
        let p = pow256((n - 1) as nat);
        assert(x % (256 * p) == x % 256 + 256 * ((x / 256) % p)) by {
            vstd::arithmetic::div_mod::lemma_breakdown(x, 256, p);
        }
    }
}

/// Writes the `n` low bytes of `x` at the end of `out`, lowest first.
pub fn push_le(out: &mut Vec<u8>, x: u64, n: usize)
    ensures
        final(out)@ == old(out)@ + le_bytes(x as int, n as nat),
{
    let mut v = x;
    let mut k: usize = 0;
    while k < n
        invariant
            k <= n,
            out@ + le_bytes(v as int, (n - k) as nat) == old(out)@ + le_bytes(x as int, n as nat),
        decreases n - k,
    {
        let ghost before = out@;
        out.push((v % 256) as u8);
        proof {
            let rest = le_bytes((v / 256) as int, (n - k - 1) as nat);
            assert(before + (seq![(v % 256) as u8] + rest) =~= before.push((v % 256) as u8) + rest);
        }
        v = v / 256;
        k += 1;
    }
    assert(out@ + le_bytes(v as int, 0) =~= out@);
}

/// The bytes of a header are `NLMSG_HDRLEN` bytes.
pub proof fn lemma_header_bytes_len(h: NLmsghdr)
    ensures
        header_bytes(h).len() == NLMSG_HDRLEN,
{
    lemma_le_bytes_len(h.nlmsg_len as int, 8);
    lemma_le_bytes_len(h.nlmsg_seq as int, 4);
    lemma_le_bytes_len(h.nlmsg_pid as int, 4);
    lemma_le_bytes_len(h.nlmsg_flags as int, 2);
}

/// Reads the number whose bytes, lowest first, are the `n` bytes of `s` from
/// `at` on.
pub fn read_le(s: &[u8], at: usize, n: usize) -> (r: u64)
    requires
        n <= 8,
        at + n <= s@.len(),
    ensures
        r == le_value(s@.skip(at as int), n as nat),
        r < pow256(n as nat),
{
    let len = s.len();
    let mut v: u64 = 0;
    let mut k: usize = n;
    let ghost bound: int = 1;
    while k > 0
        invariant
            k <= n <= 8,
            at + n <= s@.len(),
            len == s@.len(),
            v == le_value(s@.skip(at + k), (n - k) as nat),
            0 <= v < bound,
            bound == pow256((n - k) as nat),
        decreases k,
    {
        proof {
            reveal_with_fuel(pow256, 10);
            assert(pow256(8) == 0x1_0000_0000_0000_0000);
            assert(pow256((n - k + 1) as nat) <= pow256(8));
            assert(s@.skip(at + k - 1).skip(1) =~= s@.skip(at + k));
        }
        k -= 1;
        v = v * 256 + s[at + k] as u64;
        proof {
            bound = bound * 256;
        }
    }
    v
}

/// Padding and raw writes on a buffer of message bytes.
pub trait VecExt {
    /// The bytes of the buffer.
    spec fn bytes(&self) -> Seq<u8>;

    /// Pads the buffer with zero bytes to a multiple of `NLMSG_ALIGNTO`.
    fn align(&mut self)
        requires
            old(self).bytes().len() + NLMSG_ALIGNTO <= usize::MAX,
        ensures
            final(self).bytes() == padded(old(self).bytes()),
            final(self).bytes().len() % 4 == 0,
    ;

    /// Writes the bytes of the header `data` at the end of the buffer.
    fn push_ext(&mut self, data: NLmsghdr)
        ensures
            final(self).bytes() == old(self).bytes() + header_bytes(data),
    ;

    /// Writes the four bytes of `data` at `offset`, after growing the buffer
    /// with zero bytes if it ends before `offset + 4`.
    fn set_ext(&mut self, offset: usize, data: u32)
        requires
            offset + 4 <= usize::MAX,
        ensures
            final(self).bytes() == with_u32_at(old(self).bytes(), offset as int, data),
    ;
}

impl VecExt for Vec<u8> {
    open spec fn bytes(&self) -> Seq<u8> {
        self@
    }

    fn align(&mut self) {
        let rem = self.len() % NLMSG_ALIGNTO;
        if rem != 0 {
            let len = self.len() + (NLMSG_ALIGNTO - rem);
            self.resize(len, 0);
        }
        assert(self@ =~= padded(old(self)@));
    }

    fn push_ext(&mut self, data: NLmsghdr) {
        push_le(self, data.nlmsg_len as u64, 8);
        push_le(self, data.nlmsg_seq as u64, 4);
        push_le(self, data.nlmsg_pid as u64, 4);
        push_le(self, data.nlmsg_flags as u64, 2);
        self.push(data.nlmsg_type);
        let mut pad: usize = 0;
        while pad < 5
            invariant
                pad <= 5,
                self@ == old(self)@ + le_bytes(data.nlmsg_len as int, 8) + le_bytes(
                    data.nlmsg_seq as int,
                    4,
                ) + le_bytes(data.nlmsg_pid as int, 4) + le_bytes(data.nlmsg_flags as int, 2)
                    + seq![data.nlmsg_type] + zeros(pad as int),
            decreases 5 - pad,
        {
            let ghost before = self@;
            self.push(0);
            proof {
                assert(zeros(pad as int).push(0u8) =~= zeros(pad + 1));
                let head = old(self)@ + le_bytes(data.nlmsg_len as int, 8) + le_bytes(
                    data.nlmsg_seq as int,
                    4,
                ) + le_bytes(data.nlmsg_pid as int, 4) + le_bytes(data.nlmsg_flags as int, 2)
                    + seq![data.nlmsg_type];
                assert((head + zeros(pad as int)).push(0u8) =~= head + zeros(pad + 1));
            }
            pad += 1;
        }
        assert(self@ =~= old(self)@ + header_bytes(data));
    }

    fn set_ext(&mut self, offset: usize, data: u32) {
        if self.len() < offset + 4 {
            self.resize(offset + 4, 0);
        }
        let ghost grown = self@;
        assert(grown =~= if old(self)@.len() < offset + 4 {
            old(self)@ + zeros(offset + 4 - old(self)@.len())
        } else {
            old(self)@
        });
        let mut v = data;
        let mut k: usize = 0;
        while k < 4
            invariant
                k <= 4,
                offset + 4 <= usize::MAX,
                offset + 4 <= self@.len(),
                self@.len() == grown.len(),
                forall|i: int|
                    0 <= i < self@.len() ==> self@[i] == (if offset <= i < offset + k {
                        le_bytes(data as int, 4nat)[i - offset]
                    } else {
                        grown[i]
                    }),
                le_bytes(v as int, (4 - k) as nat) =~= le_bytes(data as int, 4).skip(k as int),
            decreases 4 - k,
        {
            proof {
                lemma_le_bytes_len(data as int, 4);
                lemma_le_bytes_len((v / 256) as int, (4 - k - 1) as nat);
                assert(le_bytes(data as int, 4).skip(k as int).skip(1) =~= le_bytes(
                    data as int,
                    4,
                ).skip(k + 1));
                assert(le_bytes(v as int, (4 - k) as nat).skip(1) =~= le_bytes(
                    (v / 256) as int,
                    (4 - k - 1) as nat,
                ));
                assert(le_bytes(v as int, (4 - k) as nat)[0] == (v % 256) as u8);
            }
            self[offset + k] = (v % 256) as u8;
            v = v / 256;
            k += 1;
        }
        proof {
            lemma_le_bytes_len(data as int, 4);
        }
        assert(self@ =~= with_u32_at(old(self)@, offset as int, data));
    }
}

impl Netlink {
    /// Makes a socket of the netlink family for a process.
    pub fn socket(protocol: u32) -> (r: Result<NetlinkSock, SystemError>)
        ensures
            protocol == KOBJECT_UEVENT ==> r is Ok && r->Ok_0@ == NetlinkSock::new_view(
                Some(protocol as usize),
            ),
            protocol != KOBJECT_UEVENT ==> r is Err && r->Err_0 == SystemError::EPROTONOSUPPORT,
    {
        create_netlink_socket(protocol as usize)
    }
}

/// Makes a netlink socket for a process. Only the protocol `KOBJECT_UEVENT`
/// is supported.
pub fn create_netlink_socket(protocol: usize) -> (r: Result<NetlinkSock, SystemError>)
    ensures
        protocol == KOBJECT_UEVENT ==> r is Ok && r->Ok_0@ == NetlinkSock::new_view(Some(protocol)),
        protocol != KOBJECT_UEVENT ==> r is Err && r->Err_0 == SystemError::EPROTONOSUPPORT,
{
    if protocol == KOBJECT_UEVENT {
        Ok(NetlinkSock::new(Some(protocol)))
    } else {
        Err(SystemError::EPROTONOSUPPORT)
    }
}

} // verus!
