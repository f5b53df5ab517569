//! Netlink sockets and the table of the sockets of each protocol.

use super::netlink_proto::netlink_protocol::KOBJECT_UEVENT;
use super::ports::no_port;
use super::ports::no_ports;
use super::ports::port_lookup;
use super::ports::port_map_contents;
use super::ports::port_set_contents;
use super::ports::PortMap;
use super::ports::PortSet;
use super::endpoint::AddressFamily;
use super::endpoint::Endpoint;
use super::endpoint::NetlinkEndpoint;
use super::endpoint::SockAddrNl;
use super::header_bytes;
use super::le_value;
use super::lemma_header_bytes_len;
use super::padded;
use super::read_le;
use super::skbuff::netlink_overrun;
use super::skbuff::SkBuff;
use super::with_u32_at;
use super::BindCallback;
use super::CompareCallback;
use super::NLmsghdr;
use super::NetlinkKernelCfg;
use super::NetlinkState;
use super::UnbindCallback;
use super::VecExt;
use super::MAX_LINKS;
use super::NETLINK_ADD_MEMBERSHIP;
use super::NETLINK_DROP_MEMBERSHIP;
use super::NETLINK_PKTINFO;
use super::NLMSG_DONE;
use super::NLMSG_HDRLEN;
use super::NLM_F_MULTI;
use super::PMSG_OOB;
use super::PSOL;
use crate::error::SystemError;
use crate::slab::bitfield::word_bit;
use std::sync::Arc;
use vstd::prelude::*;

verus! {

/// The flags of a netlink socket.
pub struct NetlinkFlags;

impl NetlinkFlags {
    pub const KERNEL_SOCKET: u32 = 0x1;

    pub const RECV_PKTINFO: u32 = 0x2;

    pub const BROADCAST_SEND_ERROR: u32 = 0x4;

    pub const RECV_NO_ENOBUFS: u32 = 0x8;

    pub const LISTEN_ALL_NSID: u32 = 0x10;

    pub const CAP_ACK: u32 = 0x20;

    pub const EXT_ACK: u32 = 0x40;

    pub const STRICT_CHK: u32 = 0x80;

    pub const NETLINK_F_KERNEL_SOCKET: u32 = 0x100;
}

/// The byte strings that the vectors of `v` hold.
pub open spec fn segments(v: Seq<Vec<u8>>) -> Seq<Seq<u8>> {
    Seq::new(v.len(), |i: int| v[i]@)
}

/// A copy of the bytes of `v`.
pub fn clone_bytes(v: &Vec<u8>) -> (r: Vec<u8>)
    ensures
        r@ == v@,
{
    let mut r: Vec<u8> = Vec::new();
    let mut i: usize = 0;
    while i < v.len()
        invariant
            i <= v@.len(),
            r@ == v@.subrange(0, i as int),
        decreases v@.len() - i,
    {
        r.push(v[i]);
        assert(r@ =~= v@.subrange(0, i + 1));
        i += 1;
    }
    assert(v@.subrange(0, v@.len() as int) =~= v@);
    r
}

/// A copy of the byte strings of `v`.
pub fn clone_segments(v: &Vec<Vec<u8>>) -> (r: Vec<Vec<u8>>)
    ensures
        segments(r@) == segments(v@),
{
    let mut r: Vec<Vec<u8>> = Vec::new();
    let mut i: usize = 0;
    while i < v.len()
        invariant
            i <= v@.len(),
            r@.len() == i,
            forall|j: int| 0 <= j < i ==> r@[j]@ == v@[j]@,
        decreases v@.len() - i,
    {
        r.push(clone_bytes(&v[i]));
        i += 1;
    }
    assert(segments(r@) =~= segments(v@));
    r
}

/// The part of a netlink socket that binding and subscribing change.
#[derive(Debug, Clone, Copy)]
pub struct NetlinkSockinner {
    /// The port that the socket is bound to.
    pub portid: u32,
    /// Number of multicast groups that the socket can join.
    pub ngroups: u32,
    /// The multicast groups of the socket.
    pub groups: [u32; 32],
    /// Whether the socket is bound to a port other than zero.
    pub bound: bool,
    pub protocol: usize,
    /// Number of groups that the socket has joined.
    pub subscriptions: u32,
    pub flags: u32,
}

/// What the record of a socket holds, as plain values.
pub struct NetlinkSockinnerView {
    pub portid: u32,
    pub ngroups: u32,
    pub groups: Seq<u32>,
    pub bound: bool,
    pub protocol: usize,
    pub subscriptions: u32,
    pub flags: u32,
}

impl View for NetlinkSockinner {
    type V = NetlinkSockinnerView;

    open spec fn view(&self) -> NetlinkSockinnerView {
        NetlinkSockinnerView {
            portid: self.portid,
            ngroups: self.ngroups,
            groups: self.groups@,
            bound: self.bound,
            protocol: self.protocol,
            subscriptions: self.subscriptions,
            flags: self.flags,
        }
    }
}

/// The groups of a socket that is in none.
pub open spec fn no_groups() -> Seq<u32> {
    Seq::new(32, |i: int| 0u32)
}

impl NetlinkSockinner {
    /// The record of a new socket of `protocol`: unbound, in no group,
    /// without flags.
    pub open spec fn new_view(protocol: usize) -> NetlinkSockinnerView {
        NetlinkSockinnerView {
            portid: 0,
            ngroups: 0,
            groups: no_groups(),
            bound: false,
            protocol: protocol,
            subscriptions: 0,
            flags: 0,
        }
    }

    /// The record of an unbound socket of `protocol`, in no group.
    pub fn new(protocol: usize) -> (r: NetlinkSockinner)
        ensures
            r@ == Self::new_view(protocol),
    {
        let r = NetlinkSockinner {
            portid: 0,
            ngroups: 0,
            groups: [0; 32],
            bound: false,
            protocol,
            subscriptions: 0,
            flags: 0,
        };
        assert(r.groups@ =~= no_groups());
        r
    }

    /// Whether two sockets have the same port.
    pub fn equals(&self, other: &NetlinkSockinner) -> (r: bool)
        ensures
            r == (self.portid == other.portid),
    {
        self.portid == other.portid
    }
}

/// What a netlink socket holds, as plain values.
pub struct NetlinkSockView {
    pub inner: NetlinkSockinnerView,
    pub state: NetlinkState,
    pub max_recvmsg_len: usize,
    pub dump_done_errno: i32,
    pub cb_running: bool,
    /// The messages that wait to be received, oldest first.
    pub data: Seq<Seq<u8>>,
    pub sk_sndtimeo: i64,
    pub sk_rcvtimeo: i64,
}

/// A netlink socket.
#[derive(Debug)]
pub struct NetlinkSock {
    pub inner: NetlinkSockinner,
    pub(crate) state: NetlinkState,
    pub(crate) max_recvmsg_len: usize,
    pub(crate) dump_done_errno: i32,
    pub(crate) cb_running: bool,
    /// The messages that wait to be received, oldest first.
    pub(crate) data: Vec<Vec<u8>>,
    pub(crate) sk_sndtimeo: i64,
    pub(crate) sk_rcvtimeo: i64,
}

impl View for NetlinkSock {
    type V = NetlinkSockView;

    closed spec fn view(&self) -> NetlinkSockView {
        NetlinkSockView {
            inner: self.inner@,
            state: self.state,
            max_recvmsg_len: self.max_recvmsg_len,
            dump_done_errno: self.dump_done_errno,
            cb_running: self.cb_running,
            data: segments(self.data@),
            sk_sndtimeo: self.sk_sndtimeo,
            sk_rcvtimeo: self.sk_rcvtimeo,
        }
    }
}

impl Clone for NetlinkSock {
    fn clone(&self) -> (r: NetlinkSock)
        ensures
            r@ == self@,
    {
        NetlinkSock {
            inner: self.inner,
            state: self.state,
            max_recvmsg_len: self.max_recvmsg_len,
            dump_done_errno: self.dump_done_errno,
            cb_running: self.cb_running,
            data: clone_segments(&self.data),
            sk_sndtimeo: self.sk_sndtimeo,
            sk_rcvtimeo: self.sk_rcvtimeo,
        }
    }
}

impl NetlinkSock {
    /// What a new socket of `protocol` holds; without a protocol it is one
    /// of protocol 0.
    pub open spec fn new_view(protocol: Option<usize>) -> NetlinkSockView {
        NetlinkSockView {
            inner: NetlinkSockinner::new_view(
                match protocol {
                    Some(p) => p,
                    None => 0,
                },
            ),
            state: NetlinkState::Unconnected,
            max_recvmsg_len: 0,
            dump_done_errno: 0,
            cb_running: false,
            data: Seq::empty(),
            sk_sndtimeo: 0,
            sk_rcvtimeo: 0,
        }
    }

    /// An unconnected, unbound socket of `protocol` with nothing to receive.
    pub fn new(protocol: Option<usize>) -> (sock: NetlinkSock)
        ensures
            sock@ == Self::new_view(protocol),
    {
        let protocol = match protocol {
            Some(p) => p,
            None => 0,
        };
        let sock = NetlinkSock {
            inner: NetlinkSockinner::new(protocol),
            state: NetlinkState::Unconnected,
            max_recvmsg_len: 0,
            dump_done_errno: 0,
            cb_running: false,
            data: Vec::new(),
            sk_sndtimeo: 0,
            sk_rcvtimeo: 0,
        };
        assert(segments(sock.data@) =~= Seq::<Seq<u8>>::empty());
        sock
    }

    /// The messages that wait to be received, oldest first.
    pub fn data(&self) -> (r: &Vec<Vec<u8>>)
        ensures
            segments(r@) == self@.data,
    {
        &self.data
    }

    /// The state of the socket.
    pub fn state(&self) -> (r: NetlinkState)
        ensures
            r == self@.state,
    {
        self.state
    }

    /// Memory taken by the messages that wait to be received. It is not
    /// accounted, so it reads as none.
    pub fn sk_rmem_alloc(&self) -> (r: usize)
        ensures
            r == 0,
    {
        0
    }

    /// Size of the receive buffer.
    pub fn sk_rcvbuf(&self) -> (r: usize)
        ensures
            r == self@.max_recvmsg_len,
    {
        self.max_recvmsg_len
    }
}

/// The listeners of the multicast groups of a protocol.
pub struct Listeners {
    /// One bit for each group, set when the group has a listener.
    pub(crate) masks: Vec<u64>,
}

impl View for Listeners {
    type V = Seq<u64>;

    closed spec fn view(&self) -> Seq<u64> {
        self.masks@
    }
}

impl Listeners {
    /// The masks of 32 words without any listener.
    pub open spec fn new_spec() -> Seq<u64> {
        Seq::new(32, |i: int| 0u64)
    }

    /// The masks, one bit for each group.
    pub fn masks(&self) -> (r: &Vec<u64>)
        ensures
            r@ == self@,
    {
        &self.masks
    }

    /// Listeners with 32 words of masks, none of which has a bit set.
    pub fn new() -> (l: Listeners)
        ensures
            l@ == Self::new_spec(),
    {
        let mut masks: Vec<u64> = Vec::new();
        masks.resize(32, 0);
        assert(masks@ =~= Self::new_spec());
        Listeners { masks }
    }
}

/// What the table holds for one protocol, as plain values.
pub struct NetlinkTableItemView {
    /// The handle of the socket bound to each port.
    pub ports: Map<u32, usize>,
    /// The masks of the listeners, if the protocol keeps any.
    pub listeners: Option<Seq<u64>>,
    pub registered: u32,
    pub flags: u32,
    pub groups: u32,
    /// The ports of the sockets that have joined a group.
    pub mc_set: Set<u32>,
    pub bind: Option<BindCallback>,
    pub unbind: Option<UnbindCallback>,
    pub compare: Option<CompareCallback>,
}

/// The sockets of one netlink protocol.
pub struct NetlinkTableItem {
    /// The handle of the socket bound to each port.
    pub hash: PortMap,
    pub(crate) listeners: Option<Listeners>,
    pub(crate) registered: u32,
    pub(crate) flags: u32,
    pub(crate) groups: u32,
    /// The ports of the sockets that have joined a group.
    pub(crate) mc_set: PortSet,
    pub bind: Option<BindCallback>,
    pub unbind: Option<UnbindCallback>,
    pub compare: Option<CompareCallback>,
}

impl View for NetlinkTableItem {
    type V = NetlinkTableItemView;

    closed spec fn view(&self) -> NetlinkTableItemView {
        NetlinkTableItemView {
            ports: port_map_contents(self.hash),
            listeners: match self.listeners {
                Some(l) => Some(l@),
                None => None,
            },
            registered: self.registered,
            flags: self.flags,
            groups: self.groups,
            mc_set: port_set_contents(self.mc_set),
            bind: self.bind,
            unbind: self.unbind,
            compare: self.compare,
        }
    }
}

impl NetlinkTableItem {
    /// What a new item holds: no socket, 32 words of listeners without a
    /// bit set, 32 groups, and nothing else.
    pub open spec fn new_view() -> NetlinkTableItemView {
        NetlinkTableItemView {
            ports: no_ports(),
            listeners: Some(Listeners::new_spec()),
            registered: 0,
            flags: 0,
            groups: 32,
            mc_set: no_port(),
            bind: None,
            unbind: None,
            compare: None,
        }
    }

    /// An item for a protocol that nothing is registered for.
    pub fn new() -> (item: NetlinkTableItem)
        ensures
            item@ == Self::new_view(),
    {
        NetlinkTableItem {
            hash: PortMap::new(),
            listeners: Some(Listeners::new()),
            registered: 0,
            flags: 0,
            groups: 32,
            mc_set: PortSet::new(),
            bind: None,
            unbind: None,
            compare: None,
        }
    }

    pub fn set_registered(&mut self, registered: u32)
        ensures
            final(self)@ == (NetlinkTableItemView { registered: registered, ..old(self)@ }),
    {
        self.registered = registered;
    }

    pub fn set_flags(&mut self, flags: u32)
        ensures
            final(self)@ == (NetlinkTableItemView { flags: flags, ..old(self)@ }),
    {
        self.flags = flags;
    }

    pub fn set_groups(&mut self, groups: u32)
        ensures
            final(self)@ == (NetlinkTableItemView { groups: groups, ..old(self)@ }),
    {
        self.groups = groups;
    }

    pub fn get_registered(&self) -> (r: u32)
        ensures
            r == self@.registered,
    {
        self.registered
    }

    pub fn get_flags(&self) -> (r: u32)
        ensures
            r == self@.flags,
    {
        self.flags
    }

    pub fn get_groups(&self) -> (r: u32)
        ensures
            r == self@.groups,
    {
        self.groups
    }

    /// The masks of the listeners, if the protocol keeps any.
    pub fn get_listeners(&self) -> (r: Option<&Listeners>)
        ensures
            match r {
                Some(l) => self@.listeners == Some(l@),
                None => self@.listeners is None,
            },
    {
        match &self.listeners {
            Some(l) => Some(l),
            None => None,
        }
    }
}

/// What the table holds, as plain values.
pub struct NetlinkTableView {
    /// One item for each protocol.
    pub items: Seq<NetlinkTableItemView>,
    /// The sockets, each at its handle.
    pub socks: Seq<NetlinkSockView>,
}

/// The netlink table: the sockets, and for each protocol the ports that
/// sockets are bound to.
///
/// A socket is known by its handle, which it gets from `add_sock` and keeps.
pub struct NetlinkTable {
    pub(crate) items: Vec<NetlinkTableItem>,
    pub(crate) socks: Vec<NetlinkSock>,
}

/// What the items of `items` hold.
pub open spec fn item_views(items: Seq<NetlinkTableItem>) -> Seq<NetlinkTableItemView> {
    Seq::new(items.len(), |i: int| items[i]@)
}

/// What the sockets of `socks` hold.
pub open spec fn sock_views(socks: Seq<NetlinkSock>) -> Seq<NetlinkSockView> {
    Seq::new(socks.len(), |i: int| socks[i]@)
}

impl View for NetlinkTable {
    type V = NetlinkTableView;

    closed spec fn view(&self) -> NetlinkTableView {
        NetlinkTableView { items: item_views(self.items@), socks: sock_views(self.socks@) }
    }
}

/// The table has an item for each protocol, and every port leads to a
/// socket.
pub open spec fn table_wf(t: NetlinkTableView) -> bool {
    &&& t.items.len() == MAX_LINKS
    &&& forall|i: int, port: u32|
        0 <= i < t.items.len() && #[trigger] t.items[i].ports.contains_key(port)
            ==> t.items[i].ports[port] < t.socks.len()
}

/// The table `t` with `item` in the place of the item of `protocol`.
pub open spec fn with_item(
    t: NetlinkTableView,
    protocol: int,
    item: NetlinkTableItemView,
) -> NetlinkTableView {
    NetlinkTableView { items: t.items.update(protocol, item), ..t }
}

/// The table `t` with `sock` in the place of the socket with handle `sk`.
pub open spec fn with_sock(t: NetlinkTableView, sk: int, sock: NetlinkSockView) -> NetlinkTableView {
    NetlinkTableView { socks: t.socks.update(sk, sock), ..t }
}

impl NetlinkTable {
    /// Whether the table is well formed.
    pub open spec fn wf(&self) -> bool {
        table_wf(self@)
    }

    /// Puts `sock` in the table, bound to no port, and returns its handle.
    pub fn add_sock(&mut self, sock: NetlinkSock) -> (sk: usize)
        ensures
            sk == old(self)@.socks.len(),
            final(self)@ == (NetlinkTableView {
                socks: old(self)@.socks.push(sock@),
                ..old(self)@
            }),
            old(self).wf() ==> final(self).wf(),
    {
        let sk = self.socks.len();
        self.socks.push(sock);
        assert(sock_views(self.socks@) =~= sock_views(old(self).socks@).push(sock@));
        sk
    }

    /// Number of sockets in the table.
    pub fn sock_count(&self) -> (n: usize)
        ensures
            n == self@.socks.len(),
    {
        self.socks.len()
    }

    /// The socket with handle `sk`.
    pub fn sock(&self, sk: usize) -> (sock: &NetlinkSock)
        requires
            sk < self@.socks.len(),
        ensures
            sock@ == self@.socks[sk as int],
    {
        &self.socks[sk]
    }

    /// The socket with handle `sk`, for writing.
    pub fn sock_mut(&mut self, sk: usize) -> (sock: &mut NetlinkSock)
        requires
            sk < old(self)@.socks.len(),
        ensures
            sock@ == old(self)@.socks[sk as int],
            final(self)@ == with_sock(old(self)@, sk as int, final(sock)@),
    {
        proof {
            assert forall|t: NetlinkSock|
                sock_views(self.socks@.update(sk as int, t)) == sock_views(self.socks@).update(
                    sk as int,
                    t@,
                ) by {
                assert(sock_views(self.socks@.update(sk as int, t)) =~= sock_views(
                    self.socks@,
                ).update(sk as int, t@));
            }
        }
        &mut self.socks[sk]
    }

    /// The item of `protocol`.
    pub fn item(&self, protocol: usize) -> (item: &NetlinkTableItem)
        requires
            protocol < self@.items.len(),
        ensures
            item@ == self@.items[protocol as int],
    {
        &self.items[protocol]
    }
}

/// The table before any socket is made: an item for each protocol, of which
/// only `KOBJECT_UEVENT` is registered.
pub fn initialize_netlink_table() -> (table: NetlinkTable)
    ensures
        table.wf(),
        table@.socks.len() == 0,
        forall|i: int|
            0 <= i < MAX_LINKS ==> #[trigger] table@.items[i] == (NetlinkTableItemView {
                registered: if i == KOBJECT_UEVENT {
                    1u32
                } else {
                    0u32
                },
                ..NetlinkTableItem::new_view()
            }),
{
    let mut tables: Vec<NetlinkTableItem> = Vec::new();
    let mut i: usize = 0;
    while i < MAX_LINKS
        invariant
            i <= MAX_LINKS,
            tables@.len() == i,
            forall|j: int| 0 <= j < i ==> (#[trigger] tables@[j])@ == NetlinkTableItem::new_view(),
        decreases MAX_LINKS - i,
    {
        tables.push(NetlinkTableItem::new());
        i += 1;
    }
    tables[KOBJECT_UEVENT].set_registered(1);
    let table = NetlinkTable { items: tables, socks: Vec::new() };
    assert forall|i: int| 0 <= i < MAX_LINKS implies #[trigger] table@.items[i] == (
    NetlinkTableItemView {
        registered: if i == KOBJECT_UEVENT {
            1u32
        } else {
            0u32
        },
        ..NetlinkTableItem::new_view()
    }) by {
        assert(table@.items[i] == table.items@[i]@);
    }
    table
}

/// Empties the port map of every protocol.
pub fn netlink_proto_init(nl_table: &mut NetlinkTable) -> (r: Result<(), SystemError>)
    requires
        old(nl_table).wf(),
    ensures
        r is Ok,
        final(nl_table).wf(),
        final(nl_table)@.socks == old(nl_table)@.socks,
        forall|i: int|
            0 <= i < MAX_LINKS ==> #[trigger] final(nl_table)@.items[i] == (NetlinkTableItemView {
                ports: no_ports(),
                ..old(nl_table)@.items[i]
            }),
{
    let mut i: usize = 0;
    while i < MAX_LINKS
        invariant
            i <= MAX_LINKS,
            nl_table.items@.len() == MAX_LINKS,
            nl_table.socks == old(nl_table).socks,
            forall|j: int|
                0 <= j < i ==> (#[trigger] nl_table.items@[j])@ == (NetlinkTableItemView {
                    ports: no_ports(),
                    ..old(nl_table).items@[j]@
                }),
            forall|j: int| i <= j < MAX_LINKS ==> nl_table.items@[j] == old(nl_table).items@[j],
        decreases MAX_LINKS - i,
    {
        nl_table.items[i].hash = PortMap::new();
        i += 1;
    }
    assert forall|i: int| 0 <= i < MAX_LINKS implies #[trigger] nl_table@.items[i] == (
    NetlinkTableItemView { ports: no_ports(), ..old(nl_table)@.items[i] }) by {
        assert(nl_table@.items[i] == nl_table.items@[i]@);
        assert(old(nl_table)@.items[i] == old(nl_table).items@[i]@);
    }
    Ok(())
}

/// The table after the socket `nlk` is bound to `portid` in its protocol:
/// the port leads to the socket, and the socket records the port and
/// whether it is other than zero.
pub open spec fn after_insert(t: NetlinkTableView, nlk: int, portid: u32) -> NetlinkTableView {
    let sock = t.socks[nlk];
    let protocol = sock.inner.protocol as int;
    let item = t.items[protocol];
    NetlinkTableView {
        items: t.items.update(
            protocol,
            NetlinkTableItemView { ports: item.ports.insert(portid, nlk as usize), ..item },
        ),
        socks: t.socks.update(
            nlk,
            NetlinkSockView {
                inner: NetlinkSockinnerView { portid: portid, bound: portid != 0, ..sock.inner },
                ..sock
            },
        ),
    }
}

/// Whether the socket `nlk` cannot be bound to `portid`: it is bound
/// already, or another socket of its protocol has the port.
pub open spec fn port_in_use(t: NetlinkTableView, nlk: int, portid: u32) -> bool {
    let sock = t.socks[nlk];
    sock.inner.bound || t.items[sock.inner.protocol as int].ports.contains_key(portid)
}

/// Binds the socket `nlk` to `portid` in the table of its protocol.
pub fn netlink_insert(nl_table: &mut NetlinkTable, nlk: usize, portid: u32) -> (r: Result<
    (),
    SystemError,
>)
    requires
        old(nl_table).wf(),
        nlk < old(nl_table)@.socks.len(),
        old(nl_table)@.socks[nlk as int].inner.protocol < MAX_LINKS,
    ensures
        final(nl_table).wf(),
        port_in_use(old(nl_table)@, nlk as int, portid) ==> r == Err::<(), SystemError>(
            SystemError::EADDRINUSE,
        ) && final(nl_table)@ == old(nl_table)@,
        !port_in_use(old(nl_table)@, nlk as int, portid) ==> r is Ok && final(nl_table)@
            == after_insert(old(nl_table)@, nlk as int, portid),
{
    let index = nl_table.socks[nlk].inner.protocol;
    proof {
        assert(nl_table@.socks[nlk as int] == nl_table.socks@[nlk as int]@);
        assert(nl_table@.items[index as int] == nl_table.items@[index as int]@);
    }
    if nl_table.socks[nlk].inner.bound || nl_table.items[index].hash.contains_key(portid) {
        return Err(SystemError::EADDRINUSE);
    }
    nl_table.socks[nlk].inner.portid = portid;
    nl_table.socks[nlk].inner.bound = portid != 0;
    nl_table.items[index].hash.insert(portid, nlk);
    proof {
        let t = old(nl_table)@;
        let want = after_insert(t, nlk as int, portid);
        assert(nl_table@.socks =~= want.socks);
        assert(nl_table@.items =~= want.items);
        assert forall|i: int, port: u32|
            0 <= i < nl_table@.items.len() && #[trigger] nl_table@.items[i].ports.contains_key(
                port,
            ) implies nl_table@.items[i].ports[port] < nl_table@.socks.len() by {
            if i != index || port != portid {
                assert(t.items[i].ports.contains_key(port));
            }
        }
    }
    Ok(())
}

/// The handle of the socket bound to `portid` in `protocol`, if there is
/// one.
pub fn netlink_lookup(nl_table: &NetlinkTable, protocol: usize, portid: u32) -> (r: Option<usize>)
    requires
        nl_table.wf(),
        protocol < MAX_LINKS,
    ensures
        r == port_lookup(nl_table@.items[protocol as int].ports, portid),
        r matches Some(sk) ==> sk < nl_table@.socks.len(),
{
    proof {
        assert(nl_table@.items[protocol as int] == nl_table.items@[protocol as int]@);
    }
    nl_table.items[protocol].hash.get(portid)
}

/// The port that `netlink_autobind` settles on when it starts from
/// `portid`: 1 if `portid` is free, and 2 if it is taken.
pub open spec fn autobind_port(ports: Map<u32, usize>, portid: u32) -> u32 {
    if ports.contains_key(portid) {
        2
    } else {
        1
    }
}

/// Picks a port for the socket `nlk`, starting from `*portid`, binds the
/// socket to it and leaves it in `*portid`.
///
/// The search looks at `*portid` and, if that is taken, at port 1. It cannot
/// go on when port 1 is taken as well, and the port it settles on must be
/// free, which is what the conditions ask.
pub fn netlink_autobind(nl_table: &mut NetlinkTable, nlk: usize, portid: &mut u32)
    requires
        old(nl_table).wf(),
        nlk < old(nl_table)@.socks.len(),
        old(nl_table)@.socks[nlk as int].inner.protocol < MAX_LINKS,
        !old(nl_table)@.socks[nlk as int].inner.bound,
        ({
            let ports = old(nl_table)@.items[old(nl_table)@.socks[nlk as int].inner.protocol as int].ports;
            !ports.contains_key(1) && (ports.contains_key(*old(portid)) ==> !ports.contains_key(2))
        }),
    ensures
        final(nl_table).wf(),
        *final(portid) == autobind_port(
            old(nl_table)@.items[old(nl_table)@.socks[nlk as int].inner.protocol as int].ports,
            *old(portid),
        ),
        final(nl_table)@ == after_insert(old(nl_table)@, nlk as int, *final(portid)),
{
    let ghost ports = nl_table@.items[nl_table@.socks[nlk as int].inner.protocol as int].ports;
    let ghost start = *portid;
    let mut rover: u32 = 0;
    let ghost mut steps: int = 0;
    loop
        invariant_except_break
            (steps == 0 && rover == 0 && *portid == start) || (steps == 1 && rover == 1 && *portid
                == 1 && ports.contains_key(start)),
        invariant
            nl_table.wf(),
            nl_table@ == old(nl_table)@,
            nlk < nl_table@.socks.len(),
            nl_table@.socks[nlk as int].inner.protocol < MAX_LINKS,
            ports == nl_table@.items[nl_table@.socks[nlk as int].inner.protocol as int].ports,
            !ports.contains_key(1),
            ports.contains_key(start) ==> !ports.contains_key(2),
            start == *old(portid),
        ensures
            *portid == autobind_port(ports, start),
            nl_table@ == old(nl_table)@,
            nl_table.wf(),
        decreases 2 - steps,
    {
        let protocol = nl_table.sock(nlk).inner.protocol;
        let ret = netlink_lookup(nl_table, protocol, *portid);
        if ret.is_some() {
            if rover == 0 {
                rover = 1;
            } else {
                rover -= 1;
            }
            *portid = rover;
            proof {
                steps = steps + 1;
            }
        } else {
            rover += 1;
            *portid = rover;
            break ;
        }
    }
    let bound = netlink_insert(nl_table, nlk, *portid);
    assert(bound is Ok);
}

/// The bytes of the segments of `segs`, one after the other.
pub open spec fn flatten(segs: Seq<Seq<u8>>) -> Seq<u8>
    decreases segs.len(),
{
    if segs.len() == 0 {
        Seq::empty()
    } else {
        flatten(segs.drop_last()) + segs.last()
    }
}

/// The message that `netlink_send` queues for the bytes `data` that a
/// process sends: a header of type, sequence number and port as in the
/// header that `data` starts with and with the flag `NLM_F_MULTI`, then
/// `data`, then padding; its first four bytes hold its length.
pub open spec fn framed(data: Seq<u8>) -> Seq<u8> {
    let header = NLmsghdr {
        nlmsg_len: 0,
        nlmsg_type: data[18],
        nlmsg_flags: NLM_F_MULTI,
        nlmsg_seq: le_value(data.skip(8), 4) as u32,
        nlmsg_pid: le_value(data.skip(12), 4) as u32,
    };
    let msg = padded(header_bytes(header) + data);
    with_u32_at(msg, 0, msg.len() as u32)
}

/// The message that `netlink_sendskb` queues for a buffer with the segments
/// `segs`: a header of type `NLMSG_DONE` with the flag `NLM_F_MULTI`, sent by
/// the kernel, then the bytes of the segments, then padding; the header and
/// the first four bytes hold the length of the message.
pub open spec fn skb_message(segs: Seq<Seq<u8>>) -> Seq<u8> {
    let body = padded(flatten(segs));
    let total = (body.len() + NLMSG_HDRLEN) as usize;
    let header = NLmsghdr {
        nlmsg_len: total,
        nlmsg_type: NLMSG_DONE,
        nlmsg_flags: NLM_F_MULTI,
        nlmsg_seq: 0,
        nlmsg_pid: 0,
    };
    with_u32_at(header_bytes(header) + body, 0, total as u32)
}

/// What `netlink_send` returns for the bytes `data`, and the socket that it
/// leaves: bytes too few for a header are invalid, a header that claims
/// more bytes than there are is refused, and anything else is queued as a
/// message.
pub open spec fn send_spec(sock: NetlinkSockView, data: Seq<u8>) -> (
    Result<usize, SystemError>,
    NetlinkSockView,
) {
    if data.len() < NLMSG_HDRLEN {
        (Err(SystemError::EINVAL), sock)
    } else if le_value(data, 8) > data.len() {
        (Err(SystemError::ENAVAIL), sock)
    } else {
        (Ok(data.len() as usize), NetlinkSockView { data: sock.data.push(framed(data)), ..sock })
    }
}

/// The endpoint of the netlink socket bound to `portid`.
pub open spec fn netlink_endpoint(portid: u32) -> Endpoint {
    Endpoint::Netlink(
        NetlinkEndpoint {
            addr: SockAddrNl {
                nl_family: AddressFamily::Netlink,
                nl_pad: 0,
                nl_pid: portid,
                nl_groups: 0,
            },
        },
    )
}

/// What `netlink_recv` returns, the socket that it leaves, and the bytes of
/// the caller's buffer `msg` after it.
///
/// Without a message there is nothing to receive. Otherwise the oldest
/// message leaves the queue; unless out-of-band data is asked for, which is
/// not supported, as much of it as fits is copied to the start of `msg`.
pub open spec fn recv_spec(sock: NetlinkSockView, msg: Seq<u8>, flags: u32) -> (
    Result<(usize, Endpoint), SystemError>,
    NetlinkSockView,
    Seq<u8>,
) {
    if sock.data.len() == 0 {
        (Err(SystemError::ENOBUFS), sock, msg)
    } else {
        let rest = NetlinkSockView { data: sock.data.drop_first(), ..sock };
        let first = sock.data[0];
        let copied = if first.len() <= msg.len() {
            first.len()
        } else {
            msg.len()
        };
        if flags == PMSG_OOB {
            (Err(SystemError::EOPNOTSUPP_OR_ENOTSUP), rest, msg)
        } else {
            (
                Ok((copied as usize, netlink_endpoint(sock.inner.portid))),
                rest,
                first.subrange(0, copied as int) + msg.skip(copied as int),
            )
        }
    }
}

/// A message that is sent to a socket with nothing to receive is the next
/// that the socket receives, whole if the buffer has room for it.
pub proof fn lemma_send_then_recv(sock: NetlinkSockView, data: Seq<u8>, msg: Seq<u8>, flags: u32)
    requires
        sock.data.len() == 0,
        send_spec(sock, data).0 is Ok,
        flags != PMSG_OOB,
        framed(data).len() <= msg.len() <= usize::MAX,
    ensures
        recv_spec(send_spec(sock, data).1, msg, flags).0 == Ok::<(usize, Endpoint), SystemError>(
            (framed(data).len() as usize, netlink_endpoint(sock.inner.portid)),
        ),
        recv_spec(send_spec(sock, data).1, msg, flags).1 == sock,
        recv_spec(send_spec(sock, data).1, msg, flags).2.subrange(0, framed(data).len() as int)
            == framed(data),
{
    let sent = send_spec(sock, data).1;
    assert(sent.data.drop_first() =~= sock.data);
    let got = recv_spec(sent, msg, flags).2;
    assert(got.subrange(0, framed(data).len() as int) =~= framed(data));
}

/// The masks of `n` words after the first `k` groups of `groups` have been
/// entered: group `g` sets bit `g % 64` of word `g / 64`.
pub open spec fn listener_masks(groups: Seq<u32>, n: nat, k: nat) -> Seq<u64>
    decreases k,
{
    if k == 0 {
        Seq::new(n, |i: int| 0u64)
    } else {
        let before = listener_masks(groups, n, (k - 1) as nat);
        let g = groups[k - 1];
        before.update(g as int / 64, before[g as int / 64] | (1u64 << ((g % 64) as u64)))
    }
}

/// The listeners of a group, as `netlink_has_listeners` reports them: the
/// word of the masks at the place of the group, cut to 32 bits; 0 where the
/// protocol or the group has no such word.
pub open spec fn has_listeners_spec(t: NetlinkTableView, protocol: usize, group: u32) -> i32 {
    if protocol >= t.items.len() {
        0
    } else {
        match t.items[protocol as int].listeners {
            Some(masks) => if group > 0 && group - 1 < masks.len() {
                masks[group - 1] as i32
            } else {
                0
            },
            None => 0,
        }
    }
}

impl NetlinkTable {
    pub(crate) proof fn lemma_views(&self)
        ensures
            self@.items.len() == self.items@.len(),
            self@.socks.len() == self.socks@.len(),
            forall|i: int| 0 <= i < self.items@.len() ==> #[trigger] self@.items[i] == self.items@[i]@,
            forall|i: int| 0 <= i < self.socks@.len() ==> #[trigger] self@.socks[i] == self.socks@[i]@,
    {
    }
}

impl NetlinkSock {
    /// Connects the socket. There is nothing to do.
    pub fn netlink_connect(&self, endpoint: Endpoint) -> (r: Result<(), SystemError>)
        ensures
            r is Ok,
    {
        Ok(())
    }

    /// Queues the bytes `data`, which a process sends and which start with
    /// a message header, as a message of this socket.
    pub fn netlink_send(&mut self, data: &[u8], address: Endpoint) -> (r: Result<
        usize,
        SystemError,
    >)
        requires
            data@.len() + NLMSG_HDRLEN + super::NLMSG_ALIGNTO <= usize::MAX,
        ensures
            r == send_spec(old(self)@, data@).0,
            final(self)@ == send_spec(old(self)@, data@).1,
    {
        if data.len() < NLMSG_HDRLEN {
            return Err(SystemError::EINVAL);
        }
        let nlmsg_len = read_le(data, 0, 8);
        assert(data@.skip(0) =~= data@);
        if nlmsg_len > data.len() as u64 {
            return Err(SystemError::ENAVAIL);
        }
        let message_type = data[18];
        let seq = read_le(data, 8, 4);
        let pid = read_le(data, 12, 4);
        proof {
            reveal_with_fuel(super::pow256, 5);
        }
        let new_header = NLmsghdr {
            nlmsg_len: 0,
            nlmsg_type: message_type,
            nlmsg_flags: NLM_F_MULTI,
            nlmsg_seq: seq as u32,
            nlmsg_pid: pid as u32,
        };
        let mut msg: Vec<u8> = Vec::new();
        msg.push_ext(new_header);
        msg.extend_from_slice(data);
        proof {
            lemma_header_bytes_len(new_header);
            assert(msg@ =~= header_bytes(new_header) + data@);
        }
        msg.align();
        let len = msg.len();
        msg.set_ext(0, len as u32);
        let ghost queued = segments(self.data@);
        self.data.push(msg);
        assert(segments(self.data@) =~= queued.push(framed(data@)));
        Ok(data.len())
    }

    /// Takes the oldest message of the socket and copies as much of it as
    /// fits into `msg`.
    ///
    /// The message leaves the queue even when `flags` asks for out-of-band
    /// data, which is not supported.
    pub fn netlink_recv(&mut self, msg: &mut [u8], flags: u32) -> (r: Result<
        (usize, Endpoint),
        SystemError,
    >)
        ensures
            r == recv_spec(old(self)@, old(msg)@, flags).0,
            final(self)@ == recv_spec(old(self)@, old(msg)@, flags).1,
            final(msg)@ == recv_spec(old(self)@, old(msg)@, flags).2,
    {
        if self.data.len() == 0 {
            return Err(SystemError::ENOBUFS);
        }
        let ghost queued = segments(self.data@);
        let msg_kernel = self.data.remove(0);
        assert(segments(self.data@) =~= queued.drop_first());
        assert(msg_kernel@ == queued[0]);
        if flags == PMSG_OOB {
            return Err(SystemError::EOPNOTSUPP_OR_ENOTSUP);
        }
        let actual_len = if msg_kernel.len() <= msg.len() {
            msg_kernel.len()
        } else {
            msg.len()
        };
        let mut i: usize = 0;
        while i < actual_len
            invariant
                i <= actual_len,
                actual_len <= msg_kernel@.len(),
                actual_len <= msg@.len(),
                msg@.len() == old(msg)@.len(),
                forall|j: int| 0 <= j < i ==> msg@[j] == msg_kernel@[j],
                forall|j: int| i <= j < msg@.len() ==> msg@[j] == old(msg)@[j],
            decreases actual_len - i,
        {
            msg[i] = msg_kernel[i];
            i += 1;
        }
        assert(msg@ =~= msg_kernel@.subrange(0, actual_len as int) + old(msg)@.skip(
            actual_len as int,
        ));
        let endpoint = Endpoint::Netlink(
            NetlinkEndpoint {
                addr: SockAddrNl {
                    nl_family: AddressFamily::Netlink,
                    nl_pad: 0,
                    nl_pid: self.inner.portid,
                    nl_groups: 0,
                },
            },
        );
        Ok((actual_len, endpoint))
    }

    /// Whether the group `group` of this socket's protocol has listeners.
    pub fn netlink_has_listeners(&self, nl_table: &NetlinkTable, group: u32) -> (res: i32)
        ensures
            res == has_listeners_spec(nl_table@, self@.inner.protocol, group),
    {
        let mut res: i32 = 0;
        let protocol = self.inner.protocol;
        proof {
            nl_table.lemma_views();
        }
        if protocol >= nl_table.items.len() {
            return res;
        }
        let netlink_table_item = &nl_table.items[protocol];
        if let Some(listeners) = &netlink_table_item.listeners {
            if group > 0 && ((group - 1) as usize) < listeners.masks.len() {
                res = listeners.masks[(group - 1) as usize] as i32;
            }
        }
        res
    }

    /// Queues the message of the buffer `skb` for this socket, and returns
    /// the length of the message cut to 32 bits.
    pub fn netlink_sendskb(&mut self, skb: &SkBuff) -> (r: u32)
        requires
            flatten(segments(skb.inner@)).len() + NLMSG_HDRLEN + super::NLMSG_ALIGNTO <= usize::MAX,
        ensures
            final(self)@ == (NetlinkSockView {
                data: old(self)@.data.push(skb_message(segments(skb.inner@))),
                ..old(self)@
            }),
            r == skb_message(segments(skb.inner@)).len() as u32,
    {
        let ghost segs = segments(skb.inner@);
        let mut combined_message: Vec<u8> = Vec::new();
        let mut i: usize = 0;
        while i < skb.inner.len()
            invariant
                i <= skb.inner@.len(),
                segs == segments(skb.inner@),
                combined_message@ == flatten(segs.subrange(0, i as int)),
            decreases skb.inner@.len() - i,
        {
            proof {
                assert(segs.subrange(0, i + 1).drop_last() =~= segs.subrange(0, i as int));
                assert(segs.subrange(0, i + 1).last() == skb.inner@[i as int]@);
            }
            combined_message.extend_from_slice(skb.inner[i].as_slice());
            i += 1;
        }
        assert(segs.subrange(0, segs.len() as int) =~= segs);
        combined_message.align();
        let total = combined_message.len() + NLMSG_HDRLEN;
        let new_header = NLmsghdr {
            nlmsg_len: total,
            nlmsg_type: NLMSG_DONE,
            nlmsg_flags: NLM_F_MULTI,
            nlmsg_seq: 0,
            nlmsg_pid: 0,
        };
        let mut final_msg: Vec<u8> = Vec::new();
        final_msg.push_ext(new_header);
        proof {
            lemma_header_bytes_len(new_header);
            assert(final_msg@ =~= header_bytes(new_header));
        }
        final_msg.align();
        final_msg.extend_from_slice(combined_message.as_slice());
        let len = final_msg.len();
        final_msg.set_ext(0, len as u32);
        assert(final_msg@ == skb_message(segs));
        let ghost queued = segments(self.data@);
        self.data.push(final_msg);
        assert(segments(self.data@) =~= queued.push(skb_message(segs)));
        len as u32
    }
}

/// Number of set bits among the lowest `n` bits of `w`.
pub open spec fn ones_below(w: u64, n: nat) -> nat
    decreases n,
{
    if n == 0 {
        0
    } else {
        ones_below(w, (n - 1) as nat) + if word_bit(w, (n - 1) as u64) {
            1nat
        } else {
            0nat
        }
    }
}

/// Number of set bits of a mask of groups.
pub open spec fn group_count(mask: u32) -> nat {
    ones_below(mask as u64, 32)
}

/// `u32::count_ones` returns how many of the 32 bits of its argument are
/// one.
pub assume_specification[ u32::count_ones ](w: u32) -> (r: u32)
    ensures
        r == group_count(w),
        r <= 32,
;

/// The table `t` in which the socket `sk` has the record `inner`.
pub open spec fn set_inner(
    t: NetlinkTableView,
    sk: int,
    inner: NetlinkSockinnerView,
) -> NetlinkTableView {
    with_sock(t, sk, NetlinkSockView { inner: inner, ..t.socks[sk] })
}

/// Whether the groups of the socket `sk` need no more room: the protocol is
/// not registered, or the socket has room for all the groups of the
/// protocol.
pub open spec fn groups_settled(t: NetlinkTableView, sk: int) -> bool {
    let inner = t.socks[sk].inner;
    let item = t.items[inner.protocol as int];
    item.registered == 0 || inner.ngroups >= item.groups
}

/// The table after `netlink_realloc_groups` on the socket `sk`: the socket
/// has room for the groups of its protocol, and is in no group if it had
/// room for none.
pub open spec fn after_realloc(t: NetlinkTableView, sk: int) -> NetlinkTableView {
    let inner = t.socks[sk].inner;
    let item = t.items[inner.protocol as int];
    if groups_settled(t, sk) {
        t
    } else {
        set_inner(
            t,
            sk,
            NetlinkSockinnerView {
                ngroups: item.groups,
                groups: if inner.ngroups > 0 {
                    inner.groups
                } else {
                    no_groups()
                },
                ..inner
            },
        )
    }
}

/// The table after the socket `sk` records `subscriptions` groups: its port
/// leaves the multicast set of its protocol when it leaves its last group,
/// and enters it when it joins its first.
pub open spec fn after_subscriptions(
    t: NetlinkTableView,
    sk: int,
    subscriptions: u32,
) -> NetlinkTableView {
    let inner = t.socks[sk].inner;
    let item = t.items[inner.protocol as int];
    let mc_set = if inner.subscriptions != 0 && subscriptions == 0 {
        item.mc_set.remove(inner.portid)
    } else if inner.subscriptions == 0 && subscriptions != 0 {
        item.mc_set.insert(inner.portid)
    } else {
        item.mc_set
    };
    set_inner(
        with_item(t, inner.protocol as int, NetlinkTableItemView { mc_set: mc_set, ..item }),
        sk,
        NetlinkSockinnerView { subscriptions: subscriptions, ..inner },
    )
}

/// Whether the masks of the listeners can take the groups of the socket
/// `sk`: the protocol keeps listeners, and every group has its word among
/// as many words as the socket has room for groups.
pub open spec fn listeners_fit(t: NetlinkTableView, sk: int) -> bool {
    let inner = t.socks[sk].inner;
    &&& t.items[inner.protocol as int].listeners is Some
    &&& inner.groups.len() == 32
    &&& forall|i: int| 0 <= i < 32 ==> (#[trigger] inner.groups[i]) / 64 < inner.ngroups
}

/// The table after `netlink_update_listeners` on the socket `sk`: the masks
/// of its protocol hold the groups of the socket and nothing else.
pub open spec fn after_update_listeners(t: NetlinkTableView, sk: int) -> NetlinkTableView {
    let inner = t.socks[sk].inner;
    let item = t.items[inner.protocol as int];
    with_item(
        t,
        inner.protocol as int,
        NetlinkTableItemView {
            listeners: Some(listener_masks(inner.groups, inner.ngroups as nat, 32)),
            ..item
        },
    )
}

/// What a membership option asks of the masks `masks`: to set the bit of
/// group `val - 1` when it joins, and to clear it when it leaves.
pub open spec fn membership_masks(masks: Seq<u64>, optname: usize, val: u64) -> Seq<u64> {
    let group = (val - 1) as u64;
    let idx = (group / 64) as int;
    let mask = 1u64 << ((group % 64) as u64);
    if optname == NETLINK_ADD_MEMBERSHIP {
        masks.update(idx, masks[idx] | mask)
    } else {
        masks.update(idx, masks[idx] & !mask)
    }
}

/// What `netlink_setsockopt` returns, and the table that it leaves: only
/// options of the netlink level with a value of eight bytes or more are
/// taken, and of them only the two membership options, which change the
/// masks of the listeners.
pub open spec fn sockopt_spec(
    t: NetlinkTableView,
    sk: int,
    level: PSOL,
    optname: usize,
    optval: Seq<u8>,
) -> (Result<(), SystemError>, NetlinkTableView) {
    if level != PSOL::NETLINK {
        (Err(SystemError::ENOPROTOOPT), t)
    } else if optval.len() < 8 {
        (Err(SystemError::EINVAL), t)
    } else if optname == NETLINK_ADD_MEMBERSHIP || optname == NETLINK_DROP_MEMBERSHIP {
        let protocol = t.socks[sk].inner.protocol as int;
        let item = t.items[protocol];
        (
            Ok(()),
            with_item(
                t,
                protocol,
                NetlinkTableItemView {
                    listeners: Some(
                        membership_masks(item.listeners->0, optname, le_value(optval, 8) as u64),
                    ),
                    ..item
                },
            ),
        )
    } else {
        (Err(SystemError::ENOPROTOOPT), t)
    }
}

/// Whether `netlink_setsockopt` can carry out the option: it is not
/// `NETLINK_PKTINFO`, and a membership option names a group, by a number
/// from 1 on, whose bit the masks of the protocol have.
pub open spec fn sockopt_defined(
    t: NetlinkTableView,
    sk: int,
    level: PSOL,
    optname: usize,
    optval: Seq<u8>,
) -> bool {
    level == PSOL::NETLINK && optval.len() >= 8 ==> {
        let val = le_value(optval, 8);
        let item = t.items[t.socks[sk].inner.protocol as int];
        &&& optname != NETLINK_PKTINFO
        &&& optname == NETLINK_ADD_MEMBERSHIP || optname == NETLINK_DROP_MEMBERSHIP ==> {
            &&& item.listeners is Some
            &&& val >= 1
            &&& (val - 1) / 64 < item.listeners->0.len()
        }
    }
}

impl NetlinkSock {
    /// Rebuilds the masks of the listeners of the protocol of the socket
    /// `sk` from the groups of the socket.
    pub fn netlink_update_listeners(nl_table: &mut NetlinkTable, sk: usize)
        requires
            old(nl_table).wf(),
            sk < old(nl_table)@.socks.len(),
            old(nl_table)@.socks[sk as int].inner.protocol < MAX_LINKS,
            listeners_fit(old(nl_table)@, sk as int),
        ensures
            final(nl_table).wf(),
            final(nl_table)@ == after_update_listeners(old(nl_table)@, sk as int),
    {
        proof {
            nl_table.lemma_views();
        }
        let protocol = nl_table.socks[sk].inner.protocol;
        let ngroups = nl_table.socks[sk].inner.ngroups;
        let groups = nl_table.socks[sk].inner.groups;
        let mut masks: Vec<u64> = Vec::new();
        masks.resize(ngroups as usize, 0);
        assert(masks@ =~= listener_masks(groups@, ngroups as nat, 0));
        let mut i: usize = 0;
        while i < 32
            invariant
                i <= 32,
                masks@ == listener_masks(groups@, ngroups as nat, i as nat),
                masks@.len() == ngroups,
                forall|j: int| 0 <= j < 32 ==> (#[trigger] groups@[j]) / 64 < ngroups,
            decreases 32 - i,
        {
            let group = groups[i];
            let mask = 1u64 << (group % 64);
            let idx = (group / 64) as usize;
            masks[idx] = masks[idx] | mask;
            i += 1;
        }
        nl_table.items[protocol].listeners = Some(Listeners { masks });
        proof {
            nl_table.lemma_views();
            old(nl_table).lemma_views();
            let want = after_update_listeners(old(nl_table)@, sk as int);
            assert(nl_table@.items =~= want.items);
            assert(nl_table@.socks =~= want.socks);
        }
    }

    /// Gives the socket `sk` room for the groups of its protocol.
    pub fn netlink_realloc_groups(nl_table: &mut NetlinkTable, sk: usize) -> (r: Result<
        (),
        SystemError,
    >)
        requires
            old(nl_table).wf(),
            sk < old(nl_table)@.socks.len(),
            old(nl_table)@.socks[sk as int].inner.protocol < MAX_LINKS,
        ensures
            final(nl_table).wf(),
            final(nl_table)@ == after_realloc(old(nl_table)@, sk as int),
            r is Err <==> old(nl_table)@.items[old(nl_table)@.socks[sk as int].inner.protocol as int].registered
                == 0,
            r is Err ==> r->Err_0 == SystemError::ENOENT,
    {
        proof {
            nl_table.lemma_views();
        }
        let protocol = nl_table.socks[sk].inner.protocol;
        let groups = nl_table.items[protocol].groups;
        if nl_table.items[protocol].registered == 0 {
            return Err(SystemError::ENOENT);
        }
        if nl_table.socks[sk].inner.ngroups >= groups {
            return Ok(());
        }
        let mut new_groups: [u32; 32] = [0; 32];
        if nl_table.socks[sk].inner.ngroups > 0 {
            new_groups = nl_table.socks[sk].inner.groups;
        }
        nl_table.socks[sk].inner.groups = new_groups;
        nl_table.socks[sk].inner.ngroups = groups;
        proof {
            nl_table.lemma_views();
            let want = after_realloc(old(nl_table)@, sk as int);
            if old(nl_table)@.socks[sk as int].inner.ngroups == 0 {
                assert(new_groups@ =~= no_groups());
            }
            assert(nl_table@.socks =~= want.socks);
            assert(nl_table@.items =~= want.items);
        }
        Ok(())
    }

    /// Records that the socket `sk` has joined `subscriptions` groups.
    pub fn netlink_update_subscriptions(nl_table: &mut NetlinkTable, sk: usize, subscriptions: u32)
        requires
            old(nl_table).wf(),
            sk < old(nl_table)@.socks.len(),
            old(nl_table)@.socks[sk as int].inner.protocol < MAX_LINKS,
        ensures
            final(nl_table).wf(),
            final(nl_table)@ == after_subscriptions(old(nl_table)@, sk as int, subscriptions),
    {
        proof {
            nl_table.lemma_views();
        }
        let protocol = nl_table.socks[sk].inner.protocol;
        let portid = nl_table.socks[sk].inner.portid;
        let current = nl_table.socks[sk].inner.subscriptions;
        if current != 0 && subscriptions == 0 {
            nl_table.items[protocol].mc_set.remove(portid);
        } else if current == 0 && subscriptions != 0 {
            nl_table.items[protocol].mc_set.insert(portid);
        }
        nl_table.socks[sk].inner.subscriptions = subscriptions;
        proof {
            nl_table.lemma_views();
            let want = after_subscriptions(old(nl_table)@, sk as int, subscriptions);
            assert(nl_table@.socks =~= want.socks);
            assert(nl_table@.items =~= want.items);
        }
    }

    /// Sets an option of the socket `sk`: joins or leaves the multicast
    /// group that the first eight bytes of `optval` number, lowest byte
    /// first.
    pub fn netlink_setsockopt(
        nl_table: &mut NetlinkTable,
        sk: usize,
        level: PSOL,
        optname: usize,
        optval: &[u8],
    ) -> (r: Result<(), SystemError>)
        requires
            old(nl_table).wf(),
            sk < old(nl_table)@.socks.len(),
            old(nl_table)@.socks[sk as int].inner.protocol < MAX_LINKS,
            sockopt_defined(old(nl_table)@, sk as int, level, optname, optval@),
        ensures
            final(nl_table).wf(),
            r == sockopt_spec(old(nl_table)@, sk as int, level, optname, optval@).0,
            final(nl_table)@ == sockopt_spec(old(nl_table)@, sk as int, level, optname, optval@).1,
    {
        proof {
            nl_table.lemma_views();
        }
        match level {
            PSOL::NETLINK => {},
            _ => {
                return Err(SystemError::ENOPROTOOPT);
            },
        }
        if optval.len() < 8 {
            return Err(SystemError::EINVAL);
        }
        let val = read_le(optval, 0, 8);
        assert(optval@.skip(0) =~= optval@);
        if optname == NETLINK_ADD_MEMBERSHIP || optname == NETLINK_DROP_MEMBERSHIP {
            let protocol = nl_table.socks[sk].inner.protocol;
            let group = val - 1;
            let mask = 1u64 << (group % 64);
            let ghost before = nl_table.items@[protocol as int].listeners->0@;
            assert(before == old(nl_table)@.items[protocol as int].listeners->0);
            assert(group / 64 < before.len());
            let held = nl_table.items[protocol].listeners.take();
            match held {
                Some(mut listeners) => {
                    let words = listeners.masks.len();
                    assert(group / 64 < words);
                    let idx = (group / 64) as usize;
                    let word = listeners.masks[idx];
                    if optname == NETLINK_ADD_MEMBERSHIP {
                        listeners.masks[idx] = word | mask;
                    } else {
                        listeners.masks[idx] = word & !mask;
                    }
                    assert(listeners.masks@ == membership_masks(before, optname, val));
                    nl_table.items[protocol].listeners = Some(listeners);
                },
                None => {},
            }
            proof {
                assert(nl_table.items@[protocol as int].listeners->0@ == membership_masks(
                    before,
                    optname,
                    val,
                ));
                nl_table.lemma_views();
                let protocol = old(nl_table)@.socks[sk as int].inner.protocol as int;
                let item = old(nl_table)@.items[protocol];
                let want = with_item(
                    old(nl_table)@,
                    protocol,
                    NetlinkTableItemView {
                        listeners: Some(membership_masks(item.listeners->0, optname, val)),
                        ..item
                    },
                );
                assert(nl_table@.items =~= want.items);
                assert(nl_table@.socks =~= want.socks);
            }
            Ok(())
        } else {
            Err(SystemError::ENOPROTOOPT)
        }
    }
}

/// The groups of the mask `groups` that a socket with room for `ngroups`
/// groups can join.
pub open spec fn masked_groups(groups: u32, ngroups: u32) -> u32 {
    if ngroups < 32 {
        groups & ((1u32 << ngroups) - 1) as u32
    } else {
        groups
    }
}

/// The first stage of `netlink_bind`: the socket takes the port of the
/// address, and, if the address names groups, makes room for them.
pub open spec fn bind_groups_stage(t: NetlinkTableView, sk: int, addr: SockAddrNl) -> NetlinkTableView {
    let t1 = set_inner(t, sk, NetlinkSockinnerView { portid: addr.nl_pid, ..t.socks[sk].inner });
    if addr.nl_groups != 0 {
        after_realloc(
            set_inner(
                t1,
                sk,
                NetlinkSockinnerView {
                    ngroups: group_count(addr.nl_groups) as u32,
                    ..t1.socks[sk].inner
                },
            ),
            sk,
        )
    } else {
        t1
    }
}

/// The second stage of `netlink_bind`: a socket that is not bound is bound
/// to the port of the address, or, if that is zero, to a port that
/// `netlink_autobind` picks.
pub open spec fn bind_port_stage(t: NetlinkTableView, sk: int, addr: SockAddrNl) -> (
    Result<(), SystemError>,
    NetlinkTableView,
) {
    let inner = t.socks[sk].inner;
    let ports = t.items[inner.protocol as int].ports;
    if inner.bound {
        (Ok(()), t)
    } else if addr.nl_pid != 0 {
        if port_in_use(t, sk, addr.nl_pid) {
            (Err(SystemError::EADDRINUSE), t)
        } else {
            (Ok(()), after_insert(t, sk, addr.nl_pid))
        }
    } else {
        (Ok(()), after_insert(t, sk, autobind_port(ports, 0)))
    }
}

/// The last stage of `netlink_bind`: unless the address names no group and
/// the socket is in none, the socket joins the groups of the address that
/// it has room for, counts its subscriptions anew, and the listeners of the
/// protocol are rebuilt.
pub open spec fn bind_subscribe_stage(t: NetlinkTableView, sk: int, addr: SockAddrNl) -> NetlinkTableView {
    let inner = t.socks[sk].inner;
    if addr.nl_groups == 0 && inner.groups[0] == 0 {
        t
    } else {
        let subscriptions = (inner.subscriptions + group_count(addr.nl_groups) - group_count(
            inner.groups[0],
        )) as u32;
        let joined = set_inner(
            t,
            sk,
            NetlinkSockinnerView {
                groups: inner.groups.update(0, masked_groups(addr.nl_groups, inner.ngroups)),
                ..inner
            },
        );
        after_update_listeners(after_subscriptions(joined, sk, subscriptions), sk)
    }
}

/// What `netlink_bind` returns and the table that it leaves.
pub open spec fn bind_spec(t: NetlinkTableView, sk: int, addr: SockAddrNl) -> (
    Result<(), SystemError>,
    NetlinkTableView,
) {
    if addr.nl_family != AddressFamily::Netlink {
        (
            Err(SystemError::EINVAL),
            set_inner(t, sk, NetlinkSockinnerView { portid: addr.nl_pid, ..t.socks[sk].inner }),
        )
    } else {
        let bound = bind_port_stage(bind_groups_stage(t, sk, addr), sk, addr);
        if bound.0 is Err {
            bound
        } else {
            (Ok(()), bind_subscribe_stage(bound.1, sk, addr))
        }
    }
}

/// Whether `netlink_bind` can be carried out: the protocol is registered if
/// the address names groups, `netlink_autobind` can pick a port if it has
/// to, the count of subscriptions stays within `u32`, and the listeners can
/// take the groups of the socket.
pub open spec fn bind_defined(t: NetlinkTableView, sk: int, addr: SockAddrNl) -> bool {
    addr.nl_family == AddressFamily::Netlink ==> {
        let protocol = t.socks[sk].inner.protocol as int;
        let t2 = bind_groups_stage(t, sk, addr);
        let ports = t2.items[protocol].ports;
        let bound = bind_port_stage(t2, sk, addr);
        let inner = bound.1.socks[sk].inner;
        &&& addr.nl_groups != 0 ==> t.items[protocol].registered != 0
        &&& !t2.socks[sk].inner.bound && addr.nl_pid == 0 ==> !ports.contains_key(1) && (
        ports.contains_key(0) ==> !ports.contains_key(2))
        &&& bound.0 is Ok && !(addr.nl_groups == 0 && inner.groups[0] == 0) ==> {
            &&& group_count(inner.groups[0]) <= inner.subscriptions + group_count(addr.nl_groups)
                <= u32::MAX
            &&& listeners_fit(bind_subscribe_stage_joined(bound.1, sk, addr), sk)
        }
    }
}

/// The table of the last stage of `netlink_bind` at the time the listeners
/// are rebuilt.
pub open spec fn bind_subscribe_stage_joined(
    t: NetlinkTableView,
    sk: int,
    addr: SockAddrNl,
) -> NetlinkTableView {
    let inner = t.socks[sk].inner;
    let subscriptions = (inner.subscriptions + group_count(addr.nl_groups) - group_count(
        inner.groups[0],
    )) as u32;
    after_subscriptions(
        set_inner(
            t,
            sk,
            NetlinkSockinnerView {
                groups: inner.groups.update(0, masked_groups(addr.nl_groups, inner.ngroups)),
                ..inner
            },
        ),
        sk,
        subscriptions,
    )
}

impl NetlinkSock {
    /// Binds the socket `sk` to the address `addr`: gives it the port and
    /// the multicast groups of the address.
    pub fn netlink_bind(nl_table: &mut NetlinkTable, sk: usize, addr: &SockAddrNl) -> (r: Result<
        (),
        SystemError,
    >)
        requires
            old(nl_table).wf(),
            sk < old(nl_table)@.socks.len(),
            old(nl_table)@.socks[sk as int].inner.protocol < MAX_LINKS,
            bind_defined(old(nl_table)@, sk as int, *addr),
        ensures
            final(nl_table).wf(),
            r == bind_spec(old(nl_table)@, sk as int, *addr).0,
            final(nl_table)@ == bind_spec(old(nl_table)@, sk as int, *addr).1,
    {
        let ghost t0 = nl_table@;
        proof {
            nl_table.lemma_views();
        }
        nl_table.socks[sk].inner.portid = addr.nl_pid;
        let ghost t1 = nl_table@;
        proof {
            nl_table.lemma_views();
            let want = set_inner(
                t0,
                sk as int,
                NetlinkSockinnerView { portid: addr.nl_pid, ..t0.socks[sk as int].inner },
            );
            assert(t1.socks =~= want.socks);
            assert(t1.items =~= want.items);
            assert(t1 == want);
        }
        match addr.nl_family {
            AddressFamily::Netlink => {},
            _ => {
                return Err(SystemError::EINVAL);
            },
        }
        let mut groups = addr.nl_groups;
        if groups != 0 {
            let group_count = addr.nl_groups.count_ones();
            nl_table.socks[sk].inner.ngroups = group_count;
            proof {
                nl_table.lemma_views();
                let want = set_inner(
                    t1,
                    sk as int,
                    NetlinkSockinnerView { ngroups: group_count, ..t1.socks[sk as int].inner },
                );
                assert(nl_table@.socks =~= want.socks);
                assert(nl_table@.items =~= want.items);
            }
            let grown = Self::netlink_realloc_groups(nl_table, sk);
            assert(grown is Ok);
        }
        let ghost t2 = nl_table@;
        assert(t2 == bind_groups_stage(t0, sk as int, *addr));
        proof {
            nl_table.lemma_views();
        }
        let ngroups = nl_table.socks[sk].inner.ngroups;
        if ngroups < 32 {
            assert((1u32 << ngroups) >= 1) by (bit_vector)
                requires
                    ngroups < 32,
            ;
            groups = groups & ((1u32 << ngroups) - 1);
        }
        assert(groups == masked_groups(addr.nl_groups, ngroups));
        let bound = nl_table.socks[sk].inner.bound;
        if !bound {
            if addr.nl_pid != 0 {
                match netlink_insert(nl_table, sk, addr.nl_pid) {
                    Err(e) => {
                        return Err(e);
                    },
                    Ok(()) => {},
                }
            } else {
                let mut portid = nl_table.socks[sk].inner.portid;
                netlink_autobind(nl_table, sk, &mut portid);
            }
        }
        let ghost t3 = nl_table@;
        assert(t3 == bind_port_stage(t2, sk as int, *addr).1);
        proof {
            nl_table.lemma_views();
        }
        if addr.nl_groups == 0 && nl_table.socks[sk].inner.groups[0] == 0 {
            return Ok(());
        }
        let current = nl_table.socks[sk].inner.groups[0];
        let new_subscriptions = nl_table.socks[sk].inner.subscriptions
            + addr.nl_groups.count_ones() - current.count_ones();
        nl_table.socks[sk].inner.groups[0] = groups;
        proof {
            nl_table.lemma_views();
            let inner = t3.socks[sk as int].inner;
            let want = set_inner(
                t3,
                sk as int,
                NetlinkSockinnerView { groups: inner.groups.update(0, groups), ..inner },
            );
            assert(nl_table@.socks =~= want.socks);
            assert(nl_table@.items =~= want.items);
        }
        Self::netlink_update_subscriptions(nl_table, sk, new_subscriptions);
        Self::netlink_update_listeners(nl_table, sk);
        Ok(())
    }

    /// Connects the socket to `endpoint`.
    pub fn connect(&self, endpoint: Endpoint) -> (r: Result<(), SystemError>)
        ensures
            r is Ok,
    {
        self.netlink_connect(endpoint)
    }

    /// Closes the socket. There is nothing to do.
    pub fn close(&self) -> (r: Result<(), SystemError>)
        ensures
            r is Ok,
    {
        Ok(())
    }

    /// Size of the send buffer, which is not accounted.
    pub fn send_buffer_size(&self) -> (r: usize)
        ensures
            r == 0,
    {
        0
    }

    /// Size of the receive buffer, which is not accounted.
    pub fn recv_buffer_size(&self) -> (r: usize)
        ensures
            r == 0,
    {
        0
    }
}

/// What a broadcast in progress holds, as plain values.
pub struct BroadcastView {
    pub exclude_sk: usize,
    pub portid: u32,
    pub group: u32,
    pub failure: i32,
    pub delivery_failure: i32,
    pub congested: i32,
    pub delivered: i32,
    /// The segments of the message.
    pub skb: Seq<Seq<u8>>,
    pub skb_owner: NetlinkSockView,
    /// The segments of the copy that goes to the next receiver.
    pub skb_2: Seq<Seq<u8>>,
    pub skb_2_owner: NetlinkSockView,
}

/// A broadcast in progress: the message, whom it is for, and how it has
/// fared so far.
pub struct NetlinkBroadcastData {
    /// The handle of the sender, which does not receive the message.
    pub exclude_sk: usize,
    /// A port that does not receive the message.
    pub portid: u32,
    /// The multicast group that the message is for.
    pub group: u32,
    pub failure: i32,
    pub delivery_failure: i32,
    pub congested: i32,
    pub delivered: i32,
    /// The message.
    pub skb: SkBuff,
    /// The copy of the message that goes to the next receiver.
    pub skb_2: SkBuff,
}

impl View for NetlinkBroadcastData {
    type V = BroadcastView;

    open spec fn view(&self) -> BroadcastView {
        BroadcastView {
            exclude_sk: self.exclude_sk,
            portid: self.portid,
            group: self.group,
            failure: self.failure,
            delivery_failure: self.delivery_failure,
            congested: self.congested,
            delivered: self.delivered,
            skb: segments(self.skb.inner@),
            skb_owner: self.skb.sk@,
            skb_2: segments(self.skb_2.inner@),
            skb_2_owner: self.skb_2.sk@,
        }
    }
}

impl NetlinkBroadcastData {
    /// Makes the copy for the next receiver a copy of the message.
    pub fn copy_skb_to_skb_2(&mut self)
        ensures
            final(self)@ == (BroadcastView {
                skb_2: old(self)@.skb,
                skb_2_owner: old(self)@.skb_owner,
                ..old(self)@
            }),
    {
        let skb = self.skb.clone();
        self.skb_2 = skb;
    }
}

/// Whether a socket with the record `recv` is a receiver of the broadcast
/// `info` whose sender has the port `exclude_port`: it has neither that
/// port nor the port that the broadcast leaves out, and it has joined the
/// group of the broadcast.
pub open spec fn takes_broadcast(
    recv: NetlinkSockinnerView,
    exclude_port: u32,
    info: BroadcastView,
) -> bool {
    &&& recv.portid != exclude_port
    &&& recv.portid != info.portid
    &&& info.group <= recv.ngroups
    &&& recv.groups.contains((info.group - 1) as u32)
}

/// The broadcast `info` with a failed delivery recorded if the receiver
/// has any flag set.
pub open spec fn with_delivery_failure(info: BroadcastView, flags: u32) -> BroadcastView {
    BroadcastView {
        delivery_failure: if flags != 0 {
            1
        } else {
            info.delivery_failure
        },
        ..info
    }
}

/// What `do_one_broadcast` returns for the socket `sk`, and the table and
/// the broadcast that it leaves.
///
/// A socket that is no receiver, or any socket once the broadcast has
/// failed, is refused. Otherwise the copy for the receiver is made from the
/// message if there is none. An empty copy makes the broadcast fail. A
/// congested receiver gets nothing. Any other receiver gets the message of
/// the copy at the end of its queue, and a new copy is made.
pub open spec fn one_broadcast(t: NetlinkTableView, sk: int, info: BroadcastView) -> (
    Result<(), SystemError>,
    NetlinkTableView,
    BroadcastView,
) {
    let recv = t.socks[sk];
    let exclude_port = t.socks[info.exclude_sk as int].inner.portid;
    if !takes_broadcast(recv.inner, exclude_port, info) || info.failure != 0 {
        (Err(SystemError::EINVAL), t, info)
    } else {
        let staged = if info.skb_2.len() == 0 {
            BroadcastView { skb_2: info.skb, skb_2_owner: info.skb_owner, ..info }
        } else {
            info
        };
        if staged.skb_2.len() == 0 {
            (
                Err(SystemError::EINVAL),
                t,
                with_delivery_failure(BroadcastView { failure: 1, ..staged }, recv.inner.flags),
            )
        } else if recv.state == NetlinkState::SCongested {
            (Ok(()), t, with_delivery_failure(staged, recv.inner.flags))
        } else {
            (
                Ok(()),
                with_sock(
                    t,
                    sk,
                    NetlinkSockView { data: recv.data.push(skb_message(staged.skb_2)), ..recv },
                ),
                BroadcastView {
                    delivered: 1,
                    skb_2: info.skb,
                    skb_2_owner: info.skb_owner,
                    ..staged
                },
            )
        }
    }
}

/// The table and the broadcast after the sockets bound to the ports of
/// `ports` in `protocol` have been offered the broadcast, in order.
pub open spec fn broadcast_over(
    t: NetlinkTableView,
    info: BroadcastView,
    protocol: int,
    ports: Seq<u32>,
) -> (NetlinkTableView, BroadcastView)
    decreases ports.len(),
{
    if ports.len() == 0 {
        (t, info)
    } else {
        let before = broadcast_over(t, info, protocol, ports.drop_last());
        match port_lookup(before.0.items[protocol].ports, ports.last()) {
            Some(usk) => {
                let offered = one_broadcast(before.0, usk as int, before.1);
                (offered.1, offered.2)
            },
            None => before,
        }
    }
}

/// Whether two tables differ at most in the messages that wait at their
/// sockets.
pub open spec fn same_but_messages(before: NetlinkTableView, after: NetlinkTableView) -> bool {
    &&& after.items == before.items
    &&& after.socks.len() == before.socks.len()
    &&& forall|i: int|
        0 <= i < before.socks.len() ==> (#[trigger] after.socks[i]) == (NetlinkSockView {
            data: after.socks[i].data,
            ..before.socks[i]
        })
}

/// A broadcast changes nothing but the messages that wait at the sockets.
pub proof fn lemma_broadcast_frame(
    t: NetlinkTableView,
    info: BroadcastView,
    protocol: int,
    ports: Seq<u32>,
)
    requires
        table_wf(t),
        0 <= protocol < MAX_LINKS,
    ensures
        same_but_messages(t, broadcast_over(t, info, protocol, ports).0),
        table_wf(broadcast_over(t, info, protocol, ports).0),
    decreases ports.len(),
{
    if ports.len() > 0 {
        lemma_broadcast_frame(t, info, protocol, ports.drop_last());
        let before = broadcast_over(t, info, protocol, ports.drop_last());
        match port_lookup(before.0.items[protocol].ports, ports.last()) {
            Some(usk) => {
                let offered = one_broadcast(before.0, usk as int, before.1);
                assert(offered.1.items == before.0.items);
                assert(same_but_messages(before.0, offered.1));
                assert forall|i: int| 0 <= i < t.socks.len() implies (#[trigger] offered.1.socks[i])
                    == (NetlinkSockView { data: offered.1.socks[i].data, ..t.socks[i] }) by {
                    assert(before.0.socks[i] == (NetlinkSockView {
                        data: before.0.socks[i].data,
                        ..t.socks[i]
                    }));
                }
            },
            None => {},
        }
    }
}

/// The broadcast of the message `skb` of the sender `ssk` at its start.
pub open spec fn new_broadcast(
    ssk: usize,
    skb: Seq<Seq<u8>>,
    skb_owner: NetlinkSockView,
    portid: u32,
    group: u32,
) -> BroadcastView {
    BroadcastView {
        exclude_sk: ssk,
        portid: portid,
        group: group,
        failure: 0,
        delivery_failure: 0,
        congested: 0,
        delivered: 0,
        skb: skb,
        skb_owner: skb_owner,
        skb_2: Seq::empty(),
        skb_2_owner: NetlinkSock::new_view(None),
    }
}

/// The table and the broadcast after the message `skb` of the sender `ssk`
/// has been offered to the sockets bound to the ports of `ports` in the
/// protocol of the sender, in order.
pub open spec fn broadcast_from(
    t: NetlinkTableView,
    ssk: usize,
    skb: Seq<Seq<u8>>,
    skb_owner: NetlinkSockView,
    portid: u32,
    group: u32,
    ports: Seq<u32>,
) -> (NetlinkTableView, BroadcastView) {
    broadcast_over(
        t,
        new_broadcast(ssk, skb, skb_owner, portid, group),
        t.socks[ssk as int].inner.protocol as int,
        ports,
    )
}

/// Whether `ports` lists each port of `set` once, and nothing else.
pub open spec fn lists_ports(ports: Seq<u32>, set: Set<u32>) -> bool {
    &&& ports.no_duplicates()
    &&& forall|port: u32| ports.contains(port) <==> set.contains(port)
}

/// The error that ends a broadcast: no buffer space if a delivery failed
/// at a receiver that has a flag set, and no such process otherwise.
pub open spec fn broadcast_error(info: BroadcastView) -> SystemError {
    if info.delivery_failure != 0 {
        SystemError::ENOBUFS
    } else {
        SystemError::ESRCH
    }
}

/// Whether the message made of the segments `segs` has a length that fits
/// in `usize`.
pub open spec fn message_fits(segs: Seq<Seq<u8>>) -> bool {
    flatten(segs).len() + NLMSG_HDRLEN + super::NLMSG_ALIGNTO <= usize::MAX
}

impl NetlinkSock {
    /// Hands the buffer `skb` to the socket `sk`, unless the socket is
    /// congested.
    pub fn netlink_broadcast_deliver(nl_table: &mut NetlinkTable, sk: usize, skb: &mut SkBuff) -> (r:
        Result<i32, SystemError>)
        requires
            sk < old(nl_table)@.socks.len(),
            message_fits(segments(old(skb).inner@)),
        ensures
            old(nl_table).wf() ==> final(nl_table).wf(),
            segments(final(skb).inner@) == segments(old(skb).inner@),
            old(nl_table)@.socks[sk as int].state == NetlinkState::SCongested ==> r is Err
                && r->Err_0 == SystemError::EINVAL && final(nl_table)@ == old(nl_table)@ && final(skb).sk@ == old(skb).sk@,
            old(nl_table)@.socks[sk as int].state != NetlinkState::SCongested ==> r is Ok
                && r->Ok_0 == 0 && final(skb).sk@ == old(nl_table)@.socks[sk as int] && final(nl_table)@ == with_sock(
                old(nl_table)@,
                sk as int,
                NetlinkSockView {
                    data: old(nl_table)@.socks[sk as int].data.push(
                        skb_message(segments(old(skb).inner@)),
                    ),
                    ..old(nl_table)@.socks[sk as int]
                },
            ),
    {
        proof {
            nl_table.lemma_views();
        }
        let congested = match nl_table.socks[sk].state {
            NetlinkState::SCongested => true,
            _ => false,
        };
        if nl_table.socks[sk].sk_rmem_alloc() <= nl_table.socks[sk].sk_rcvbuf() && !congested {
            let owner = Arc::new(nl_table.socks[sk].clone());
            skb.netlink_skb_set_owner_r(owner);
        } else {
            return Err(SystemError::EINVAL);
        }
        let _ = nl_table.socks[sk].netlink_sendskb(skb);
        proof {
            nl_table.lemma_views();
            let want = with_sock(
                old(nl_table)@,
                sk as int,
                NetlinkSockView {
                    data: old(nl_table)@.socks[sk as int].data.push(
                        skb_message(segments(old(skb).inner@)),
                    ),
                    ..old(nl_table)@.socks[sk as int]
                },
            );
            assert(nl_table@.socks =~= want.socks);
            assert(nl_table@.items =~= want.items);
        }
        if nl_table.socks[sk].sk_rmem_alloc() > (nl_table.socks[sk].sk_rcvbuf() >> 1) {
            Err(SystemError::ENOBUFS)
        } else {
            Ok(0)
        }
    }

    /// Offers the broadcast `info` to the socket `sk`.
    pub fn do_one_broadcast(nl_table: &mut NetlinkTable, sk: usize, info: &mut NetlinkBroadcastData) -> (r:
        Result<(), SystemError>)
        requires
            sk < old(nl_table)@.socks.len(),
            old(info).exclude_sk < old(nl_table)@.socks.len(),
            old(info).group >= 1,
            message_fits(old(info)@.skb),
            message_fits(old(info)@.skb_2),
        ensures
            old(nl_table).wf() ==> final(nl_table).wf(),
            r == one_broadcast(old(nl_table)@, sk as int, old(info)@).0,
            final(nl_table)@ == one_broadcast(old(nl_table)@, sk as int, old(info)@).1,
            final(info)@ == one_broadcast(old(nl_table)@, sk as int, old(info)@).2,
    {
        proof {
            nl_table.lemma_views();
        }
        let exclude = nl_table.socks[info.exclude_sk].inner;
        let inner = nl_table.socks[sk].inner;
        if exclude.equals(&inner) {
            return Err(SystemError::EINVAL);
        }
        if inner.portid == info.portid || info.group > inner.ngroups || !in_groups(
            &inner.groups,
            info.group - 1,
        ) {
            return Err(SystemError::EINVAL);
        }
        if info.failure != 0 {
            netlink_overrun(&nl_table.socks[sk]);
            return Err(SystemError::EINVAL);
        }
        if info.skb_2.inner.len() == 0 {
            if info.skb.skb_shared() {
                info.copy_skb_to_skb_2();
            } else {
                info.skb_2 = info.skb.clone();
                info.skb_2.skb_orphan();
            }
        }
        if info.skb_2.inner.len() == 0 {
            netlink_overrun(&nl_table.socks[sk]);
            info.failure = 1;
            if inner.flags != 0 && NetlinkFlags::BROADCAST_SEND_ERROR != 0 {
                info.delivery_failure = 1;
            }
            return Err(SystemError::EINVAL);
        }
        if info.skb_2.sk_filter(&nl_table.socks[sk]) {
            return Err(SystemError::EINVAL);
        }
        let ret = Self::netlink_broadcast_deliver(nl_table, sk, &mut info.skb_2);
        if ret.is_err() {
            netlink_overrun(&nl_table.socks[sk]);
            if inner.flags != 0 && NetlinkFlags::BROADCAST_SEND_ERROR != 0 {
                info.delivery_failure = 1;
            }
        } else {
            info.delivered = 1;
            info.skb_2 = info.skb.clone();
        }
        Ok(())
    }

    /// Sends the message `skb` of the socket `ssk` to the sockets bound to
    /// the ports of `ports`, in that order, that have joined `group`, but for
    /// the one bound to `portid`.
    ///
    /// A broadcast never reports success: it ends with `ESRCH`, or with
    /// `ENOBUFS` after a failed delivery.
    pub fn netlink_broadcast_to(
        nl_table: &mut NetlinkTable,
        ssk: usize,
        ports: &Vec<u32>,
        skb: SkBuff,
        portid: u32,
        group: u32,
    ) -> (r: Result<(), SystemError>)
        requires
            old(nl_table).wf(),
            ssk < old(nl_table)@.socks.len(),
            old(nl_table)@.socks[ssk as int].inner.protocol < MAX_LINKS,
            group >= 1,
            message_fits(segments(skb.inner@)),
        ensures
            final(nl_table).wf(),
            ({
                let ended = broadcast_over(
                    old(nl_table)@,
                    new_broadcast(ssk, segments(skb.inner@), skb.sk@, portid, group),
                    old(nl_table)@.socks[ssk as int].inner.protocol as int,
                    ports@,
                );
                &&& final(nl_table)@ == ended.0
                &&& r == Err::<(), SystemError>(broadcast_error(ended.1))
            }),
    {
        proof {
            nl_table.lemma_views();
        }
        let ghost t0 = nl_table@;
        let ghost start = new_broadcast(ssk, segments(skb.inner@), skb.sk@, portid, group);
        let mut info = NetlinkBroadcastData {
            exclude_sk: ssk,
            portid,
            group,
            failure: 0,
            delivery_failure: 0,
            congested: 0,
            delivered: 0,
            skb,
            skb_2: SkBuff::new(None),
        };
        assert(info@.skb_2 =~= Seq::<Seq<u8>>::empty());
        assert(info@ == start);
        let protocol = nl_table.socks[ssk].inner.protocol;
        let mut i: usize = 0;
        while i < ports.len()
            invariant
                i <= ports@.len(),
                nl_table.wf(),
                protocol < MAX_LINKS,
                protocol == t0.socks[ssk as int].inner.protocol,
                nl_table@.socks.len() == t0.socks.len(),
                ssk < t0.socks.len(),
                info.exclude_sk == ssk,
                info.group == group,
                group >= 1,
                message_fits(info@.skb),
                message_fits(info@.skb_2),
                (nl_table@, info@) == broadcast_over(t0, start, protocol as int, ports@.subrange(0, i as int)),
            decreases ports@.len() - i,
        {
            proof {
                assert(ports@.subrange(0, i + 1).drop_last() =~= ports@.subrange(0, i as int));
                assert(ports@.subrange(0, i + 1).last() == ports@[i as int]);
            }
            match netlink_lookup(nl_table, protocol, ports[i]) {
                Some(usk) => {
                    let _ = Self::do_one_broadcast(nl_table, usk, &mut info);
                },
                None => {},
            }
            i += 1;
        }
        assert(ports@.subrange(0, ports@.len() as int) =~= ports@);
        if info.delivery_failure != 0 {
            return Err(SystemError::ENOBUFS);
        }
        Err(SystemError::ESRCH)
    }

    /// Sends the message `skb` of the socket `ssk` to every socket of its
    /// protocol that has joined a group and takes the broadcast, in the order
    /// in which the multicast set gives out its ports.
    pub fn netlink_broadcast(
        nl_table: &mut NetlinkTable,
        ssk: usize,
        skb: SkBuff,
        portid: u32,
        group: u32,
    ) -> (r: Result<(), SystemError>)
        requires
            old(nl_table).wf(),
            ssk < old(nl_table)@.socks.len(),
            old(nl_table)@.socks[ssk as int].inner.protocol < MAX_LINKS,
            group >= 1,
            message_fits(segments(skb.inner@)),
        ensures
            final(nl_table).wf(),
            exists|ports: Seq<u32>|
                {
                    &&& #[trigger] lists_ports(
                        ports,
                        old(nl_table)@.items[old(nl_table)@.socks[ssk as int].inner.protocol as int].mc_set,
                    )
                    &&& final(nl_table)@ == broadcast_from(
                        old(nl_table)@,
                        ssk,
                        segments(skb.inner@),
                        skb.sk@,
                        portid,
                        group,
                        ports,
                    ).0
                    &&& r == Err::<(), SystemError>(
                        broadcast_error(
                            broadcast_from(
                                old(nl_table)@,
                                ssk,
                                segments(skb.inner@),
                                skb.sk@,
                                portid,
                                group,
                                ports,
                            ).1,
                        ),
                    )
                },
    {
        proof {
            nl_table.lemma_views();
        }
        let protocol = nl_table.socks[ssk].inner.protocol;
        let ports = nl_table.items[protocol].mc_set.to_vec();
        let r = Self::netlink_broadcast_to(nl_table, ssk, &ports, skb, portid, group);
        proof {
            assert(lists_ports(ports@, old(nl_table)@.items[protocol as int].mc_set));
        }
        r
    }
}

/// Whether `group` is one of `groups`.
pub fn in_groups(groups: &[u32; 32], group: u32) -> (r: bool)
    ensures
        r == groups@.contains(group),
{
    let mut i: usize = 0;
    while i < 32
        invariant
            i <= 32,
            forall|j: int| 0 <= j < i ==> groups@[j] != group,
        decreases 32 - i,
    {
        if groups[i] == group {
            return true;
        }
        i += 1;
    }
    false
}

/// The table after `NetlinkSock::bind` has put a copy `sock` of the socket
/// in the table: the copy has the next free handle.
pub open spec fn with_new_sock(t: NetlinkTableView, sock: NetlinkSockView) -> NetlinkTableView {
    NetlinkTableView { socks: t.socks.push(sock), ..t }
}

impl NetlinkSock {
    /// Binds a copy of the socket to `endpoint`, which must be a netlink
    /// endpoint. The copy gets the next free handle of the table.
    pub fn bind(&self, nl_table: &mut NetlinkTable, endpoint: Endpoint) -> (r: Result<
        (),
        SystemError,
    >)
        requires
            old(nl_table).wf(),
            self@.inner.protocol < MAX_LINKS,
            endpoint matches Endpoint::Netlink(ep) ==> bind_defined(
                with_new_sock(old(nl_table)@, self@),
                old(nl_table)@.socks.len() as int,
                ep.addr,
            ),
        ensures
            final(nl_table).wf(),
            match endpoint {
                Endpoint::Netlink(ep) => {
                    let bound = bind_spec(
                        with_new_sock(old(nl_table)@, self@),
                        old(nl_table)@.socks.len() as int,
                        ep.addr,
                    );
                    r == bound.0 && final(nl_table)@ == bound.1
                },
                _ => r == Err::<(), SystemError>(SystemError::EINVAL) && final(nl_table)@ == old(nl_table)@,
            },
    {
        match endpoint {
            Endpoint::Netlink(netlinkendpoint) => {
                let addr = netlinkendpoint.addr;
                let sock = nl_table.add_sock(self.clone());
                Self::netlink_bind(nl_table, sock, &addr)
            },
            _ => Err(SystemError::EINVAL),
        }
    }

    /// Sets an option of the socket `sk`.
    pub fn set_option(
        nl_table: &mut NetlinkTable,
        sk: usize,
        level: PSOL,
        name: usize,
        val: &[u8],
    ) -> (r: Result<(), SystemError>)
        requires
            old(nl_table).wf(),
            sk < old(nl_table)@.socks.len(),
            old(nl_table)@.socks[sk as int].inner.protocol < MAX_LINKS,
            sockopt_defined(old(nl_table)@, sk as int, level, name, val@),
        ensures
            final(nl_table).wf(),
            r == sockopt_spec(old(nl_table)@, sk as int, level, name, val@).0,
            final(nl_table)@ == sockopt_spec(old(nl_table)@, sk as int, level, name, val@).1,
    {
        Self::netlink_setsockopt(nl_table, sk, level, name, val)
    }

    /// Sends the bytes `buffer` through the socket.
    pub fn send_to(&mut self, buffer: &[u8], flags: u32, address: Endpoint) -> (r: Result<
        usize,
        SystemError,
    >)
        requires
            buffer@.len() + NLMSG_HDRLEN + super::NLMSG_ALIGNTO <= usize::MAX,
        ensures
            r == send_spec(old(self)@, buffer@).0,
            final(self)@ == send_spec(old(self)@, buffer@).1,
    {
        self.netlink_send(buffer, address)
    }

    /// Receives the oldest message of the socket into `msg`.
    pub fn recv_from(&mut self, msg: &mut [u8], flags: u32, address: Option<Endpoint>) -> (r: Result<
        (usize, Endpoint),
        SystemError,
    >)
        ensures
            r == recv_spec(old(self)@, old(msg)@, flags).0,
            final(self)@ == recv_spec(old(self)@, old(msg)@, flags).1,
            final(msg)@ == recv_spec(old(self)@, old(msg)@, flags).2,
    {
        self.netlink_recv(msg, flags)
    }
}

/// What the kernel socket of the protocol `unit` holds when it is made: a
/// new socket bound to port 0, with the flags of a kernel socket.
pub open spec fn kernel_sock(unit: usize) -> NetlinkSockView {
    let fresh = NetlinkSock::new_view(Some(unit));
    NetlinkSockView { inner: NetlinkSockinnerView { flags: 0x101, ..fresh.inner }, ..fresh }
}

/// The item of a protocol after its kernel socket, with the handle
/// `handle`, is made with the parameters `cfg`: port 0 leads to the socket,
/// and a protocol that was not registered is registered, with 32 groups or
/// as many more as `cfg` asks for, and with the flags and the callbacks of
/// `cfg`.
pub open spec fn kernel_item(
    item: NetlinkTableItemView,
    handle: usize,
    cfg: Option<NetlinkKernelCfg>,
) -> NetlinkTableItemView {
    let bound = NetlinkTableItemView { ports: item.ports.insert(0, handle), ..item };
    if item.registered != 0 {
        bound
    } else {
        match cfg {
            Some(cfg) => NetlinkTableItemView {
                groups: if cfg.groups < 32 {
                    32
                } else {
                    cfg.groups
                },
                flags: cfg.flags,
                registered: 1,
                bind: cfg.bind,
                unbind: cfg.unbind,
                compare: if cfg.compare is Some {
                    cfg.compare
                } else {
                    item.compare
                },
                ..bound
            },
            None => NetlinkTableItemView { groups: 32, registered: 1, ..bound },
        }
    }
}

/// What `netlink_kernel_create` returns, and the table that it leaves: a
/// protocol that the table has no item for is invalid; for any other, the
/// kernel socket gets the next free handle and the item of the protocol is
/// set up.
pub open spec fn kernel_create_spec(
    t: NetlinkTableView,
    unit: usize,
    cfg: Option<NetlinkKernelCfg>,
) -> (Result<usize, SystemError>, NetlinkTableView) {
    if unit >= MAX_LINKS {
        (Err(SystemError::EINVAL), t)
    } else {
        (
            Ok(t.socks.len() as usize),
            NetlinkTableView {
                items: t.items.update(
                    unit as int,
                    kernel_item(t.items[unit as int], t.socks.len() as usize, cfg),
                ),
                socks: t.socks.push(kernel_sock(unit)),
            },
        )
    }
}

/// Makes the kernel socket of the protocol `unit` and returns its handle.
///
/// The socket takes port 0 of its protocol, which must be free.
pub fn netlink_kernel_create(
    nl_table: &mut NetlinkTable,
    unit: usize,
    cfg: Option<NetlinkKernelCfg>,
) -> (r: Result<usize, SystemError>)
    requires
        old(nl_table).wf(),
        unit < MAX_LINKS ==> !old(nl_table)@.items[unit as int].ports.contains_key(0),
    ensures
        final(nl_table).wf(),
        r == kernel_create_spec(old(nl_table)@, unit, cfg).0,
        final(nl_table)@ == kernel_create_spec(old(nl_table)@, unit, cfg).1,
{
    if unit >= MAX_LINKS {
        return Err(SystemError::EINVAL);
    }
    let ghost t0 = nl_table@;
    let nlk = nl_table.add_sock(NetlinkSock::new(Some(unit)));
    let created = __netlink_create(nl_table, nlk, unit, 1);
    let groups: u32 = match &cfg {
        Some(cfg) => if cfg.groups < 32 {
            32
        } else {
            cfg.groups
        },
        None => 32,
    };
    let ghost ta = nl_table@;
    assert(ta.socks[nlk as int].inner.protocol == unit);
    assert(ta.socks[nlk as int].inner.flags == 1);
    assert(!port_in_use(ta, nlk as int, 0));
    let inserted = netlink_insert(nl_table, nlk, 0);
    assert(inserted is Ok);
    let ghost tm = nl_table@;
    proof {
        nl_table.lemma_views();
        assert(tm.socks[nlk as int] == nl_table.socks@[nlk as int]@);
        assert(tm.socks[nlk as int].inner.protocol == unit);
        assert(tm.socks[nlk as int].inner.flags == 1);
        assert(tm.socks.len() == t0.socks.len() + 1);
        assert forall|i: int| 0 <= i < nlk implies tm.socks[i] == t0.socks[i] by {
            assert(ta.socks[i] == t0.socks[i]);
        }
        assert forall|i: int| 0 <= i < MAX_LINKS && i != unit implies tm.items[i]
            == t0.items[i] by {
            assert(ta.items[i] == t0.items[i]);
        }
        assert(tm.items[unit as int] == (NetlinkTableItemView {
            ports: t0.items[unit as int].ports.insert(0, nlk),
            ..t0.items[unit as int]
        }));
    }
    let ghost socks_m = nl_table.socks@;
    let ghost items_m = nl_table.items@;
    let flags = nl_table.socks[nlk].inner.flags;
    assert(1u32 | 0x100u32 == 0x101u32) by (bit_vector);
    nl_table.socks[nlk].inner.flags = flags | NetlinkFlags::NETLINK_F_KERNEL_SOCKET;
    let ghost t1 = nl_table@;
    proof {
        nl_table.lemma_views();
        let fresh = NetlinkSock::new_view(Some(unit));
        assert(t1.socks[nlk as int].inner.flags == 0x101);
        assert(t1.socks[nlk as int].inner.protocol == unit);
        assert(t1.socks[nlk as int].inner.portid == 0);
        assert(!t1.socks[nlk as int].inner.bound);
        assert(t1.socks[nlk as int].inner == kernel_sock(unit).inner);
        assert(t1.socks[nlk as int] == kernel_sock(unit));
        assert forall|i: int| 0 <= i < nlk implies t1.socks[i] == t0.socks[i] by {
            assert(nl_table.socks@[i] == socks_m[i]);
            assert(tm.socks[i] == socks_m[i]@);
        }
        assert(t1.socks =~= t0.socks.push(kernel_sock(unit)));
        assert forall|i: int| 0 <= i < MAX_LINKS implies t1.items[i] == tm.items[i] by {
            assert(nl_table.items@[i] == items_m[i]);
            assert(tm.items[i] == items_m[i]@);
        }
    }
    let ghost items_1 = nl_table.items@;
    if nl_table.items[unit].get_registered() == 0 {
        nl_table.items[unit].set_groups(groups);
        match cfg {
            Some(cfg) => {
                nl_table.items[unit].bind = cfg.bind;
                nl_table.items[unit].unbind = cfg.unbind;
                nl_table.items[unit].set_flags(cfg.flags);
                if cfg.compare.is_some() {
                    nl_table.items[unit].compare = cfg.compare;
                }
                nl_table.items[unit].set_registered(1);
            },
            None => {
                let registered = nl_table.items[unit].get_registered();
                nl_table.items[unit].set_registered(registered + 1);
            },
        }
    }
    proof {
        nl_table.lemma_views();
        let want = NetlinkTableView {
            items: t0.items.update(
                unit as int,
                kernel_item(t0.items[unit as int], t0.socks.len() as usize, cfg),
            ),
            socks: t0.socks.push(kernel_sock(unit)),
        };
        assert(nl_table@.socks =~= want.socks);
        assert forall|i: int| 0 <= i < MAX_LINKS && i != unit implies nl_table@.items[i]
            == want.items[i] by {
            assert(nl_table.items@[i] == items_1[i]);
            assert(t1.items[i] == items_1[i]@);
        }
        assert(nl_table@.items[unit as int] == want.items[unit as int]);
        assert(nl_table@.items =~= want.items);
    }
    Ok(nlk)
}

/// Sets up the socket `nlk` as a socket of the protocol `unit`, of the
/// kernel if `kern` is 1.
pub fn __netlink_create(nl_table: &mut NetlinkTable, nlk: usize, unit: usize, kern: usize) -> (r:
    Result<i32, SystemError>)
    requires
        nlk < old(nl_table)@.socks.len(),
    ensures
        r == Ok::<i32, SystemError>(0),
        final(nl_table)@ == set_inner(
            old(nl_table)@,
            nlk as int,
            NetlinkSockinnerView {
                flags: kern as u32,
                protocol: unit,
                ..old(nl_table)@.socks[nlk as int].inner
            },
        ),
        old(nl_table).wf() ==> final(nl_table).wf(),
{
    proof {
        nl_table.lemma_views();
    }
    nl_table.socks[nlk].inner.flags = kern as u32;
    nl_table.socks[nlk].inner.protocol = unit;
    proof {
        nl_table.lemma_views();
        let want = set_inner(
            old(nl_table)@,
            nlk as int,
            NetlinkSockinnerView {
                flags: kern as u32,
                protocol: unit,
                ..old(nl_table)@.socks[nlk as int].inner
            },
        );
        assert(nl_table@.socks =~= want.socks);
        assert(nl_table@.items =~= want.items);
    }
    Ok(0)
}

/// Makes the kernel socket of the protocol `unit` if port 0 of the
/// protocol is free, and returns nothing, leaving the table as it is, if
/// the port is taken.
pub fn try_netlink_kernel_create(
    nl_table: &mut NetlinkTable,
    unit: usize,
    cfg: Option<NetlinkKernelCfg>,
) -> (r: Option<Result<usize, SystemError>>)
    requires
        old(nl_table).wf(),
    ensures
        final(nl_table).wf(),
        unit < MAX_LINKS && old(nl_table)@.items[unit as int].ports.contains_key(0) ==> r is None
            && final(nl_table)@ == old(nl_table)@,
        !(unit < MAX_LINKS && old(nl_table)@.items[unit as int].ports.contains_key(0)) ==> r
            == Some(kernel_create_spec(old(nl_table)@, unit, cfg).0) && final(nl_table)@
            == kernel_create_spec(old(nl_table)@, unit, cfg).1,
{
    if unit < MAX_LINKS && netlink_lookup(nl_table, unit, 0).is_some() {
        return None;
    }
    Some(netlink_kernel_create(nl_table, unit, cfg))
}

/// Whether `netlink_autobind` can pick a port for the socket `nlk` when it
/// starts from `portid`: the socket is not bound, port 1 is free, and port
/// 2 is free if `portid` is taken.
pub open spec fn autobind_defined(t: NetlinkTableView, nlk: int, portid: u32) -> bool {
    let inner = t.socks[nlk].inner;
    let ports = t.items[inner.protocol as int].ports;
    &&& !inner.bound
    &&& !ports.contains_key(1)
    &&& ports.contains_key(portid) ==> !ports.contains_key(2)
}

/// Picks a port for the socket `nlk` as `netlink_autobind` does, if it can,
/// and says whether it did; if not, nothing changes.
pub fn try_netlink_autobind(nl_table: &mut NetlinkTable, nlk: usize, portid: &mut u32) -> (r: bool)
    requires
        old(nl_table).wf(),
        nlk < old(nl_table)@.socks.len(),
        old(nl_table)@.socks[nlk as int].inner.protocol < MAX_LINKS,
    ensures
        final(nl_table).wf(),
        r == autobind_defined(old(nl_table)@, nlk as int, *old(portid)),
        r ==> *final(portid) == autobind_port(
            old(nl_table)@.items[old(nl_table)@.socks[nlk as int].inner.protocol as int].ports,
            *old(portid),
        ) && final(nl_table)@ == after_insert(old(nl_table)@, nlk as int, *final(portid)),
        !r ==> *final(portid) == *old(portid) && final(nl_table)@ == old(nl_table)@,
{
    let protocol = nl_table.sock(nlk).inner.protocol;
    if nl_table.sock(nlk).inner.bound {
        return false;
    }
    if netlink_lookup(nl_table, protocol, 1).is_some() {
        return false;
    }
    if netlink_lookup(nl_table, protocol, *portid).is_some() && netlink_lookup(
        nl_table,
        protocol,
        2,
    ).is_some() {
        return false;
    }
    netlink_autobind(nl_table, nlk, portid);
    true
}

impl NetlinkSock {
    /// Whether `netlink_bind` can bind the socket `sk` to `addr`.
    pub fn can_bind(nl_table: &NetlinkTable, sk: usize, addr: &SockAddrNl) -> (r: bool)
        requires
            nl_table.wf(),
            sk < nl_table@.socks.len(),
            nl_table@.socks[sk as int].inner.protocol < MAX_LINKS,
        ensures
            r == bind_defined(nl_table@, sk as int, *addr),
    {
        proof {
            nl_table.lemma_views();
        }
        match addr.nl_family {
            AddressFamily::Netlink => {},
            _ => {
                return true;
            },
        }
        let ghost t = nl_table@;
        let ghost t2 = bind_groups_stage(t, sk as int, *addr);
        let ghost bound = bind_port_stage(t2, sk as int, *addr);
        let inner = nl_table.socks[sk].inner;
        let protocol = inner.protocol;
        let item = &nl_table.items[protocol];
        if addr.nl_groups != 0 && item.registered == 0 {
            return false;
        }
        let mut ngroups = inner.ngroups;
        let mut groups = inner.groups;
        if addr.nl_groups != 0 {
            let asked = addr.nl_groups.count_ones();
            if asked >= item.groups {
                ngroups = asked;
            } else {
                ngroups = item.groups;
                if asked == 0 {
                    groups = [0; 32];
                    assert(groups@ =~= no_groups());
                }
            }
        }
        assert(t2.socks[sk as int].inner.ngroups == ngroups);
        assert(t2.socks[sk as int].inner.groups == groups@);
        assert(t2.socks[sk as int].inner.bound == inner.bound);
        assert(t2.socks[sk as int].inner.subscriptions == inner.subscriptions);
        assert(t2.socks[sk as int].inner.protocol == protocol);
        assert(t2.items == t.items);
        if !inner.bound && addr.nl_pid == 0 {
            if item.hash.contains_key(1) || (item.hash.contains_key(0) && item.hash.contains_key(
                2,
            )) {
                return false;
            }
        }
        let bound_ok = if inner.bound {
            true
        } else if addr.nl_pid != 0 {
            !item.hash.contains_key(addr.nl_pid)
        } else {
            true
        };
        assert(bound_ok == (bound.0 is Ok));
        if !bound_ok {
            return true;
        }
        assert(bound.1.socks[sk as int].inner.groups == groups@);
        assert(bound.1.socks[sk as int].inner.ngroups == ngroups);
        assert(bound.1.socks[sk as int].inner.subscriptions == inner.subscriptions);
        assert(bound.1.socks[sk as int].inner.protocol == protocol);
        assert(bound.1.items[protocol as int].listeners == t.items[protocol as int].listeners);
        if addr.nl_groups == 0 && groups[0] == 0 {
            return true;
        }
        let joining = addr.nl_groups.count_ones();
        let leaving = groups[0].count_ones();
        if joining > u32::MAX - inner.subscriptions || inner.subscriptions + joining < leaving {
            return false;
        }
        if item.listeners.is_none() {
            return false;
        }
        let mut first = addr.nl_groups;
        if ngroups < 32 {
            assert((1u32 << ngroups) >= 1) by (bit_vector)
                requires
                    ngroups < 32,
            ;
            first = first & ((1u32 << ngroups) - 1);
        }
        assert(first == masked_groups(addr.nl_groups, ngroups));
        let ghost joined = bind_subscribe_stage_joined(bound.1, sk as int, *addr);
        assert(joined.socks[sk as int].inner.groups == groups@.update(0, first));
        assert(joined.socks[sk as int].inner.ngroups == ngroups);
        assert(joined.socks[sk as int].inner.protocol == protocol);
        assert(joined.items[protocol as int].listeners == t.items[protocol as int].listeners);
        groups[0] = first;
        assert(joined.items[protocol as int].listeners is Some);
        assert(bind_defined(nl_table@, sk as int, *addr) == listeners_fit(joined, sk as int));
        let mut i: usize = 0;
        while i < 32
            invariant
                i <= 32,
                sk < joined.socks.len(),
                joined.socks[sk as int].inner.protocol < joined.items.len(),
                bind_defined(nl_table@, sk as int, *addr) == listeners_fit(joined, sk as int),
                joined.socks[sk as int].inner.groups == groups@,
                joined.socks[sk as int].inner.ngroups == ngroups,
                joined.items[joined.socks[sk as int].inner.protocol as int].listeners is Some,
                forall|j: int| 0 <= j < i ==> (#[trigger] groups@[j]) / 64 < ngroups,
            decreases 32 - i,
        {
            if groups[i] / 64 >= ngroups {
                assert(!listeners_fit(joined, sk as int));
                return false;
            }
            i += 1;
        }
        assert(listeners_fit(joined, sk as int));
        true
    }

    /// Whether `netlink_setsockopt` can carry out the option on the socket
    /// `sk`.
    pub fn can_setsockopt(
        nl_table: &NetlinkTable,
        sk: usize,
        level: PSOL,
        optname: usize,
        optval: &[u8],
    ) -> (r: bool)
        requires
            nl_table.wf(),
            sk < nl_table@.socks.len(),
            nl_table@.socks[sk as int].inner.protocol < MAX_LINKS,
        ensures
            r == sockopt_defined(nl_table@, sk as int, level, optname, optval@),
    {
        proof {
            nl_table.lemma_views();
        }
        match level {
            PSOL::NETLINK => {},
            _ => {
                return true;
            },
        }
        if optval.len() < 8 {
            return true;
        }
        if optname == NETLINK_PKTINFO {
            return false;
        }
        if optname == NETLINK_ADD_MEMBERSHIP || optname == NETLINK_DROP_MEMBERSHIP {
            let val = read_le(optval, 0, 8);
            assert(optval@.skip(0) =~= optval@);
            let protocol = nl_table.socks[sk].inner.protocol;
            match &nl_table.items[protocol].listeners {
                Some(listeners) => {
                    let words = listeners.masks.len();
                    val >= 1 && (val - 1) / 64 < words as u64
                },
                None => false,
            }
        } else {
            true
        }
    }

    /// Binds a copy of the socket to `endpoint` as `bind` does, if it can;
    /// if not, returns nothing and leaves the table as it is.
    pub fn try_bind(&self, nl_table: &mut NetlinkTable, endpoint: Endpoint) -> (r: Option<
        Result<(), SystemError>,
    >)
        requires
            old(nl_table).wf(),
            self@.inner.protocol < MAX_LINKS,
        ensures
            final(nl_table).wf(),
            match endpoint {
                Endpoint::Netlink(ep) => {
                    let staged = with_new_sock(old(nl_table)@, self@);
                    let sk = old(nl_table)@.socks.len() as int;
                    if bind_defined(staged, sk, ep.addr) {
                        r == Some(bind_spec(staged, sk, ep.addr).0) && final(nl_table)@
                            == bind_spec(staged, sk, ep.addr).1
                    } else {
                        r is None && final(nl_table)@ == old(nl_table)@
                    }
                },
                _ => r == Some(Err::<(), SystemError>(SystemError::EINVAL)) && final(nl_table)@
                    == old(nl_table)@,
            },
    {
        match endpoint {
            Endpoint::Netlink(netlinkendpoint) => {
                let addr = netlinkendpoint.addr;
                let sock = nl_table.add_sock(self.clone());
                if Self::can_bind(nl_table, sock, &addr) {
                    Some(Self::netlink_bind(nl_table, sock, &addr))
                } else {
                    let ghost staged = nl_table@;
                    let ghost staged_socks = nl_table.socks@;
                    let ghost staged_items = nl_table.items@;
                    proof {
                        nl_table.lemma_views();
                    }
                    let _ = nl_table.socks.pop();
                    proof {
                        nl_table.lemma_views();
                        assert forall|i: int| 0 <= i < nl_table@.socks.len() implies nl_table@.socks[i]
                            == old(nl_table)@.socks[i] by {
                            assert(nl_table.socks@[i] == staged_socks[i]);
                            assert(staged.socks[i] == staged_socks[i]@);
                        }
                        assert(nl_table@.socks =~= old(nl_table)@.socks);
                        assert forall|i: int| 0 <= i < nl_table@.items.len() implies nl_table@.items[i]
                            == old(nl_table)@.items[i] by {
                            assert(nl_table.items@[i] == staged_items[i]);
                            assert(staged.items[i] == staged_items[i]@);
                        }
                        assert(nl_table@.items =~= old(nl_table)@.items);
                    }
                    None
                }
            },
            _ => Some(Err(SystemError::EINVAL)),
        }
    }

    /// Binds the socket `sk` to `addr` as `netlink_bind` does, if it can;
    /// if not, returns nothing and leaves the table as it is.
    pub fn try_netlink_bind(nl_table: &mut NetlinkTable, sk: usize, addr: &SockAddrNl) -> (r:
        Option<Result<(), SystemError>>)
        requires
            old(nl_table).wf(),
            sk < old(nl_table)@.socks.len(),
            old(nl_table)@.socks[sk as int].inner.protocol < MAX_LINKS,
        ensures
            final(nl_table).wf(),
            bind_defined(old(nl_table)@, sk as int, *addr) ==> r == Some(
                bind_spec(old(nl_table)@, sk as int, *addr).0,
            ) && final(nl_table)@ == bind_spec(old(nl_table)@, sk as int, *addr).1,
            !bind_defined(old(nl_table)@, sk as int, *addr) ==> r is None && final(nl_table)@
                == old(nl_table)@,
    {
        if Self::can_bind(nl_table, sk, addr) {
            Some(Self::netlink_bind(nl_table, sk, addr))
        } else {
            None
        }
    }
}

} // verus!
