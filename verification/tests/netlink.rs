use kernel_core::error::SystemError;
use kernel_core::netlink::af_netlink::initialize_netlink_table;
use kernel_core::netlink::af_netlink::netlink_autobind;
use kernel_core::netlink::af_netlink::netlink_insert;
use kernel_core::netlink::af_netlink::netlink_lookup;
use kernel_core::netlink::af_netlink::netlink_proto_init;
use kernel_core::netlink::af_netlink::try_netlink_autobind;
use kernel_core::netlink::af_netlink::try_netlink_kernel_create;
use kernel_core::netlink::af_netlink::Listeners;
use kernel_core::netlink::af_netlink::NetlinkBroadcastData;
use kernel_core::netlink::af_netlink::NetlinkFlags;
use kernel_core::netlink::af_netlink::NetlinkSock;
use kernel_core::netlink::af_netlink::NetlinkSockinner;
use kernel_core::netlink::af_netlink::NetlinkTable;
use kernel_core::netlink::af_netlink::NetlinkTableItem;
use kernel_core::netlink::create_netlink_socket;
use kernel_core::netlink::endpoint::AddressFamily;
use kernel_core::netlink::endpoint::Endpoint;
use kernel_core::netlink::endpoint::NetlinkEndpoint;
use kernel_core::netlink::endpoint::SockAddrNl;
use kernel_core::netlink::netlink_kernel_create;
use kernel_core::netlink::netlink_proto::netlink_protocol::KOBJECT_UEVENT;
use kernel_core::netlink::netlink_proto::netlink_protocol::ROUTE;
use kernel_core::netlink::read_le;
use kernel_core::netlink::skbuff::netlink_overrun;
use kernel_core::netlink::skbuff::SkBuff;
use kernel_core::netlink::BindCallback;
use kernel_core::netlink::CompareCallback;
use kernel_core::netlink::CompareHandler;
use kernel_core::netlink::GroupHandler;
use kernel_core::netlink::InputCallback;
use kernel_core::netlink::InputHandler;
use kernel_core::netlink::NLmsghdr;
use kernel_core::netlink::Netlink;
use kernel_core::netlink::NetlinkKernelCfg;
use kernel_core::netlink::NetlinkState;
use kernel_core::netlink::VecExt;
use kernel_core::netlink::__netlink_create;
use kernel_core::netlink::MAX_LINKS;
use kernel_core::netlink::NETLINK_ADD_MEMBERSHIP;
use kernel_core::netlink::NETLINK_DROP_MEMBERSHIP;
use kernel_core::netlink::NETLINK_PKTINFO;
use kernel_core::netlink::NLMSG_DONE;
use kernel_core::netlink::NLM_F_MULTI;
use kernel_core::netlink::PMSG_OOB;
use kernel_core::netlink::PSOL;
use std::sync::Arc;

fn addr(pid: u32, groups: u32) -> SockAddrNl {
    SockAddrNl { nl_family: AddressFamily::Netlink, nl_pad: 0, nl_pid: pid, nl_groups: groups }
}

fn endpoint(pid: u32) -> Endpoint {
    Endpoint::Netlink(NetlinkEndpoint { addr: addr(pid, 0) })
}

fn kernel_header(len: u64, seq: u32, pid: u32, flags: u16, kind: u8) -> Vec<u8> {
    let mut out = Vec::new();
    out.extend_from_slice(&len.to_le_bytes());
    out.extend_from_slice(&seq.to_le_bytes());
    out.extend_from_slice(&pid.to_le_bytes());
    out.extend_from_slice(&flags.to_le_bytes());
    out.push(kind);
    out.extend_from_slice(&[0u8; 5]);
    out
}

fn uevent_sock(table: &mut NetlinkTable) -> usize {
    table.add_sock(NetlinkSock::new(Some(KOBJECT_UEVENT)))
}

/// A socket of the uevent protocol bound to `pid` that has joined group 1.
fn listener(table: &mut NetlinkTable, pid: u32) -> usize {
    let sk = uevent_sock(table);
    assert_eq!(NetlinkSock::netlink_bind(table, sk, &addr(pid, 1)), Ok(()));
    sk
}

struct Twice;

impl GroupHandler for Twice {
    fn call(&self, group: i32) -> i32 {
        2 * group
    }
}

struct Always;

impl CompareHandler for Always {
    fn call(&self, _sock: &NetlinkSock) -> bool {
        true
    }
}

struct Nothing;

impl InputHandler for Nothing {
    fn call(&self) {}
}

#[test]
fn push_ext_writes_the_header_in_24_bytes() {
    let mut v: Vec<u8> = vec![0xaa];
    v.push_ext(NLmsghdr {
        nlmsg_len: 0x0102_0304,
        nlmsg_type: NLMSG_DONE,
        nlmsg_flags: NLM_F_MULTI,
        nlmsg_seq: 0x1122_3344,
        nlmsg_pid: 0x5566_7788,
    });
    let mut expected = vec![0xaa];
    expected.extend_from_slice(&[4, 3, 2, 1, 0, 0, 0, 0]);
    expected.extend_from_slice(&[0x44, 0x33, 0x22, 0x11]);
    expected.extend_from_slice(&[0x88, 0x77, 0x66, 0x55]);
    expected.extend_from_slice(&[2, 0]);
    expected.push(3);
    expected.extend_from_slice(&[0, 0, 0, 0, 0]);
    assert_eq!(v, expected);
    assert_eq!(v.len(), 25);
}

#[test]
fn align_pads_to_a_multiple_of_four() {
    let mut v: Vec<u8> = Vec::new();
    v.align();
    assert_eq!(v, Vec::<u8>::new());
    let mut v: Vec<u8> = vec![1];
    v.align();
    assert_eq!(v, vec![1, 0, 0, 0]);
    v.align();
    assert_eq!(v, vec![1, 0, 0, 0]);
    let mut v: Vec<u8> = vec![1, 2, 3, 4, 5, 6, 7];
    v.align();
    assert_eq!(v, vec![1, 2, 3, 4, 5, 6, 7, 0]);
}

#[test]
fn set_ext_writes_four_bytes_and_grows_the_buffer() {
    let mut v: Vec<u8> = vec![9, 9, 9, 9, 9, 9];
    v.set_ext(1, 0x0a0b_0c0d);
    assert_eq!(v, vec![9, 0x0d, 0x0c, 0x0b, 0x0a, 9]);
    let mut v: Vec<u8> = vec![9, 9];
    v.set_ext(3, 1);
    assert_eq!(v, vec![9, 9, 0, 1, 0, 0, 0]);
    let mut v: Vec<u8> = Vec::new();
    v.set_ext(0, u32::MAX);
    assert_eq!(v, vec![255, 255, 255, 255]);
}

#[test]
fn read_le_reads_lowest_byte_first() {
    let bytes = [1u8, 2, 3, 4, 5, 6, 7, 8, 9];
    assert_eq!(read_le(&bytes, 0, 4), 0x0403_0201);
    assert_eq!(read_le(&bytes, 1, 8), 0x0908_0706_0504_0302);
    assert_eq!(read_le(&bytes, 8, 1), 9);
    assert_eq!(read_le(&bytes, 3, 0), 0);
    assert_eq!(read_le(&[255u8; 8], 0, 8), u64::MAX);
}

#[test]
fn a_new_socket() {
    let sock = NetlinkSock::new(Some(7));
    assert_eq!(sock.inner.protocol, 7);
    assert_eq!(sock.inner.portid, 0);
    assert_eq!(sock.inner.ngroups, 0);
    assert_eq!(sock.inner.groups, [0; 32]);
    assert!(!sock.inner.bound);
    assert_eq!(sock.inner.subscriptions, 0);
    assert_eq!(sock.inner.flags, 0);
    assert_eq!(sock.state(), NetlinkState::Unconnected);
    assert!(sock.data().is_empty());
    assert_eq!(sock.sk_rcvbuf(), 0);
    assert_eq!(sock.sk_rmem_alloc(), 0);
    assert_eq!(sock.send_buffer_size(), 0);
    assert_eq!(sock.recv_buffer_size(), 0);
    assert_eq!(NetlinkSock::new(None).inner.protocol, 0);
    assert_eq!(sock.connect(endpoint(1)), Ok(()));
    assert_eq!(sock.netlink_connect(endpoint(1)), Ok(()));
    assert_eq!(sock.close(), Ok(()));
    let copy = sock.clone();
    assert_eq!(copy.inner.protocol, 7);
    assert!(NetlinkSockinner::new(3).equals(&NetlinkSockinner::new(4)));
    let mut other = NetlinkSockinner::new(3);
    other.portid = 1;
    assert!(!NetlinkSockinner::new(3).equals(&other));
}

#[test]
fn only_the_uevent_protocol_has_sockets_for_processes() {
    assert_eq!(create_netlink_socket(KOBJECT_UEVENT).unwrap().inner.protocol, KOBJECT_UEVENT);
    assert_eq!(create_netlink_socket(ROUTE).err(), Some(SystemError::EPROTONOSUPPORT));
    assert_eq!(Netlink::socket(15).unwrap().inner.protocol, 15);
    assert_eq!(Netlink::socket(16).err(), Some(SystemError::EPROTONOSUPPORT));
}

#[test]
fn send_queues_a_framed_message() {
    let mut sock = NetlinkSock::new(Some(KOBJECT_UEVENT));
    let mut data = kernel_header(24, 7, 9, 0, 0x10);
    data.extend_from_slice(b"hello");
    data[0] = 29;
    assert_eq!(sock.netlink_send(&data, endpoint(0)), Ok(29));
    // 24 bytes of header and 29 bytes of data, padded to 56.
    let mut expected = kernel_header(56, 7, 9, NLM_F_MULTI, 0x10);
    expected.extend_from_slice(&data);
    expected.extend_from_slice(&[0, 0, 0]);
    assert_eq!(sock.data(), &vec![expected]);
    assert_eq!(sock.send_to(&data, 0, endpoint(0)), Ok(29));
    assert_eq!(sock.data().len(), 2);
    assert_eq!(sock.data()[0], sock.data()[1]);
}

#[test]
fn send_refuses_bytes_without_a_whole_header() {
    let mut sock = NetlinkSock::new(None);
    assert_eq!(sock.netlink_send(&[0u8; 23], endpoint(0)), Err(SystemError::EINVAL));
    assert_eq!(sock.netlink_send(&[], endpoint(0)), Err(SystemError::EINVAL));
    assert!(sock.data().is_empty());
}

#[test]
fn send_refuses_a_header_that_claims_more_bytes_than_there_are() {
    let mut sock = NetlinkSock::new(None);
    let data = kernel_header(25, 0, 0, 0, 0);
    assert_eq!(sock.netlink_send(&data, endpoint(0)), Err(SystemError::ENAVAIL));
    let data = kernel_header(u64::MAX, 0, 0, 0, 0);
    assert_eq!(sock.netlink_send(&data, endpoint(0)), Err(SystemError::ENAVAIL));
    assert!(sock.data().is_empty());
    let data = kernel_header(3, 0, 0, 0, 0);
    assert_eq!(sock.netlink_send(&data, endpoint(0)), Ok(24));
}

#[test]
fn recv_takes_the_oldest_message() {
    let mut sock = NetlinkSock::new(Some(KOBJECT_UEVENT));
    sock.inner.portid = 42;
    let first = kernel_header(24, 1, 0, 0, 0);
    let second = kernel_header(24, 2, 0, 0, 0);
    sock.netlink_send(&first, endpoint(0)).unwrap();
    sock.netlink_send(&second, endpoint(0)).unwrap();
    let queued = sock.data().clone();
    let mut buf = [0xeeu8; 64];
    let (n, from) = sock.netlink_recv(&mut buf, 0).unwrap();
    assert_eq!(n, 48);
    assert_eq!(&buf[..48], &queued[0][..]);
    assert_eq!(&buf[48..], &[0xeeu8; 16][..]);
    match from {
        Endpoint::Netlink(ep) => {
            assert_eq!(ep.addr.nl_family, AddressFamily::Netlink);
            assert_eq!(ep.addr.nl_pid, 42);
            assert_eq!(ep.addr.nl_groups, 0);
            assert_eq!(ep.addr.nl_pad, 0);
        }
        _ => panic!("not a netlink endpoint"),
    }
    assert_eq!(sock.data(), &vec![queued[1].clone()]);
    // A buffer that is too small gets the start of the message.
    let mut small = [0u8; 10];
    let (n, _) = sock.recv_from(&mut small, 0, None).unwrap();
    assert_eq!(n, 10);
    assert_eq!(&small[..], &queued[1][..10]);
    assert!(sock.data().is_empty());
}

#[test]
fn recv_without_a_message_reports_no_buffers() {
    let mut sock = NetlinkSock::new(None);
    let mut buf = [7u8; 8];
    assert_eq!(sock.netlink_recv(&mut buf, 0).err(), Some(SystemError::ENOBUFS));
    assert_eq!(buf, [7u8; 8]);
}

#[test]
fn recv_of_out_of_band_data_is_not_supported_and_drops_the_message() {
    let mut sock = NetlinkSock::new(None);
    sock.netlink_send(&kernel_header(24, 1, 0, 0, 0), endpoint(0)).unwrap();
    let mut buf = [7u8; 8];
    assert_eq!(
        sock.netlink_recv(&mut buf, PMSG_OOB).err(),
        Some(SystemError::EOPNOTSUPP_OR_ENOTSUP)
    );
    assert_eq!(buf, [7u8; 8]);
    assert!(sock.data().is_empty());
}

#[test]
fn sendskb_queues_the_segments_behind_a_header() {
    let mut sock = NetlinkSock::new(None);
    let mut skb = SkBuff::new(None);
    skb.inner.push(b"ACTION=add".to_vec());
    skb.inner.push(b"\0SEQ".to_vec());
    // 14 bytes of segments, padded to 16, behind 24 bytes of header.
    assert_eq!(sock.netlink_sendskb(&skb), 40);
    let mut expected = kernel_header(40, 0, 0, NLM_F_MULTI, NLMSG_DONE);
    expected.extend_from_slice(b"ACTION=add\0SEQ\0\0");
    assert_eq!(sock.data(), &vec![expected]);
}

#[test]
fn sendskb_of_an_empty_buffer_queues_a_bare_header() {
    let mut sock = NetlinkSock::new(None);
    assert_eq!(sock.netlink_sendskb(&SkBuff::new(None)), 24);
    assert_eq!(sock.data(), &vec![kernel_header(24, 0, 0, NLM_F_MULTI, NLMSG_DONE)]);
}

#[test]
fn socket_buffers() {
    let mut skb = SkBuff::new(Some(3));
    assert!(skb.inner.is_empty());
    assert_eq!(skb.sk.inner.protocol, 3);
    assert_eq!(SkBuff::new(None).sk.inner.protocol, 0);
    let mut owner = NetlinkSock::new(Some(5));
    owner.inner.portid = 77;
    skb.netlink_skb_set_owner_r(Arc::new(owner));
    assert_eq!(skb.sk.inner.portid, 77);
    assert!(!skb.sk_filter(&NetlinkSock::new(None)));
    assert!(!skb.skb_shared());
    skb.skb_orphan();
    netlink_overrun(&NetlinkSock::new(None));
    skb.inner.push(vec![1, 2, 3]);
    let copy = skb.clone();
    assert_eq!(copy.inner, vec![vec![1, 2, 3]]);
    assert_eq!(copy.sk.inner.portid, 77);
}

#[test]
fn the_table_at_start() {
    let table = initialize_netlink_table();
    assert_eq!(table.sock_count(), 0);
    for i in 0..MAX_LINKS {
        let item = table.item(i);
        assert_eq!(item.get_registered(), if i == KOBJECT_UEVENT { 1 } else { 0 });
        assert_eq!(item.get_groups(), 32);
        assert_eq!(item.get_flags(), 0);
        assert_eq!(item.get_listeners().unwrap().masks(), &vec![0u64; 32]);
        assert!(item.bind.is_none());
        assert!(item.unbind.is_none());
        assert!(item.compare.is_none());
        assert_eq!(netlink_lookup(&table, i, 0), None);
    }
    assert_eq!(Listeners::new().masks(), &vec![0u64; 32]);
}

#[test]
fn table_items_can_be_set() {
    let mut item = NetlinkTableItem::new();
    item.set_registered(3);
    item.set_flags(5);
    item.set_groups(64);
    assert_eq!(item.get_registered(), 3);
    assert_eq!(item.get_flags(), 5);
    assert_eq!(item.get_groups(), 64);
}

#[test]
fn insert_binds_a_socket_to_a_port() {
    let mut table = initialize_netlink_table();
    let a = uevent_sock(&mut table);
    let b = uevent_sock(&mut table);
    assert_eq!((a, b), (0, 1));
    assert_eq!(netlink_insert(&mut table, a, 100), Ok(()));
    assert_eq!(netlink_lookup(&table, KOBJECT_UEVENT, 100), Some(a));
    assert_eq!(netlink_lookup(&table, KOBJECT_UEVENT, 101), None);
    assert_eq!(netlink_lookup(&table, ROUTE, 100), None);
    assert_eq!(table.sock(a).inner.portid, 100);
    assert!(table.sock(a).inner.bound);
    // The port is taken.
    assert_eq!(netlink_insert(&mut table, b, 100), Err(SystemError::EADDRINUSE));
    assert_eq!(netlink_lookup(&table, KOBJECT_UEVENT, 100), Some(a));
    assert!(!table.sock(b).inner.bound);
    // A bound socket cannot be bound again.
    assert_eq!(netlink_insert(&mut table, a, 200), Err(SystemError::EADDRINUSE));
    assert_eq!(netlink_lookup(&table, KOBJECT_UEVENT, 200), None);
    assert_eq!(netlink_insert(&mut table, b, 200), Ok(()));
    assert_eq!(netlink_lookup(&table, KOBJECT_UEVENT, 200), Some(b));
    assert_eq!(netlink_lookup(&table, KOBJECT_UEVENT, 100), Some(a));
}

#[test]
fn insert_at_port_zero_leaves_the_socket_unbound() {
    let mut table = initialize_netlink_table();
    let a = uevent_sock(&mut table);
    assert_eq!(netlink_insert(&mut table, a, 0), Ok(()));
    assert_eq!(netlink_lookup(&table, KOBJECT_UEVENT, 0), Some(a));
    assert!(!table.sock(a).inner.bound);
    assert_eq!(netlink_insert(&mut table, a, 5), Ok(()));
    assert_eq!(netlink_lookup(&table, KOBJECT_UEVENT, 5), Some(a));
    assert!(table.sock(a).inner.bound);
}

#[test]
fn proto_init_empties_the_port_maps() {
    let mut table = initialize_netlink_table();
    let a = uevent_sock(&mut table);
    netlink_insert(&mut table, a, 9).unwrap();
    assert_eq!(netlink_proto_init(&mut table), Ok(()));
    assert_eq!(netlink_lookup(&table, KOBJECT_UEVENT, 9), None);
    assert_eq!(table.item(KOBJECT_UEVENT).get_registered(), 1);
    assert_eq!(table.sock_count(), 1);
}

#[test]
fn autobind_picks_port_one_or_two() {
    let mut table = initialize_netlink_table();
    let a = uevent_sock(&mut table);
    let mut port = 500;
    netlink_autobind(&mut table, a, &mut port);
    assert_eq!(port, 1);
    assert_eq!(netlink_lookup(&table, KOBJECT_UEVENT, 1), Some(a));
    assert_eq!(table.sock(a).inner.portid, 1);

    let mut table = initialize_netlink_table();
    let a = uevent_sock(&mut table);
    let b = uevent_sock(&mut table);
    netlink_insert(&mut table, a, 500).unwrap();
    let mut port = 500;
    netlink_autobind(&mut table, b, &mut port);
    assert_eq!(port, 2);
    assert_eq!(netlink_lookup(&table, KOBJECT_UEVENT, 2), Some(b));
    assert_eq!(netlink_lookup(&table, KOBJECT_UEVENT, 1), None);
}

#[test]
fn bind_to_a_port_without_groups() {
    let mut table = initialize_netlink_table();
    let a = uevent_sock(&mut table);
    assert_eq!(NetlinkSock::netlink_bind(&mut table, a, &addr(77, 0)), Ok(()));
    assert_eq!(netlink_lookup(&table, KOBJECT_UEVENT, 77), Some(a));
    let inner = table.sock(a).inner;
    assert_eq!(inner.portid, 77);
    assert!(inner.bound);
    assert_eq!(inner.ngroups, 0);
    assert_eq!(inner.subscriptions, 0);
    assert_eq!(table.item(KOBJECT_UEVENT).get_listeners().unwrap().masks(), &vec![0u64; 32]);
}

#[test]
fn bind_of_another_family_is_invalid() {
    let mut table = initialize_netlink_table();
    let a = uevent_sock(&mut table);
    let other = SockAddrNl { nl_family: AddressFamily::INet, nl_pad: 0, nl_pid: 77, nl_groups: 0 };
    assert_eq!(NetlinkSock::netlink_bind(&mut table, a, &other), Err(SystemError::EINVAL));
    assert_eq!(netlink_lookup(&table, KOBJECT_UEVENT, 77), None);
    assert_eq!(table.sock(a).inner.portid, 77);
    assert!(!table.sock(a).inner.bound);
}

#[test]
fn bind_to_a_taken_port_reports_the_address_in_use() {
    let mut table = initialize_netlink_table();
    let a = uevent_sock(&mut table);
    let b = uevent_sock(&mut table);
    assert_eq!(NetlinkSock::netlink_bind(&mut table, a, &addr(77, 0)), Ok(()));
    assert_eq!(NetlinkSock::netlink_bind(&mut table, b, &addr(77, 0)), Err(SystemError::EADDRINUSE));
    assert_eq!(netlink_lookup(&table, KOBJECT_UEVENT, 77), Some(a));
}

#[test]
fn bind_with_port_zero_picks_a_port() {
    let mut table = initialize_netlink_table();
    let a = uevent_sock(&mut table);
    assert_eq!(NetlinkSock::netlink_bind(&mut table, a, &addr(0, 0)), Ok(()));
    assert_eq!(table.sock(a).inner.portid, 1);
    assert_eq!(netlink_lookup(&table, KOBJECT_UEVENT, 1), Some(a));
}

#[test]
fn bind_with_groups_subscribes_the_socket() {
    let mut table = initialize_netlink_table();
    let a = uevent_sock(&mut table);
    assert_eq!(NetlinkSock::netlink_bind(&mut table, a, &addr(100, 0b101)), Ok(()));
    let inner = table.sock(a).inner;
    assert_eq!(inner.portid, 100);
    assert!(inner.bound);
    // Two groups were asked for; the protocol has 32.
    assert_eq!(inner.ngroups, 32);
    assert_eq!(inner.groups[0], 0b101);
    assert_eq!(inner.groups[1], 0);
    assert_eq!(inner.subscriptions, 2);
    // The groups of the socket are 5 and, 31 times, 0.
    let masks = table.item(KOBJECT_UEVENT).get_listeners().unwrap().masks().clone();
    let mut expected = vec![0u64; 32];
    expected[0] = (1 << 5) | 1;
    assert_eq!(masks, expected);
    assert_eq!(table.sock(a).netlink_has_listeners(&table, 1), 33);
    assert_eq!(table.sock(a).netlink_has_listeners(&table, 2), 0);
    assert_eq!(table.sock(a).netlink_has_listeners(&table, 0), 0);
    assert_eq!(table.sock(a).netlink_has_listeners(&table, 33), 0);
}

#[test]
fn bind_of_a_copy_through_an_endpoint() {
    let mut table = initialize_netlink_table();
    let sock = NetlinkSock::new(Some(KOBJECT_UEVENT));
    let ep = Endpoint::Netlink(NetlinkEndpoint { addr: addr(31, 0) });
    assert_eq!(sock.bind(&mut table, ep), Ok(()));
    assert_eq!(table.sock_count(), 1);
    assert_eq!(netlink_lookup(&table, KOBJECT_UEVENT, 31), Some(0));
    assert_eq!(table.sock(0).inner.portid, 31);
    assert_eq!(sock.inner.portid, 0);
    assert_eq!(sock.bind(&mut table, Endpoint::Ip(80)), Err(SystemError::EINVAL));
    assert_eq!(table.sock_count(), 1);
}

#[test]
fn has_listeners_reads_the_masks_of_the_protocol() {
    let table = initialize_netlink_table();
    let sock = NetlinkSock::new(Some(KOBJECT_UEVENT));
    assert_eq!(sock.netlink_has_listeners(&table, 1), 0);
    let mut stray = NetlinkSock::new(None);
    stray.inner.protocol = MAX_LINKS;
    assert_eq!(stray.netlink_has_listeners(&table, 1), 0);
}

#[test]
fn realloc_groups_needs_a_registered_protocol() {
    let mut table = initialize_netlink_table();
    let r = table.add_sock(NetlinkSock::new(Some(ROUTE)));
    assert_eq!(NetlinkSock::netlink_realloc_groups(&mut table, r), Err(SystemError::ENOENT));
    assert_eq!(table.sock(r).inner.ngroups, 0);
    let u = uevent_sock(&mut table);
    table.sock_mut(u).inner.groups[3] = 9;
    assert_eq!(NetlinkSock::netlink_realloc_groups(&mut table, u), Ok(()));
    assert_eq!(table.sock(u).inner.ngroups, 32);
    // A socket without room for groups starts with none.
    assert_eq!(table.sock(u).inner.groups, [0; 32]);
    table.sock_mut(u).inner.groups[3] = 9;
    table.sock_mut(u).inner.ngroups = 4;
    assert_eq!(NetlinkSock::netlink_realloc_groups(&mut table, u), Ok(()));
    assert_eq!(table.sock(u).inner.ngroups, 32);
    assert_eq!(table.sock(u).inner.groups[3], 9);
    assert_eq!(NetlinkSock::netlink_realloc_groups(&mut table, u), Ok(()));
    assert_eq!(table.sock(u).inner.ngroups, 32);
}

#[test]
fn update_listeners_enters_the_groups_of_the_socket() {
    let mut table = initialize_netlink_table();
    let u = uevent_sock(&mut table);
    table.sock_mut(u).inner.ngroups = 3;
    table.sock_mut(u).inner.groups[0] = 70;
    table.sock_mut(u).inner.groups[1] = 130;
    table.sock_mut(u).inner.groups[2] = 63;
    NetlinkSock::netlink_update_listeners(&mut table, u);
    let masks = table.item(KOBJECT_UEVENT).get_listeners().unwrap().masks().clone();
    assert_eq!(masks, vec![(1u64 << 63) | 1, 1 << 6, 1 << 2]);
}

#[test]
fn setsockopt_joins_and_leaves_a_group() {
    let mut table = initialize_netlink_table();
    let u = uevent_sock(&mut table);
    let mut val = 70u64.to_le_bytes().to_vec();
    val.push(0xff);
    assert_eq!(
        NetlinkSock::netlink_setsockopt(&mut table, u, PSOL::NETLINK, NETLINK_ADD_MEMBERSHIP, &val),
        Ok(())
    );
    let masks = table.item(KOBJECT_UEVENT).get_listeners().unwrap().masks().clone();
    assert_eq!(masks[1], 1 << 5);
    assert_eq!(masks[0], 0);
    let one = 1u64.to_le_bytes();
    assert_eq!(
        NetlinkSock::set_option(&mut table, u, PSOL::NETLINK, NETLINK_ADD_MEMBERSHIP, &one),
        Ok(())
    );
    assert_eq!(table.sock(u).netlink_has_listeners(&table, 1), 1);
    assert_eq!(
        NetlinkSock::netlink_setsockopt(&mut table, u, PSOL::NETLINK, NETLINK_DROP_MEMBERSHIP, &val),
        Ok(())
    );
    let masks = table.item(KOBJECT_UEVENT).get_listeners().unwrap().masks().clone();
    assert_eq!(masks[1], 0);
    assert_eq!(masks[0], 1);
}

#[test]
fn setsockopt_refuses_other_levels_short_values_and_other_options() {
    let mut table = initialize_netlink_table();
    let u = uevent_sock(&mut table);
    let one = 1u64.to_le_bytes();
    assert_eq!(
        NetlinkSock::netlink_setsockopt(&mut table, u, PSOL::SOCKET, NETLINK_ADD_MEMBERSHIP, &one),
        Err(SystemError::ENOPROTOOPT)
    );
    assert_eq!(
        NetlinkSock::netlink_setsockopt(&mut table, u, PSOL::NETLINK, NETLINK_ADD_MEMBERSHIP, &one[..7]),
        Err(SystemError::EINVAL)
    );
    assert_eq!(
        NetlinkSock::netlink_setsockopt(&mut table, u, PSOL::NETLINK, 9, &one),
        Err(SystemError::ENOPROTOOPT)
    );
    assert_eq!(table.item(KOBJECT_UEVENT).get_listeners().unwrap().masks(), &vec![0u64; 32]);
}

#[test]
fn update_subscriptions_keeps_the_multicast_set() {
    let mut table = initialize_netlink_table();
    let sender = uevent_sock(&mut table);
    let a = listener(&mut table, 100);
    let mut skb = SkBuff::new(None);
    skb.inner.push(b"one".to_vec());
    assert_eq!(
        NetlinkSock::netlink_broadcast(&mut table, sender, skb.clone(), 0, 1),
        Err(SystemError::ESRCH)
    );
    assert_eq!(table.sock(a).data().len(), 1);
    // With no subscription left the socket leaves the multicast set.
    NetlinkSock::netlink_update_subscriptions(&mut table, a, 0);
    assert_eq!(table.sock(a).inner.subscriptions, 0);
    NetlinkSock::netlink_broadcast(&mut table, sender, skb.clone(), 0, 1).unwrap_err();
    assert_eq!(table.sock(a).data().len(), 1);
    // And enters it again with its first.
    NetlinkSock::netlink_update_subscriptions(&mut table, a, 3);
    assert_eq!(table.sock(a).inner.subscriptions, 3);
    NetlinkSock::netlink_broadcast(&mut table, sender, skb, 0, 1).unwrap_err();
    assert_eq!(table.sock(a).data().len(), 2);
}

#[test]
fn broadcast_reaches_the_subscribers_but_not_the_sender() {
    let mut table = initialize_netlink_table();
    let sender = listener(&mut table, 10);
    let a = listener(&mut table, 100);
    let b = listener(&mut table, 200);
    let quiet = uevent_sock(&mut table);
    NetlinkSock::netlink_bind(&mut table, quiet, &addr(300, 0)).unwrap();
    let mut skb = SkBuff::new(None);
    skb.inner.push(b"add@/dev".to_vec());
    assert_eq!(
        NetlinkSock::netlink_broadcast(&mut table, sender, skb, 200, 1),
        Err(SystemError::ESRCH)
    );
    let mut expected = kernel_header(32, 0, 0, NLM_F_MULTI, NLMSG_DONE);
    expected.extend_from_slice(b"add@/dev");
    assert_eq!(table.sock(a).data(), &vec![expected]);
    // Port 200 was left out, the sender does not hear itself, and a socket
    // in no group is not in the multicast set.
    assert!(table.sock(b).data().is_empty());
    assert!(table.sock(sender).data().is_empty());
    assert!(table.sock(quiet).data().is_empty());
}

#[test]
fn broadcast_to_a_group_beyond_the_room_of_a_socket_reaches_nobody() {
    let mut table = initialize_netlink_table();
    let sender = uevent_sock(&mut table);
    let a = listener(&mut table, 100);
    let mut skb = SkBuff::new(None);
    skb.inner.push(b"x".to_vec());
    assert_eq!(
        NetlinkSock::netlink_broadcast(&mut table, sender, skb, 0, 33),
        Err(SystemError::ESRCH)
    );
    assert!(table.sock(a).data().is_empty());
}

#[test]
fn broadcast_of_an_empty_buffer_fails() {
    let mut table = initialize_netlink_table();
    let sender = uevent_sock(&mut table);
    let a = listener(&mut table, 100);
    assert_eq!(
        NetlinkSock::netlink_broadcast(&mut table, sender, SkBuff::new(None), 0, 1),
        Err(SystemError::ESRCH)
    );
    assert!(table.sock(a).data().is_empty());
    // A receiver with a flag set turns the failure into a lack of buffers.
    table.sock_mut(a).inner.flags = NetlinkFlags::RECV_NO_ENOBUFS;
    assert_eq!(
        NetlinkSock::netlink_broadcast(&mut table, sender, SkBuff::new(None), 0, 1),
        Err(SystemError::ENOBUFS)
    );
}

#[test]
fn broadcast_to_in_the_order_given() {
    let mut table = initialize_netlink_table();
    let sender = uevent_sock(&mut table);
    let a = listener(&mut table, 100);
    let b = listener(&mut table, 200);
    let mut skb = SkBuff::new(None);
    skb.inner.push(b"abcd".to_vec());
    let ports = vec![200, 999, 100, 200];
    assert_eq!(
        NetlinkSock::netlink_broadcast_to(&mut table, sender, &ports, skb, 0, 1),
        Err(SystemError::ESRCH)
    );
    assert_eq!(table.sock(a).data().len(), 1);
    assert_eq!(table.sock(b).data().len(), 2);
}

#[test]
fn one_broadcast_step_by_step() {
    let mut table = initialize_netlink_table();
    let sender = uevent_sock(&mut table);
    let a = listener(&mut table, 100);
    let mut skb = SkBuff::new(None);
    skb.inner.push(b"abcd".to_vec());
    let mut info = NetlinkBroadcastData {
        exclude_sk: sender,
        portid: 0,
        group: 1,
        failure: 0,
        delivery_failure: 0,
        congested: 0,
        delivered: 0,
        skb,
        skb_2: SkBuff::new(None),
    };
    assert_eq!(NetlinkSock::do_one_broadcast(&mut table, a, &mut info), Ok(()));
    assert_eq!(info.delivered, 1);
    assert_eq!(info.failure, 0);
    assert_eq!(info.skb_2.inner, vec![b"abcd".to_vec()]);
    assert_eq!(table.sock(a).data().len(), 1);
    // The sender itself has the port that is left out.
    assert_eq!(NetlinkSock::do_one_broadcast(&mut table, sender, &mut info), Err(SystemError::EINVAL));
    // After a failure nobody receives.
    info.failure = 1;
    assert_eq!(NetlinkSock::do_one_broadcast(&mut table, a, &mut info), Err(SystemError::EINVAL));
    assert_eq!(table.sock(a).data().len(), 1);
    info.failure = 0;
    info.skb_2 = SkBuff::new(None);
    info.copy_skb_to_skb_2();
    assert_eq!(info.skb_2.inner, vec![b"abcd".to_vec()]);
}

#[test]
fn deliver_hands_the_buffer_to_the_socket() {
    let mut table = initialize_netlink_table();
    let a = listener(&mut table, 100);
    let mut skb = SkBuff::new(None);
    skb.inner.push(b"abcd".to_vec());
    assert_eq!(NetlinkSock::netlink_broadcast_deliver(&mut table, a, &mut skb), Ok(0));
    assert_eq!(skb.sk.inner.portid, 100);
    assert_eq!(skb.inner, vec![b"abcd".to_vec()]);
    let mut expected = kernel_header(28, 0, 0, NLM_F_MULTI, NLMSG_DONE);
    expected.extend_from_slice(b"abcd");
    assert_eq!(table.sock(a).data(), &vec![expected]);
}

#[test]
fn kernel_create_binds_port_zero_and_registers_the_protocol() {
    let mut table = initialize_netlink_table();
    let mut cfg = NetlinkKernelCfg::new();
    assert_eq!(cfg.groups, 32);
    cfg.groups = 40;
    cfg.flags = 1;
    cfg.set_bind(BindCallback { handler: Arc::new(Twice) });
    let k = netlink_kernel_create(&mut table, ROUTE, Some(cfg)).unwrap();
    assert_eq!(k, 0);
    assert_eq!(netlink_lookup(&table, ROUTE, 0), Some(k));
    let inner = table.sock(k).inner;
    assert_eq!(inner.protocol, ROUTE);
    assert_eq!(inner.flags, 0x101);
    assert_eq!(inner.portid, 0);
    assert!(!inner.bound);
    let item = table.item(ROUTE);
    assert_eq!(item.get_registered(), 1);
    assert_eq!(item.get_groups(), 40);
    assert_eq!(item.get_flags(), 1);
    assert_eq!(item.bind.as_ref().unwrap().handler.call(21), 42);
    assert!(item.unbind.is_none());
    assert!(item.compare.is_none());
}

#[test]
fn kernel_create_without_parameters() {
    let mut table = initialize_netlink_table();
    let k = netlink_kernel_create(&mut table, 3, None).unwrap();
    assert_eq!(table.item(3).get_registered(), 1);
    assert_eq!(table.item(3).get_groups(), 32);
    assert_eq!(table.sock(k).inner.flags, 0x101);
    // A protocol that is registered keeps its parameters.
    let mut cfg = NetlinkKernelCfg::default();
    assert_eq!(cfg.groups, 0);
    cfg.flags = 9;
    let mut table = initialize_netlink_table();
    netlink_kernel_create(&mut table, KOBJECT_UEVENT, Some(cfg)).unwrap();
    assert_eq!(table.item(KOBJECT_UEVENT).get_flags(), 0);
    assert_eq!(table.item(KOBJECT_UEVENT).get_registered(), 1);
}

#[test]
fn kernel_create_with_few_groups_gets_32() {
    let mut table = initialize_netlink_table();
    let mut cfg = NetlinkKernelCfg::new();
    cfg.groups = 1;
    netlink_kernel_create(&mut table, ROUTE, Some(cfg)).unwrap();
    assert_eq!(table.item(ROUTE).get_groups(), 32);
}

#[test]
fn kernel_create_of_an_unknown_protocol_is_invalid() {
    let mut table = initialize_netlink_table();
    assert_eq!(netlink_kernel_create(&mut table, MAX_LINKS, None), Err(SystemError::EINVAL));
    assert_eq!(table.sock_count(), 0);
}

#[test]
fn netlink_create_sets_flags_and_protocol() {
    let mut table = initialize_netlink_table();
    let a = table.add_sock(NetlinkSock::new(None));
    assert_eq!(__netlink_create(&mut table, a, 9, 1), Ok(0));
    assert_eq!(table.sock(a).inner.protocol, 9);
    assert_eq!(table.sock(a).inner.flags, 1);
}

#[test]
fn callbacks_of_the_parameters_can_be_set() {
    let mut cfg = NetlinkKernelCfg::new();
    cfg.set_input(InputCallback { handler: Arc::new(Nothing) });
    cfg.set_bind(BindCallback { handler: Arc::new(Twice) });
    cfg.set_unbind(BindCallback { handler: Arc::new(Twice) });
    cfg.set_compare(CompareCallback { handler: Arc::new(Always) });
    cfg.input.as_ref().unwrap().handler.call();
    assert_eq!(cfg.bind.as_ref().unwrap().handler.call(2), 4);
    assert_eq!(cfg.unbind.as_ref().unwrap().handler.call(-1), -2);
    assert!(cfg.compare.as_ref().unwrap().handler.call(&NetlinkSock::new(None)));
    assert_eq!(cfg.groups, 32);
    assert_eq!(cfg.flags, 0);
}

#[test]
fn errors_have_their_posix_numbers() {
    assert_eq!(SystemError::ENOENT.to_posix_errno(), -2);
    assert_eq!(SystemError::ESRCH.to_posix_errno(), -3);
    assert_eq!(SystemError::ENOMEM.to_posix_errno(), -12);
    assert_eq!(SystemError::EFAULT.to_posix_errno(), -14);
    assert_eq!(SystemError::EINVAL.to_posix_errno(), -22);
    assert_eq!(SystemError::ENOPROTOOPT.to_posix_errno(), -92);
    assert_eq!(SystemError::EPROTONOSUPPORT.to_posix_errno(), -93);
    assert_eq!(SystemError::EOPNOTSUPP_OR_ENOTSUP.to_posix_errno(), -95);
    assert_eq!(SystemError::EADDRINUSE.to_posix_errno(), -98);
    assert_eq!(SystemError::ENOBUFS.to_posix_errno(), -105);
    assert_eq!(SystemError::ENAVAIL.to_posix_errno(), -119);
}

#[test]
fn kernel_create_twice_is_caught() {
    let mut table = initialize_netlink_table();
    assert_eq!(try_netlink_kernel_create(&mut table, ROUTE, None), Some(Ok(0)));
    assert_eq!(try_netlink_kernel_create(&mut table, ROUTE, None), None);
    assert_eq!(table.sock_count(), 1);
    assert_eq!(try_netlink_kernel_create(&mut table, MAX_LINKS, None), Some(Err(SystemError::EINVAL)));
}

#[test]
fn autobind_without_a_free_port_is_caught() {
    let mut table = initialize_netlink_table();
    let a = uevent_sock(&mut table);
    let b = uevent_sock(&mut table);
    let c = uevent_sock(&mut table);
    netlink_insert(&mut table, a, 1).unwrap();
    let mut port = 0;
    assert!(!try_netlink_autobind(&mut table, b, &mut port));
    assert_eq!(port, 0);
    assert!(!table.sock(b).inner.bound);
    // A bound socket is not bound again.
    let mut port = 7;
    assert!(!try_netlink_autobind(&mut table, a, &mut port));

    let mut table = initialize_netlink_table();
    let a = uevent_sock(&mut table);
    let b = uevent_sock(&mut table);
    let c = uevent_sock(&mut table);
    netlink_insert(&mut table, a, 9).unwrap();
    netlink_insert(&mut table, b, 2).unwrap();
    let mut port = 9;
    assert!(!try_netlink_autobind(&mut table, c, &mut port));
    let mut port = 10;
    assert!(try_netlink_autobind(&mut table, c, &mut port));
    assert_eq!(port, 1);
    assert_eq!(netlink_lookup(&table, KOBJECT_UEVENT, 1), Some(c));
}

#[test]
fn bind_that_the_table_cannot_take_is_caught() {
    // The route protocol is not registered, so it has no room for groups.
    let mut table = initialize_netlink_table();
    let r = table.add_sock(NetlinkSock::new(Some(ROUTE)));
    assert!(!NetlinkSock::can_bind(&table, r, &addr(5, 1)));
    assert_eq!(NetlinkSock::try_netlink_bind(&mut table, r, &addr(5, 1)), None);
    assert_eq!(table.sock(r).inner.portid, 0);
    assert_eq!(netlink_lookup(&table, ROUTE, 5), None);
    // Without groups there is nothing to make room for.
    assert!(NetlinkSock::can_bind(&table, r, &addr(5, 0)));
    assert_eq!(NetlinkSock::try_netlink_bind(&mut table, r, &addr(5, 0)), Some(Ok(())));
    assert_eq!(netlink_lookup(&table, ROUTE, 5), Some(r));
    // A group beyond the words of the listeners does not fit.
    let mut table = initialize_netlink_table();
    let u = uevent_sock(&mut table);
    table.sock_mut(u).inner.groups[4] = 64 * 32;
    assert!(!NetlinkSock::can_bind(&table, u, &addr(5, 1)));
    table.sock_mut(u).inner.groups[4] = 64 * 32 - 1;
    assert!(NetlinkSock::can_bind(&table, u, &addr(5, 1)));
    // Another family is refused, which any table can do.
    let other = SockAddrNl { nl_family: AddressFamily::Unix, nl_pad: 0, nl_pid: 0, nl_groups: 1 };
    assert!(NetlinkSock::can_bind(&table, u, &other));
    assert_eq!(NetlinkSock::try_netlink_bind(&mut table, u, &other), Some(Err(SystemError::EINVAL)));
}

#[test]
fn try_bind_of_a_copy() {
    let mut table = initialize_netlink_table();
    let sock = NetlinkSock::new(Some(ROUTE));
    let ep = Endpoint::Netlink(NetlinkEndpoint { addr: addr(31, 1) });
    assert_eq!(sock.try_bind(&mut table, ep), None);
    assert_eq!(table.sock_count(), 0);
    let ep = Endpoint::Netlink(NetlinkEndpoint { addr: addr(31, 0) });
    assert_eq!(sock.try_bind(&mut table, ep), Some(Ok(())));
    assert_eq!(table.sock_count(), 1);
    assert_eq!(sock.try_bind(&mut table, Endpoint::Ip(1)), Some(Err(SystemError::EINVAL)));
}

#[test]
fn options_that_cannot_be_set_are_caught() {
    let mut table = initialize_netlink_table();
    let u = uevent_sock(&mut table);
    let check = |table: &NetlinkTable, level: PSOL, name: usize, val: &[u8]| {
        NetlinkSock::can_setsockopt(table, u, level, name, val)
    };
    let one = 1u64.to_le_bytes();
    let zero = 0u64.to_le_bytes();
    let last = (64u64 * 32).to_le_bytes();
    let beyond = (64u64 * 32 + 1).to_le_bytes();
    assert!(check(&table, PSOL::NETLINK, NETLINK_ADD_MEMBERSHIP, &one));
    assert!(check(&table, PSOL::NETLINK, NETLINK_DROP_MEMBERSHIP, &last));
    assert!(!check(&table, PSOL::NETLINK, NETLINK_ADD_MEMBERSHIP, &zero));
    assert!(!check(&table, PSOL::NETLINK, NETLINK_ADD_MEMBERSHIP, &beyond));
    assert!(!check(&table, PSOL::NETLINK, NETLINK_PKTINFO, &one));
    // What is refused with an error can always be carried out.
    assert!(check(&table, PSOL::TCP, NETLINK_PKTINFO, &one));
    assert!(check(&table, PSOL::NETLINK, NETLINK_PKTINFO, &one[..3]));
    assert!(check(&table, PSOL::NETLINK, 77, &zero));
    assert_eq!(
        NetlinkSock::netlink_setsockopt(&mut table, u, PSOL::NETLINK, NETLINK_ADD_MEMBERSHIP, &last),
        Ok(())
    );
    assert_eq!(table.item(KOBJECT_UEVENT).get_listeners().unwrap().masks()[31], 1 << 63);
}
