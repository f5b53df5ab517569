//! Device events: the notices of changes to kernel objects that go out to
//! processes over netlink.

use crate::error::SystemError;
use crate::netlink::af_netlink::broadcast_from;
use crate::netlink::af_netlink::flatten;
use crate::netlink::af_netlink::has_listeners_spec;
use crate::netlink::af_netlink::lemma_broadcast_frame;
use crate::netlink::af_netlink::lists_ports;
use crate::netlink::af_netlink::message_fits;
use crate::netlink::af_netlink::new_broadcast;
use crate::netlink::af_netlink::same_but_messages;
use crate::netlink::af_netlink::segments;
use crate::netlink::af_netlink::NetlinkSock;
use crate::netlink::af_netlink::NetlinkTable;
use crate::netlink::af_netlink::NetlinkTableView;
use crate::netlink::netlink_kernel_create;
use crate::netlink::netlink_proto::netlink_protocol::KOBJECT_UEVENT;
use crate::netlink::skbuff::SkBuff;
use crate::netlink::NetlinkKernelCfg;
use crate::netlink::MAX_LINKS;
use crate::netlink::NL_CFG_F_NONROOT_RECV;
use std::sync::Arc;
use vstd::prelude::*;
use vstd::string::StringSliceAdditionalSpecFns;

verus! {

/// The sequence number of device events.
pub const UEVENT_SEQNUM: u64 = 0;

/// What happened to a kernel object.
#[derive(Debug, Clone, Copy, PartialEq, Eq)]
pub enum KobjectAction {
    KOBJADD,
    KOBJREMOVE,
    KOBJCHANGE,
    KOBJMOVE,
    KOBJONLINE,
    KOBJOFFLINE,
    KOBJBIND,
    KOBJUNBIND,
}

/// The name of an action.
pub open spec fn action_name(action: KobjectAction) -> Seq<char> {
    match action {
        KobjectAction::KOBJADD => "add"@,
        KobjectAction::KOBJREMOVE => "remove"@,
        KobjectAction::KOBJCHANGE => "change"@,
        KobjectAction::KOBJMOVE => "move"@,
        KobjectAction::KOBJONLINE => "online"@,
        KobjectAction::KOBJOFFLINE => "offline"@,
        KobjectAction::KOBJBIND => "bind"@,
        KobjectAction::KOBJUNBIND => "unbind"@,
    }
}

/// The name of an action, as an event carries it.
pub fn action_string(action: KobjectAction) -> (name: &'static str)
    ensures
        name@ == action_name(action),
{
    match action {
        KobjectAction::KOBJADD => "add",
        KobjectAction::KOBJREMOVE => "remove",
        KobjectAction::KOBJCHANGE => "change",
        KobjectAction::KOBJMOVE => "move",
        KobjectAction::KOBJONLINE => "online",
        KobjectAction::KOBJOFFLINE => "offline",
        KobjectAction::KOBJBIND => "bind",
        KobjectAction::KOBJUNBIND => "unbind",
    }
}

/// What is known of a kernel object before an event for it is built.
pub open spec fn uevent_filter_spec(
    has_kset: bool,
    top_has_kset: bool,
    suppressed: bool,
    filter: Option<i32>,
) -> Option<Result<i32, SystemError>> {
    if !has_kset && !top_has_kset {
        Some(Err(SystemError::EINVAL))
    } else if suppressed || filter == Some(0i32) {
        Some(Ok(0))
    } else {
        None
    }
}

/// Decides whether an event for a kernel object goes out, and if not, how
/// the attempt ends.
///
/// An object that belongs to no set, itself or through the top of its
/// tree, cannot send events. An object that suppresses events, or whose
/// set filters this one out by answering 0, sends none, which counts as
/// success. For any other object the event is built and sent.
pub fn uevent_filter(has_kset: bool, top_has_kset: bool, suppressed: bool, filter: Option<i32>) -> (r:
    Option<Result<i32, SystemError>>)
    ensures
        r == uevent_filter_spec(has_kset, top_has_kset, suppressed, filter),
{
    if !has_kset && !top_has_kset {
        return Some(Err(SystemError::EINVAL));
    }
    if suppressed {
        return Some(Ok(0));
    }
    match filter {
        Some(0) => Some(Ok(0)),
        _ => None,
    }
}

/// Number of variables that an event can have.
pub const UEVENT_NUM_ENVP: usize = 64;

/// Number of bytes that the variables of an event can take.
pub const UEVENT_BUFFER_SIZE: usize = 2048;

/// The environment of an event: its variables, each as `KEY=value`, and the
/// buffer that holds them one after the other, each closed by a zero byte.
pub struct KobjUeventEnv {
    pub argv: Vec<Vec<u8>>,
    /// The variables.
    pub envp: Vec<Vec<u8>>,
    /// Number of variables.
    pub envp_idx: usize,
    /// The bytes of the variables.
    pub buf: Vec<u8>,
    /// Number of bytes of `buf` that are in use.
    pub buflen: usize,
}

/// The variables `vars` one after the other, each closed by a zero byte.
pub open spec fn joined(vars: Seq<Seq<u8>>) -> Seq<u8>
    decreases vars.len(),
{
    if vars.len() == 0 {
        Seq::empty()
    } else {
        joined(vars.drop_last()) + vars.last() + seq![0u8]
    }
}

/// The bytes of `MODALIAS=`.
pub open spec fn modalias_key() -> Seq<u8> {
    seq![77u8, 79u8, 68u8, 65u8, 76u8, 73u8, 65u8, 83u8, 61u8]
}

/// Whether the bytes `var` start with the bytes `key`.
pub open spec fn starts_with(var: Seq<u8>, key: Seq<u8>) -> bool {
    var.len() >= key.len() && var.subrange(0, key.len() as int) == key
}

/// The variables of `vars` other than `MODALIAS`, in order.
pub open spec fn without_modalias(vars: Seq<Seq<u8>>) -> Seq<Seq<u8>>
    decreases vars.len(),
{
    if vars.len() == 0 {
        Seq::empty()
    } else if starts_with(vars.last(), modalias_key()) {
        without_modalias(vars.drop_last())
    } else {
        without_modalias(vars.drop_last()).push(vars.last())
    }
}

/// Whether an environment with `count` variables in `used` bytes has no
/// room for a variable of `len` bytes.
pub open spec fn env_full(count: int, used: int, len: int) -> bool {
    count >= UEVENT_NUM_ENVP || len >= UEVENT_BUFFER_SIZE - used
}

/// Whether `bytes` starts with `key`.
pub fn has_prefix(bytes: &[u8], key: &[u8]) -> (r: bool)
    ensures
        r == starts_with(bytes@, key@),
{
    if bytes.len() < key.len() {
        return false;
    }
    let mut i: usize = 0;
    while i < key.len()
        invariant
            i <= key@.len() <= bytes@.len(),
            forall|j: int| 0 <= j < i ==> bytes@[j] == key@[j],
        decreases key@.len() - i,
    {
        if bytes[i] != key[i] {
            assert(bytes@.subrange(0, key@.len() as int)[i as int] != key@[i as int]);
            return false;
        }
        i += 1;
    }
    assert(bytes@.subrange(0, key@.len() as int) =~= key@);
    true
}

impl KobjUeventEnv {
    /// The variables, as byte strings.
    pub open spec fn vars(&self) -> Seq<Seq<u8>> {
        segments(self.envp@)
    }

    /// The counts agree with what they count, and the buffer holds the
    /// variables.
    pub open spec fn wf(&self) -> bool {
        &&& self.envp_idx == self.envp@.len()
        &&& self.buflen == self.buf@.len()
        &&& self.buf@ == joined(self.vars())
    }

    /// An environment without variables.
    pub fn new() -> (env: KobjUeventEnv)
        ensures
            env.wf(),
            env.vars() == Seq::<Seq<u8>>::empty(),
            env.argv@.len() == 0,
    {
        let env = KobjUeventEnv {
            argv: Vec::new(),
            envp: Vec::new(),
            envp_idx: 0,
            buf: Vec::new(),
            buflen: 0,
        };
        assert(env.vars() =~= Seq::<Seq<u8>>::empty());
        env
    }

    /// Adds the variable made of `key` followed by `value`.
    ///
    /// An environment holds at most `UEVENT_NUM_ENVP` variables in less
    /// than `UEVENT_BUFFER_SIZE` bytes before the closing byte of the last.
    pub fn add_uevent_var(&mut self, key: &str, value: &str) -> (r: Result<i32, SystemError>)
        requires
            old(self).wf(),
        ensures
            final(self).wf(),
            final(self).argv == old(self).argv,
            env_full(
                old(self).envp_idx as int,
                old(self).buflen as int,
                (key.spec_bytes().len() + value.spec_bytes().len()) as int,
            ) ==> r == Err::<i32, SystemError>(SystemError::ENOMEM) && final(self).vars() == old(
                self,
            ).vars(),
            !env_full(
                old(self).envp_idx as int,
                old(self).buflen as int,
                (key.spec_bytes().len() + value.spec_bytes().len()) as int,
            ) ==> r == Ok::<i32, SystemError>(0) && final(self).vars() == old(self).vars().push(
                key.spec_bytes() + value.spec_bytes(),
            ),
    {
        if self.envp_idx >= UEVENT_NUM_ENVP {
            return Err(SystemError::ENOMEM);
        }
        let key_bytes = key.as_bytes();
        let value_bytes = value.as_bytes();
        if self.buflen > UEVENT_BUFFER_SIZE || key_bytes.len() >= UEVENT_BUFFER_SIZE
            - self.buflen || value_bytes.len() >= UEVENT_BUFFER_SIZE - self.buflen {
            return Err(SystemError::ENOMEM);
        }
        let len = key_bytes.len() + value_bytes.len();
        if len >= UEVENT_BUFFER_SIZE - self.buflen {
            return Err(SystemError::ENOMEM);
        }
        let ghost before = self.vars();
        let mut var: Vec<u8> = Vec::new();
        var.extend_from_slice(key_bytes);
        var.extend_from_slice(value_bytes);
        assert(var@ =~= key.spec_bytes() + value.spec_bytes());
        self.buf.extend_from_slice(var.as_slice());
        self.buf.push(0);
        self.buflen += len + 1;
        self.envp.push(var);
        self.envp_idx += 1;
        proof {
            let added = key.spec_bytes() + value.spec_bytes();
            assert(self.vars() =~= before.push(added));
            assert(self.vars().drop_last() =~= before);
            assert(self.buf@ =~= joined(before) + added + seq![0u8]);
        }
        Ok(0)
    }

    /// Takes every variable `MODALIAS` out of the environment.
    pub fn zap_modalias_env(&mut self)
        requires
            old(self).wf(),
        ensures
            final(self).wf(),
            final(self).argv == old(self).argv,
            final(self).vars() == without_modalias(old(self).vars()),
    {
        let key: [u8; 9] = [77, 79, 68, 65, 76, 73, 65, 83, 61];
        assert(key@ =~= modalias_key());
        let ghost all = self.vars();
        let mut kept: Vec<Vec<u8>> = Vec::new();
        let mut buf: Vec<u8> = Vec::new();
        let mut i: usize = 0;
        while i < self.envp.len()
            invariant
                i <= self.envp@.len(),
                all == segments(self.envp@),
                key@ == modalias_key(),
                segments(kept@) == without_modalias(all.subrange(0, i as int)),
                buf@ == joined(segments(kept@)),
                self.argv == old(self).argv,
            decreases self.envp@.len() - i,
        {
            proof {
                assert(all.subrange(0, i + 1).drop_last() =~= all.subrange(0, i as int));
                assert(all.subrange(0, i + 1).last() == self.envp@[i as int]@);
            }
            if !has_prefix(self.envp[i].as_slice(), key.as_slice()) {
                let ghost before = segments(kept@);
                let var = crate::netlink::af_netlink::clone_bytes(&self.envp[i]);
                buf.extend_from_slice(var.as_slice());
                buf.push(0);
                kept.push(var);
                proof {
                    assert(segments(kept@) =~= before.push(self.envp@[i as int]@));
                    assert(segments(kept@).drop_last() =~= before);
                    assert(buf@ =~= joined(before) + self.envp@[i as int]@ + seq![0u8]);
                }
            }
            i += 1;
        }
        assert(all.subrange(0, all.len() as int) =~= all);
        self.buflen = buf.len();
        self.envp_idx = kept.len();
        self.buf = buf;
        self.envp = kept;
    }
}

/// The bytes of the strings of `strings`.
pub open spec fn string_bytes(strings: Seq<String>) -> Seq<Seq<u8>> {
    Seq::new(strings.len(), |i: int| vstd::utf8::encode_utf8(strings[i]@))
}

/// The variables with which every event starts: the action, the path of
/// the device and the subsystem, and then those of the caller.
pub open spec fn uevent_vars(
    action_string: Seq<char>,
    devpath: Seq<char>,
    subsystem: Seq<char>,
    envp_ext: Seq<String>,
) -> Seq<Seq<u8>> {
    seq![
        "ACTION=".spec_bytes() + vstd::utf8::encode_utf8(action_string),
        "DEVPATH=".spec_bytes() + vstd::utf8::encode_utf8(devpath),
        "SUBSYSTEM=".spec_bytes() + vstd::utf8::encode_utf8(subsystem),
    ] + string_bytes(envp_ext)
}

/// The variables of an event that is ready to go out: an event that
/// unbinds a driver has lost its variables `MODALIAS`, and every event ends
/// with the next sequence number.
pub open spec fn finished_vars(vars: Seq<Seq<u8>>, action: KobjectAction) -> Seq<Seq<u8>> {
    (if action == KobjectAction::KOBJUNBIND {
        without_modalias(vars)
    } else {
        vars
    }).push("SEQNUM=".spec_bytes() + "1".spec_bytes())
}

/// Taking variables out makes neither the list nor the buffer longer.
pub proof fn lemma_without_modalias_shorter(vars: Seq<Seq<u8>>)
    ensures
        without_modalias(vars).len() <= vars.len(),
        joined(without_modalias(vars)).len() <= joined(vars).len(),
    decreases vars.len(),
{
    if vars.len() > 0 {
        lemma_without_modalias_shorter(vars.drop_last());
        if !starts_with(vars.last(), modalias_key()) {
            lemma_joined_push(without_modalias(vars.drop_last()), vars.last());
        }
    }
}

/// Whether the variables `vars` fit in an environment that has `count`
/// variables in `used` bytes.
pub open spec fn vars_fit(count: int, used: int, vars: Seq<Seq<u8>>) -> bool {
    &&& count + vars.len() <= UEVENT_NUM_ENVP
    &&& used + joined(vars).len() <= UEVENT_BUFFER_SIZE
}

/// Adding a variable makes the buffer longer by the variable and its
/// closing byte.
pub proof fn lemma_joined_push(vars: Seq<Seq<u8>>, var: Seq<u8>)
    ensures
        joined(vars.push(var)) == joined(vars) + var + seq![0u8],
        joined(vars.push(var)).len() == joined(vars).len() + var.len() + 1,
{
    assert(vars.push(var).drop_last() =~= vars);
}

/// The buffer grows with the variables.
pub proof fn lemma_joined_prefix(vars: Seq<Seq<u8>>, n: int)
    requires
        0 <= n <= vars.len(),
    ensures
        joined(vars.subrange(0, n)).len() <= joined(vars).len(),
    decreases vars.len() - n,
{
    if n < vars.len() {
        lemma_joined_prefix(vars, n + 1);
        assert(vars.subrange(0, n + 1).drop_last() =~= vars.subrange(0, n));
    } else {
        assert(vars.subrange(0, n) =~= vars);
    }
}

/// Builds the environment of an event for the action `action_string` on the
/// device at `devpath` in `subsystem`, with the variables `envp_ext` of the
/// caller.
///
/// A device without a path has no event: the result is then the number of
/// the error `ENOENT`.
pub fn build_uevent_env(
    action_string: &str,
    devpath: &str,
    subsystem: &str,
    envp_ext: &Vec<String>,
) -> (r: Result<KobjUeventEnv, i32>)
    requires
        devpath.spec_bytes().len() > 0 ==> vars_fit(
            0,
            0,
            uevent_vars(action_string@, devpath@, subsystem@, envp_ext@),
        ),
    ensures
        devpath.spec_bytes().len() == 0 ==> r is Err && r->Err_0 == -2,
        devpath.spec_bytes().len() > 0 ==> r is Ok && r->Ok_0.wf() && r->Ok_0.vars() == uevent_vars(
            action_string@,
            devpath@,
            subsystem@,
            envp_ext@,
        ),
{
    let mut env = KobjUeventEnv::new();
    if devpath.as_bytes().len() == 0 {
        return Err(SystemError::ENOENT.to_posix_errno());
    }
    let ghost all = uevent_vars(action_string@, devpath@, subsystem@, envp_ext@);
    let ghost ext = string_bytes(envp_ext@);
    proof {
        lemma_joined_prefix(all, 1);
        lemma_joined_prefix(all, 2);
        lemma_joined_prefix(all, 3);
        lemma_joined_push(Seq::empty(), all[0]);
        assert(all.subrange(0, 1) =~= Seq::<Seq<u8>>::empty().push(all[0]));
        lemma_joined_push(all.subrange(0, 1), all[1]);
        assert(all.subrange(0, 2) =~= all.subrange(0, 1).push(all[1]));
        lemma_joined_push(all.subrange(0, 2), all[2]);
        assert(all.subrange(0, 3) =~= all.subrange(0, 2).push(all[2]));
    }
    let added = env.add_uevent_var("ACTION=", action_string);
    assert(env.vars() =~= all.subrange(0, 1));
    let added = env.add_uevent_var("DEVPATH=", devpath);
    assert(env.vars() =~= all.subrange(0, 2));
    let added = env.add_uevent_var("SUBSYSTEM=", subsystem);
    assert(env.vars() =~= all.subrange(0, 3));
    let mut i: usize = 0;
    while i < envp_ext.len()
        invariant
            i <= envp_ext@.len(),
            env.wf(),
            all == uevent_vars(action_string@, devpath@, subsystem@, envp_ext@),
            all.len() == 3 + envp_ext@.len(),
            vars_fit(0, 0, all),
            env.vars() == all.subrange(0, 3 + i),
        decreases envp_ext@.len() - i,
    {
        proof {
            reveal_strlit("");
            vstd::string::is_ascii_spec_bytes("");
            assert("".spec_bytes().len() == 0);
            lemma_joined_prefix(all, 4 + i);
            lemma_joined_push(all.subrange(0, 3 + i), all[3 + i]);
            assert(all.subrange(0, 4 + i) =~= all.subrange(0, 3 + i).push(all[3 + i]));
            assert(all[3 + i] == vstd::utf8::encode_utf8(envp_ext@[i as int]@));
        }
        let var = envp_ext[i].as_str();
        let added = env.add_uevent_var("", var);
        assert("".spec_bytes() + var.spec_bytes() =~= all[3 + i]);
        i += 1;
    }
    assert(all.subrange(0, all.len() as int) =~= all);
    Ok(env)
}

/// Completes the environment of an event: an event that unbinds a driver
/// loses its variables `MODALIAS`, and every event gets the next sequence
/// number.
pub fn finish_uevent_env(env: &mut KobjUeventEnv, action: KobjectAction)
    requires
        old(env).wf(),
        vars_fit(0, 0, finished_vars(old(env).vars(), action)),
    ensures
        final(env).wf(),
        final(env).argv == old(env).argv,
        final(env).vars() == finished_vars(old(env).vars(), action),
{
    match action {
        KobjectAction::KOBJUNBIND => {
            env.zap_modalias_env();
        },
        _ => {},
    }
    proof {
        lemma_joined_push(env.vars(), "SEQNUM=".spec_bytes() + "1".spec_bytes());
    }
    let added = env.add_uevent_var("SEQNUM=", "1");
}

/// A kernel socket that sends device events, by its handle in the netlink
/// table.
pub struct UeventSock {
    inner: usize,
}

impl UeventSock {
    /// The handle of the socket.
    pub closed spec fn spec_inner(&self) -> usize {
        self.inner
    }

    pub fn new(inner: usize) -> (sock: UeventSock)
        ensures
            sock.spec_inner() == inner,
    {
        UeventSock { inner }
    }

    /// The handle of the socket.
    pub fn inner(&self) -> (r: usize)
        ensures
            r == self.spec_inner(),
    {
        self.inner
    }
}

/// The handles of the sockets of `list`.
pub open spec fn handles(list: Seq<UeventSock>) -> Seq<usize> {
    Seq::new(list.len(), |i: int| list[i].spec_inner())
}

/// Whether every socket of `socks` is a socket of the table `t`.
pub open spec fn uevent_socks_wf(t: NetlinkTableView, socks: Seq<usize>) -> bool {
    forall|i: int|
        0 <= i < socks.len() ==> (#[trigger] socks[i]) < t.socks.len() && t.socks[socks[i] as int].inner.protocol
            < MAX_LINKS
}

/// Makes the kernel socket for device events and puts it at the end of
/// `uevent_sock_list`.
pub fn uevent_net_init(nl_table: &mut NetlinkTable, uevent_sock_list: &mut Vec<UeventSock>) -> (r:
    Result<(), SystemError>)
    requires
        old(nl_table).wf(),
        !old(nl_table)@.items[KOBJECT_UEVENT as int].ports.contains_key(0),
    ensures
        r is Ok,
        final(nl_table).wf(),
        final(nl_table)@ == crate::netlink::af_netlink::kernel_create_spec(
            old(nl_table)@,
            KOBJECT_UEVENT,
            Some(uevent_cfg()),
        ).1,
        handles(final(uevent_sock_list)@) == handles(old(uevent_sock_list)@).push(
            old(nl_table)@.socks.len() as usize,
        ),
{
    let cfg = NetlinkKernelCfg {
        groups: 1,
        flags: NL_CFG_F_NONROOT_RECV,
        input: None,
        bind: None,
        unbind: None,
        compare: None,
    };
    assert(cfg == uevent_cfg());
    let made = netlink_kernel_create(nl_table, KOBJECT_UEVENT, Some(cfg));
    match made {
        Ok(handle) => {
            let ue_sk = UeventSock::new(handle);
            uevent_sock_list.push(ue_sk);
            assert(handles(uevent_sock_list@) =~= handles(old(uevent_sock_list)@).push(handle));
        },
        Err(_) => {},
    }
    Ok(())
}

/// Makes the kernel socket for device events as `uevent_net_init` does, if
/// port 0 of the protocol is free; if not, returns nothing and changes
/// nothing.
pub fn try_uevent_net_init(
    nl_table: &mut NetlinkTable,
    uevent_sock_list: &mut Vec<UeventSock>,
) -> (r: Option<Result<(), SystemError>>)
    requires
        old(nl_table).wf(),
    ensures
        final(nl_table).wf(),
        old(nl_table)@.items[KOBJECT_UEVENT as int].ports.contains_key(0) ==> r is None && final(nl_table)@ == old(nl_table)@ && handles(final(uevent_sock_list)@) == handles(
            old(uevent_sock_list)@,
        ),
        !old(nl_table)@.items[KOBJECT_UEVENT as int].ports.contains_key(0) ==> r is Some
            && r->0 is Ok && final(nl_table)@ == crate::netlink::af_netlink::kernel_create_spec(
            old(nl_table)@,
            KOBJECT_UEVENT,
            Some(uevent_cfg()),
        ).1 && handles(final(uevent_sock_list)@) == handles(old(uevent_sock_list)@).push(
            old(nl_table)@.socks.len() as usize,
        ),
{
    if crate::netlink::af_netlink::netlink_lookup(nl_table, KOBJECT_UEVENT, 0).is_some() {
        return None;
    }
    Some(uevent_net_init(nl_table, uevent_sock_list))
}

/// The parameters of the kernel socket for device events: one group, open
/// to processes without privilege, no callbacks.
pub open spec fn uevent_cfg() -> NetlinkKernelCfg {
    NetlinkKernelCfg {
        groups: 1,
        flags: NL_CFG_F_NONROOT_RECV,
        input: None,
        bind: None,
        unbind: None,
        compare: None,
    }
}

/// A buffer that holds the variables of `env` as its one segment, owned by
/// a new socket.
pub fn alloc_uevent_skb(env: &KobjUeventEnv, action_string: &str, devpath: &str) -> (skb: SkBuff)
    ensures
        segments(skb.inner@) == seq![env.buf@],
        skb.sk@ == NetlinkSock::new_view(None),
{
    let mut inner: Vec<Vec<u8>> = Vec::new();
    inner.push(crate::netlink::af_netlink::clone_bytes(&env.buf));
    assert(segments(inner@) =~= seq![env.buf@]);
    SkBuff { sk: Arc::new(NetlinkSock::new(None)), inner }
}

/// The table `after` is what one event socket `sk` makes of the table
/// `before` when it sends the message `msg`: nothing if group 1 of its
/// protocol has no listeners, and otherwise a broadcast to group 1.
pub open spec fn one_uevent(
    before: NetlinkTableView,
    after: NetlinkTableView,
    sk: usize,
    msg: Seq<u8>,
) -> bool {
    let protocol = before.socks[sk as int].inner.protocol;
    if has_listeners_spec(before, protocol, 1) == 0 {
        after == before
    } else {
        exists|ports: Seq<u32>|
            {
                &&& #[trigger] lists_ports(ports, before.items[protocol as int].mc_set)
                &&& after == broadcast_from(
                    before,
                    sk,
                    seq![msg],
                    NetlinkSock::new_view(None),
                    0,
                    1,
                    ports,
                ).0
            }
    }
}

/// Whether `states` are the tables through which the event sockets
/// `socks` take the table when each in turn sends the message `msg`: the
/// table before the first socket, and the table after each socket.
pub open spec fn untagged_steps(
    states: Seq<NetlinkTableView>,
    socks: Seq<usize>,
    msg: Seq<u8>,
) -> bool {
    &&& states.len() == socks.len() + 1
    &&& forall|i: int|
        0 <= i < socks.len() ==> one_uevent(#[trigger] states[i], states[i + 1], socks[i], msg)
}

/// The table `after` is what the event sockets `socks` make of the table
/// `before` when each in turn sends the message `msg`.
pub open spec fn untagged_outcome(
    before: NetlinkTableView,
    after: NetlinkTableView,
    socks: Seq<usize>,
    msg: Seq<u8>,
) -> bool {
    exists|states: Seq<NetlinkTableView>|
        {
            &&& #[trigger] untagged_steps(states, socks, msg)
            &&& states[0] == before
            &&& states[socks.len() as int] == after
        }
}

/// Sends the variables of `env` to the listeners of device events.
pub fn kobject_uevent_net_broadcast(
    nl_table: &mut NetlinkTable,
    uevent_sock_list: &Vec<UeventSock>,
    env: &KobjUeventEnv,
    action_string: &str,
    devpath: &str,
) -> (ret: i32)
    requires
        old(nl_table).wf(),
        uevent_socks_wf(old(nl_table)@, handles(uevent_sock_list@)),
        message_fits(seq![env.buf@]),
    ensures
        ret == 0,
        final(nl_table).wf(),
        same_but_messages(old(nl_table)@, final(nl_table)@),
        untagged_outcome(old(nl_table)@, final(nl_table)@, handles(uevent_sock_list@), env.buf@),
{
    uevent_net_broadcast_untagged(nl_table, uevent_sock_list, env, action_string, devpath)
}

/// Sends the variables of `env` from every event socket whose group 1 has
/// listeners, to the sockets that have joined that group.
///
/// The result is the status of the last broadcast, where the two errors
/// that end a broadcast count as success; so it is always 0.
pub fn uevent_net_broadcast_untagged(
    nl_table: &mut NetlinkTable,
    uevent_sock_list: &Vec<UeventSock>,
    env: &KobjUeventEnv,
    action_string: &str,
    devpath: &str,
) -> (retval: i32)
    requires
        old(nl_table).wf(),
        uevent_socks_wf(old(nl_table)@, handles(uevent_sock_list@)),
        message_fits(seq![env.buf@]),
    ensures
        retval == 0,
        final(nl_table).wf(),
        same_but_messages(old(nl_table)@, final(nl_table)@),
        untagged_outcome(old(nl_table)@, final(nl_table)@, handles(uevent_sock_list@), env.buf@),
{
    let mut retval: i32 = 0;
    let ghost t0 = nl_table@;
    let ghost socks = handles(uevent_sock_list@);
    let ghost mut states: Seq<NetlinkTableView> = seq![t0];
    let mut i: usize = 0;
    while i < uevent_sock_list.len()
        invariant
            i <= uevent_sock_list@.len(),
            retval == 0,
            nl_table.wf(),
            socks == handles(uevent_sock_list@),
            uevent_socks_wf(t0, socks),
            same_but_messages(t0, nl_table@),
            message_fits(seq![env.buf@]),
            states.len() == i + 1,
            states[0] == t0,
            states[i as int] == nl_table@,
            untagged_steps(states, socks.subrange(0, i as int), env.buf@),
        decreases uevent_sock_list@.len() - i,
    {
        let ghost mid = nl_table@;
        let sk = uevent_sock_list[i].inner();
        assert(sk == socks[i as int]);
        proof {
            assert(mid.socks[sk as int].inner.protocol == t0.socks[sk as int].inner.protocol);
        }
        if nl_table.sock(sk).netlink_has_listeners(nl_table, 1) != 0 {
            let skb = alloc_uevent_skb(env, action_string, devpath);
            retval = match NetlinkSock::netlink_broadcast(nl_table, sk, skb, 0, 1) {
                Ok(_) => 0,
                Err(err) => err.to_posix_errno(),
            };
            if retval == SystemError::ENOBUFS.to_posix_errno() || retval
                == SystemError::ESRCH.to_posix_errno() {
                retval = 0;
            }
            proof {
                let protocol = mid.socks[sk as int].inner.protocol as int;
                let ports = choose|ports: Seq<u32>|
                    {
                        &&& #[trigger] lists_ports(ports, mid.items[protocol].mc_set)
                        &&& nl_table@ == broadcast_from(
                            mid,
                            sk,
                            seq![env.buf@],
                            NetlinkSock::new_view(None),
                            0,
                            1,
                            ports,
                        ).0
                    };
                lemma_broadcast_frame(
                    mid,
                    new_broadcast(sk, seq![env.buf@], NetlinkSock::new_view(None), 0, 1),
                    protocol,
                    ports,
                );
                assert(one_uevent(mid, nl_table@, sk, env.buf@));
            }
        } else {
            assert(one_uevent(mid, nl_table@, sk, env.buf@));
        }
        proof {
            let before = states;
            states = states.push(nl_table@);
            let upto = socks.subrange(0, i + 1);
            assert forall|j: int| 0 <= j < upto.len() implies one_uevent(
                #[trigger] states[j],
                states[j + 1],
                upto[j],
                env.buf@,
            ) by {
                if j < i {
                    assert(one_uevent(
                        before[j],
                        before[j + 1],
                        socks.subrange(0, i as int)[j],
                        env.buf@,
                    ));
                }
            }
        }
        i += 1;
    }
    proof {
        assert(socks.subrange(0, socks.len() as int) =~= socks);
        assert(untagged_steps(states, socks, env.buf@));
    }
    retval
}

/// What the callbacks of a set of kernel objects tell about events before
/// an event is built.
pub struct UeventOpsFacts {
    /// The answer of the filter; 0 keeps the events of the set back.
    pub filter: Option<i32>,
    /// The name of the subsystem that the events come from.
    pub uevent_name: String,
}

/// What an event needs to know of a set of kernel objects.
pub struct KSetFacts {
    pub name: String,
    pub uevent_ops: Option<UeventOpsFacts>,
}

/// What an event needs to know of a kernel object and of the top of the
/// tree that it is in.
pub struct KObjectFacts {
    pub name: String,
    /// Whether the object itself is in a set.
    pub has_kset: bool,
    /// The set of the object at the top of the tree, if it is in one.
    pub top_kset: Option<KSetFacts>,
    /// Whether the object keeps its events back.
    pub uevent_suppress: bool,
    /// The path of the object from the root of its tree.
    pub devpath: String,
}

/// The callback of a set that looks at the environment of an event; an
/// answer other than 0, followed by the answer 0, keeps the event back.
pub trait KSetUevent {
    fn uevent(&self, env: &KobjUeventEnv) -> i32;
}

/// Whether the object has no path, so that it cannot have an event.
pub open spec fn no_path(kobj: KObjectFacts) -> bool {
    vstd::utf8::encode_utf8(kobj.devpath@).len() == 0
}

/// Whether an event for the object is built: nothing keeps it back before,
/// and the object has a path.
pub open spec fn event_goes_out(kobj: KObjectFacts) -> bool {
    &&& uevent_filter_spec(
        kobj.has_kset,
        kobj.top_kset is Some,
        kobj.uevent_suppress,
        kset_filter(kobj),
    ) is None
    &&& !no_path(kobj)
}

/// The answer of the filter of the set at the top of the tree.
pub open spec fn kset_filter(kobj: KObjectFacts) -> Option<i32> {
    match kobj.top_kset {
        Some(kset) => match kset.uevent_ops {
            Some(ops) => ops.filter,
            None => None,
        },
        None => None,
    }
}

/// The subsystem that the events of an object come from: what the callbacks
/// of the top set name, or else the name of that set, or else the name of
/// the object.
pub open spec fn subsystem_of(kobj: KObjectFacts) -> Seq<char> {
    match kobj.top_kset {
        Some(kset) => match kset.uevent_ops {
            Some(ops) => ops.uevent_name@,
            None => kset.name@,
        },
        None => kobj.name@,
    }
}

/// The variables of the event for `action` on `kobj` with the variables
/// `envp_ext` of the caller, as they go out.
pub open spec fn event_vars(
    kobj: KObjectFacts,
    action: KobjectAction,
    envp_ext: Seq<String>,
) -> Seq<Seq<u8>> {
    finished_vars(
        uevent_vars(action_name(action), kobj.devpath@, subsystem_of(kobj), envp_ext),
        action,
    )
}

/// Whether the answers `first` and `second` of the callback of the set keep
/// an event back.
pub open spec fn kset_drops(first: i32, second: i32) -> bool {
    first != 0 && second == 0
}

/// Completes the environment `env` of an event and sends it, unless the
/// answers of the callback of the set, if there are any, keep it back.
pub fn uevent_send(
    nl_table: &mut NetlinkTable,
    uevent_sock_list: &Vec<UeventSock>,
    env: &mut KobjUeventEnv,
    action: KobjectAction,
    answers: Option<(i32, i32)>,
    action_string: &str,
    devpath: &str,
) -> (retval: i32)
    requires
        old(nl_table).wf(),
        uevent_socks_wf(old(nl_table)@, handles(uevent_sock_list@)),
        old(env).wf(),
        vars_fit(0, 0, finished_vars(old(env).vars(), action)),
    ensures
        retval == 0,
        final(nl_table).wf(),
        same_but_messages(old(nl_table)@, final(nl_table)@),
        answers matches Some((first, second)) && kset_drops(first, second) ==> final(nl_table)@
            == old(nl_table)@ && final(env).vars() == old(env).vars(),
        !(answers matches Some((first, second)) && kset_drops(first, second)) ==> final(env).vars() == finished_vars(old(env).vars(), action) && untagged_outcome(
            old(nl_table)@,
            final(nl_table)@,
            handles(uevent_sock_list@),
            joined(finished_vars(old(env).vars(), action)),
        ),
        final(env).wf(),
{
    match answers {
        Some((first, second)) => {
            if first != 0 {
                let retval = second;
                if retval == 0 {
                    proof {
                        lemma_wf_same_messages(nl_table@);
                    }
                    return retval;
                }
            }
        },
        None => {},
    }
    finish_uevent_env(env, action);
    proof {
        assert(flatten(seq![env.buf@]) =~= env.buf@) by {
            assert(seq![env.buf@].drop_last() =~= Seq::<Seq<u8>>::empty());
            assert(flatten(Seq::<Seq<u8>>::empty()) =~= Seq::<u8>::empty());
        }
    }
    kobject_uevent_net_broadcast(nl_table, uevent_sock_list, env, action_string, devpath)
}

/// A table differs from itself in nothing.
pub proof fn lemma_wf_same_messages(t: NetlinkTableView)
    ensures
        same_but_messages(t, t),
{
}

/// Reports the action `action` on the kernel object `kobj`, with the
/// variables `envp_ext` of the caller, to the listeners of device events.
///
/// An object in no set cannot report. An object that keeps its events back
/// reports nothing, and neither does one without a path; both count as
/// done. Any other event is built and goes out, unless the callback `ops`
/// of its set keeps it back when it sees the environment.
pub fn kobject_uevent_env(
    nl_table: &mut NetlinkTable,
    uevent_sock_list: &Vec<UeventSock>,
    kobj: &KObjectFacts,
    ops: Option<&dyn KSetUevent>,
    action: KobjectAction,
    envp_ext: Vec<String>,
) -> (r: Result<i32, SystemError>)
    requires
        old(nl_table).wf(),
        uevent_socks_wf(old(nl_table)@, handles(uevent_sock_list@)),
        event_goes_out(*kobj) ==> vars_fit(
            0,
            0,
            uevent_vars(
                action_name(action),
                kobj.devpath@,
                subsystem_of(*kobj),
                envp_ext@,
            ).push("SEQNUM=".spec_bytes() + "1".spec_bytes()),
        ),
    ensures
        final(nl_table).wf(),
        same_but_messages(old(nl_table)@, final(nl_table)@),
        match uevent_filter_spec(
            kobj.has_kset,
            kobj.top_kset is Some,
            kobj.uevent_suppress,
            kset_filter(*kobj),
        ) {
            Some(end) => r == end && final(nl_table)@ == old(nl_table)@,
            None => if no_path(*kobj) {
                r == Ok::<i32, SystemError>(-2i32) && final(nl_table)@ == old(nl_table)@
            } else {
                r == Ok::<i32, SystemError>(0i32) && (final(nl_table)@ == old(nl_table)@
                    || untagged_outcome(
                    old(nl_table)@,
                    final(nl_table)@,
                    handles(uevent_sock_list@),
                    joined(event_vars(*kobj, action, envp_ext@)),
                )) && (ops is None ==> untagged_outcome(
                    old(nl_table)@,
                    final(nl_table)@,
                    handles(uevent_sock_list@),
                    joined(event_vars(*kobj, action, envp_ext@)),
                ))
            },
        },
{
    proof {
        lemma_wf_same_messages(nl_table@);
    }
    let action_string = action_string(action);
    let filter = match &kobj.top_kset {
        Some(kset) => match &kset.uevent_ops {
            Some(uevent_ops) => uevent_ops.filter,
            None => None,
        },
        None => None,
    };
    match uevent_filter(kobj.has_kset, kobj.top_kset.is_some(), kobj.uevent_suppress, filter) {
        Some(end) => {
            return end;
        },
        None => {},
    }
    let subsystem: &str = match &kobj.top_kset {
        Some(kset) => match &kset.uevent_ops {
            Some(uevent_ops) => uevent_ops.uevent_name.as_str(),
            None => kset.name.as_str(),
        },
        None => kobj.name.as_str(),
    };
    let devpath = kobj.devpath.as_str();
    let ghost start = uevent_vars(action_name(action), kobj.devpath@, subsystem_of(*kobj), envp_ext@);
    let ghost seqnum = "SEQNUM=".spec_bytes() + "1".spec_bytes();
    proof {
        if !no_path(*kobj) {
            lemma_joined_push(start, seqnum);
        }
    }
    let mut env = match build_uevent_env(action_string, devpath, subsystem, &envp_ext) {
        Ok(env) => env,
        Err(retval) => {
            return Ok(retval);
        },
    };
    proof {
        lemma_without_modalias_shorter(start);
        lemma_joined_push(without_modalias(start), seqnum);
    }
    let answers = match ops {
        Some(ops) => {
            let first = ops.uevent(&env);
            if first != 0 {
                Some((first, ops.uevent(&env)))
            } else {
                Some((first, 0))
            }
        },
        None => None,
    };
    let retval = uevent_send(nl_table, uevent_sock_list, &mut env, action, answers, action_string, devpath);
    Ok(retval)
}

/// Reports the action `action` on the kernel object `kobj`, without
/// variables of the caller.
pub fn kobject_uevent(
    nl_table: &mut NetlinkTable,
    uevent_sock_list: &Vec<UeventSock>,
    kobj: &KObjectFacts,
    ops: Option<&dyn KSetUevent>,
    action: KobjectAction,
) -> (r: Result<(), SystemError>)
    requires
        old(nl_table).wf(),
        uevent_socks_wf(old(nl_table)@, handles(uevent_sock_list@)),
        event_goes_out(*kobj) ==> vars_fit(
            0,
            0,
            uevent_vars(
                action_name(action),
                kobj.devpath@,
                subsystem_of(*kobj),
                Seq::<String>::empty(),
            ).push("SEQNUM=".spec_bytes() + "1".spec_bytes()),
        ),
    ensures
        final(nl_table).wf(),
        same_but_messages(old(nl_table)@, final(nl_table)@),
        match uevent_filter_spec(
            kobj.has_kset,
            kobj.top_kset is Some,
            kobj.uevent_suppress,
            kset_filter(*kobj),
        ) {
            Some(Err(e)) => r == Err::<(), SystemError>(e) && final(nl_table)@ == old(nl_table)@,
            Some(Ok(_)) => r is Ok && final(nl_table)@ == old(nl_table)@,
            None => r is Ok && (no_path(*kobj) ==> final(nl_table)@ == old(nl_table)@) && (
            !no_path(*kobj) ==> final(nl_table)@ == old(nl_table)@
                || untagged_outcome(
                old(nl_table)@,
                final(nl_table)@,
                handles(uevent_sock_list@),
                joined(event_vars(*kobj, action, Seq::<String>::empty())),
            )),
        },
{
    let envp_ext: Vec<String> = Vec::new();
    match kobject_uevent_env(nl_table, uevent_sock_list, kobj, ops, action, envp_ext) {
        Ok(_) => Ok(()),
        Err(e) => Err(e),
    }
}

} // verus!
