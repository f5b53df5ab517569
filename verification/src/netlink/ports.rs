//! Tables keyed by the port of a socket.

use vstd::prelude::*;

verus! {

/// A map from the ports of a protocol to the handles of the sockets bound to
/// them, kept in a `hashbrown::HashMap`. Proofs see of it what
/// `port_map_contents` names, and nothing else.
#[verifier::external_body]
pub struct PortMap {
    map: hashbrown::HashMap<u32, usize>,
}

/// The ports of a `PortMap` and the handle that each maps to.
pub uninterp spec fn port_map_contents(m: PortMap) -> Map<u32, usize>;

/// The map without any port.
pub open spec fn no_ports() -> Map<u32, usize> {
    Map::empty()
}

/// What a lookup of the port `k` finds in the map `m`.
pub open spec fn port_lookup(m: Map<u32, usize>, k: u32) -> Option<usize> {
    if m.contains_key(k) {
        Some(m[k])
    } else {
        None
    }
}

impl PortMap {
    /// `hashbrown::HashMap::new`: a map that holds nothing.
    #[verifier::external_body]
    pub(crate) fn new() -> (m: PortMap)
        ensures
            port_map_contents(m) == no_ports(),
    {
        PortMap { map: hashbrown::HashMap::new() }
    }

    /// `hashbrown::HashMap::contains_key`: whether the map holds the key.
    #[verifier::external_body]
    pub(crate) fn contains_key(&self, k: u32) -> (r: bool)
        ensures
            r == port_map_contents(*self).contains_key(k),
    {
        self.map.contains_key(&k)
    }

    /// `hashbrown::HashMap::get`: the value that the map holds for the key,
    /// if it holds one.
    #[verifier::external_body]
    pub(crate) fn get(&self, k: u32) -> (r: Option<usize>)
        ensures
            r == port_lookup(port_map_contents(*self), k),
    {
        self.map.get(&k).copied()
    }

    /// `hashbrown::HashMap::insert`: the map then holds the value for the
    /// key, and every other key as before; the result is the value that the
    /// key had before, if it had one.
    #[verifier::external_body]
    pub(crate) fn insert(&mut self, k: u32, v: usize) -> (r: Option<usize>)
        ensures
            port_map_contents(*final(self)) == port_map_contents(*old(self)).insert(k, v),
            r == port_lookup(port_map_contents(*old(self)), k),
    {
        self.map.insert(k, v)
    }
}

/// A set of ports, kept in a `hashbrown::HashSet`. Proofs see of it what
/// `port_set_contents` names, and nothing else.
#[verifier::external_body]
pub struct PortSet {
    set: hashbrown::HashSet<u32>,
}

/// The ports that a `PortSet` holds.
pub uninterp spec fn port_set_contents(s: PortSet) -> Set<u32>;

/// The set without any port.
pub open spec fn no_port() -> Set<u32> {
    Set::empty()
}

impl PortSet {
    /// `hashbrown::HashSet::new`: a set that holds nothing.
    #[verifier::external_body]
    pub(crate) fn new() -> (s: PortSet)
        ensures
            port_set_contents(s) == no_port(),
    {
        PortSet { set: hashbrown::HashSet::new() }
    }

    /// `hashbrown::HashSet::insert`: the set then holds the value; the result
    /// says whether it was absent before.
    #[verifier::external_body]
    pub(crate) fn insert(&mut self, port: u32) -> (r: bool)
        ensures
            port_set_contents(*final(self)) == port_set_contents(*old(self)).insert(port),
            r == !port_set_contents(*old(self)).contains(port),
    {
        self.set.insert(port)
    }

    /// `hashbrown::HashSet::remove`: the set then does not hold the value;
    /// the result says whether it was present before.
    #[verifier::external_body]
    pub(crate) fn remove(&mut self, port: u32) -> (r: bool)
        ensures
            port_set_contents(*final(self)) == port_set_contents(*old(self)).remove(port),
            r == port_set_contents(*old(self)).contains(port),
    {
        self.set.remove(&port)
    }

    /// `hashbrown::HashSet::iter`: every value of the set once, in an order
    /// that the set chooses.
    #[verifier::external_body]
    pub(crate) fn to_vec(&self) -> (r: Vec<u32>)
        ensures
            r@.no_duplicates(),
            forall|port: u32| r@.contains(port) <==> port_set_contents(*self).contains(port),
    {
        self.set.iter().copied().collect()
    }
}

} // verus!
