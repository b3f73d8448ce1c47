//! The contact details that a peer publishes so that others can bootstrap off it.

use vstd::prelude::*;
use crate::endpoint::Endpoint;
use crate::socket_addr::SocketAddr;

verus! {

/// Whether two vectors hold the same endpoints in the same order.
pub fn same_endpoints(a: &Vec<Endpoint>, b: &Vec<Endpoint>) -> (r: bool)
    ensures
        r == (a@ == b@),
{
    if a.len() != b.len() {
        return false;
    }
    let mut i: usize = 0;
    while i < a.len()
        invariant
            a@.len() == b@.len(),
            i <= a@.len(),
            forall|j: int| 0 <= j < i ==> a@[j] == b@[j],
        decreases a@.len() - i,
    {
        if a[i] != b[i] {
            return false;
        }
        i = i + 1;
    }
    proof {
        assert(a@ =~= b@);
    }
    true
}

/// Whether two vectors hold the same socket addresses in the same order.
pub fn same_addrs(a: &Vec<SocketAddr>, b: &Vec<SocketAddr>) -> (r: bool)
    ensures
        r == (a@ == b@),
{
    if a.len() != b.len() {
        return false;
    }
    let mut i: usize = 0;
    while i < a.len()
        invariant
            a@.len() == b@.len(),
            i <= a@.len(),
            forall|j: int| 0 <= j < i ==> a@[j] == b@[j],
        decreases a@.len() - i,
    {
        if a[i] != b[i] {
            return false;
        }
        i = i + 1;
    }
    proof {
        assert(a@ =~= b@);
    }
    true
}

/// A copy of a vector of plain values.
pub fn copy_items<T: Copy>(v: &Vec<T>) -> (r: Vec<T>)
    ensures
        r@ == v@,
{
    let mut r: Vec<T> = Vec::new();
    let mut i: usize = 0;
    while i < v.len()
        invariant
            i <= v@.len(),
            r@ == v@.subrange(0, i as int),
        decreases v@.len() - i,
    {
        r.push(v[i]);
        i = i + 1;
        proof {
            assert(r@ =~= v@.subrange(0, i as int));
        }
    }
    proof {
        assert(r@ =~= v@);
    }
    r
}

/// This struct contains information needed to Bootstrap and for echo-server services
#[derive(Clone, Debug)]
pub struct StaticContactInfo {
    /// This will contain both local and global addresses. Local addresses will be useful on LAN
    /// when someone wants to bootstrap off us and we haven't yet obtained our global address.
    pub endpoints: Vec<Endpoint>,
    /// UDP mapper server addresses
    pub udp_mapper_servers: Vec<SocketAddr>,
    /// TCP mapper server addresses
    pub tcp_mapper_servers: Vec<SocketAddr>,
}

impl View for StaticContactInfo {
    type V = (Seq<Endpoint>, Seq<SocketAddr>, Seq<SocketAddr>);

    open spec fn view(&self) -> (Seq<Endpoint>, Seq<SocketAddr>, Seq<SocketAddr>) {
        (self.endpoints@, self.udp_mapper_servers@, self.tcp_mapper_servers@)
    }
}

impl Default for StaticContactInfo {
    /// Contact info with no endpoints and no mapper servers.
    fn default() -> (c: StaticContactInfo)
        ensures
            c@ == (Seq::<Endpoint>::empty(), Seq::<SocketAddr>::empty(), Seq::<SocketAddr>::empty()),
    {
        StaticContactInfo::new()
    }
}

impl StaticContactInfo {
    /// Contact info with no endpoints and no mapper servers.
    pub fn new() -> (c: StaticContactInfo)
        ensures
            c@ == (Seq::<Endpoint>::empty(), Seq::<SocketAddr>::empty(), Seq::<SocketAddr>::empty()),
    {
        StaticContactInfo {
            endpoints: Vec::new(),
            udp_mapper_servers: Vec::new(),
            tcp_mapper_servers: Vec::new(),
        }
    }

    /// Whether `self` and `other` hold the same endpoints and mapper servers, in the same order.
    pub fn same_as(&self, other: &StaticContactInfo) -> (r: bool)
        ensures
            r == (self@ == other@),
    {
        same_endpoints(&self.endpoints, &other.endpoints) && same_addrs(
            &self.udp_mapper_servers,
            &other.udp_mapper_servers,
        ) && same_addrs(&self.tcp_mapper_servers, &other.tcp_mapper_servers)
    }

    /// A copy of `self`.
    pub fn duplicate(&self) -> (r: StaticContactInfo)
        ensures
            r@ == self@,
    {
        StaticContactInfo {
            endpoints: copy_items(&self.endpoints),
            udp_mapper_servers: copy_items(&self.udp_mapper_servers),
            tcp_mapper_servers: copy_items(&self.tcp_mapper_servers),
        }
    }
}

} // verus!
