//! The decisions of a service: whether a connect request can go ahead, which endpoints it
//! knows itself by, and the numbering of contact info requests.

use vstd::prelude::*;
use crate::endpoint::{Endpoint, Protocol};
use crate::socket_addr::SocketAddr;

verus! {

/// Why a connect request was refused.
#[derive(Clone, Copy, Debug, PartialEq, Eq, Structural)]
pub enum ConnectRefusal {
    /// The two contact infos were not prepared for the same connection.
    SecretMismatch,
    /// The peer gave no UDP rendezvous address.
    NoRendezvousAddr,
}

impl ConnectRefusal {
    /// The text of the error that the refused connect request returns.
    pub open spec fn spec_message(self) -> Seq<char> {
        match self {
            ConnectRefusal::SecretMismatch => "Cannot connect. our_contact_info and their_contact_info are not associated with the same connection."@,
            ConnectRefusal::NoRendezvousAddr => "No udp rendezvous address supplied. Direct connections and tcp rendezvous connect not yet supported."@,
        }
    }

    /// The text of the error that the refused connect request returns.
    pub fn message(&self) -> (m: String)
        ensures
            m@ == self.spec_message(),
    {
        match self {
            ConnectRefusal::SecretMismatch => String::from_str(
                "Cannot connect. our_contact_info and their_contact_info are not associated with the same connection.",
            ),
            ConnectRefusal::NoRendezvousAddr => String::from_str(
                "No udp rendezvous address supplied. Direct connections and tcp rendezvous connect not yet supported.",
            ),
        }
    }
}

/// Whether two optional hole punching secrets are equal.
pub fn same_secret(a: &Option<[u8; 4]>, b: &Option<[u8; 4]>) -> (r: bool)
    ensures
        r == match (a, b) {
            (Some(x), Some(y)) => x@ == y@,
            (None, None) => true,
            _ => false,
        },
{
    match (a, b) {
        (Some(x), Some(y)) => {
            let r = x[0] == y[0] && x[1] == y[1] && x[2] == y[2] && x[3] == y[3];
            proof {
                if r {
                    assert(x@ =~= y@);
                }
            }
            r
        },
        (None, None) => true,
        _ => false,
    }
}

/// Checks a connect request before any hole punching: both contact infos must carry the same
/// secret, and the peer must have given a UDP rendezvous address. The secret is checked first.
pub fn check_connect(
    our_secret: &Option<[u8; 4]>,
    their_secret: &Option<[u8; 4]>,
    their_udp_rendezvous_addrs: &Vec<SocketAddr>,
) -> (r: Result<(), ConnectRefusal>)
    ensures
        !(match (our_secret, their_secret) {
            (Some(x), Some(y)) => x@ == y@,
            (None, None) => true,
            _ => false,
        }) ==> r == Err::<(), ConnectRefusal>(ConnectRefusal::SecretMismatch),
        (match (our_secret, their_secret) {
            (Some(x), Some(y)) => x@ == y@,
            (None, None) => true,
            _ => false,
        }) ==> r == (if their_udp_rendezvous_addrs@.len() == 0 {
            Err::<(), ConnectRefusal>(ConnectRefusal::NoRendezvousAddr)
        } else {
            Ok::<(), ConnectRefusal>(())
        }),
{
    if !same_secret(our_secret, their_secret) {
        Err(ConnectRefusal::SecretMismatch)
    } else if their_udp_rendezvous_addrs.len() == 0 {
        Err(ConnectRefusal::NoRendezvousAddr)
    } else {
        Ok(())
    }
}

/// The TCP endpoint of an acceptor address.
pub open spec fn tcp_endpoint(a: SocketAddr) -> Endpoint {
    Endpoint { protocol: Protocol::Tcp, socket_addr: a }
}

/// The endpoints that a service is known by without any port mapping: one TCP endpoint per
/// acceptor address, in the same order.
pub fn get_known_external_endpoints(tcp_acceptors: &Vec<SocketAddr>) -> (eps: Vec<Endpoint>)
    ensures
        eps@ == tcp_acceptors@.map_values(|a: SocketAddr| tcp_endpoint(a)),
        eps@.len() == tcp_acceptors@.len(),
        forall|i: int|
            0 <= i < eps@.len() ==> (#[trigger] eps@[i]).protocol == Protocol::Tcp
                && eps@[i].socket_addr == tcp_acceptors@[i],
{
    let mut eps: Vec<Endpoint> = Vec::new();
    let mut i: usize = 0;
    while i < tcp_acceptors.len()
        invariant
            i <= tcp_acceptors@.len(),
            eps@ =~= tcp_acceptors@.subrange(0, i as int).map_values(|a: SocketAddr| tcp_endpoint(a)),
        decreases tcp_acceptors@.len() - i,
    {
        eps.push(Endpoint::from_socket_addr(Protocol::Tcp, tcp_acceptors[i]));
        i = i + 1;
        proof {
            assert(eps@ =~= tcp_acceptors@.subrange(0, i as int).map_values(
                |a: SocketAddr| tcp_endpoint(a),
            ));
        }
    }
    proof {
        assert(tcp_acceptors@.subrange(0, tcp_acceptors@.len() as int) =~= tcp_acceptors@);
    }
    eps
}

/// The endpoint of an acceptor address is a TCP endpoint at that very address, whatever the
/// address family.
pub proof fn law_acceptor_endpoints_are_tcp(a: SocketAddr)
    ensures
        tcp_endpoint(a).protocol == Protocol::Tcp,
        tcp_endpoint(a).socket_addr == a,
{
}

/// The numbering of contact info requests: each request gets the next number.
#[derive(Debug)]
pub struct SeqIds {
    next: u32,
}

impl SeqIds {
    /// The number that the next request gets.
    pub closed spec fn spec_next(&self) -> u32 {
        self.next
    }

    /// Numbering from 0.
    pub fn new() -> (s: SeqIds)
        ensures
            s.spec_next() == 0,
    {
        SeqIds { next: 0 }
    }

    /// Takes the next number.
    pub fn take(&mut self) -> (id: u32)
        requires
            old(self).spec_next() < u32::MAX,
        ensures
            id == old(self).spec_next(),
            final(self).spec_next() == old(self).spec_next() + 1,
    {
        let id = self.next;
        self.next = self.next + 1;
        id
    }
}

} // verus!
