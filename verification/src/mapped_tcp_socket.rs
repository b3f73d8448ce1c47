//! The addresses of a TCP socket mapped for NAT traversal: those known without asking anyone
//! (the local interface addresses with the socket's port), and what a STUN peer's reply to an
//! echo-address request tells.

use vstd::prelude::*;
use crate::socket_addr::SocketAddr;

verus! {

/// The address that the socket is bound to: all IPv4 interfaces, at `port`.
pub fn unspecified_v4(port: u16) -> (a: SocketAddr)
    ensures
        a == (SocketAddr::V4 { ip: 0, port }),
{
    SocketAddr::V4 { ip: 0, port }
}

/// The address of an IPv4 interface at `port`.
pub open spec fn interface_addr(ip: u32, port: u16) -> SocketAddr {
    SocketAddr::V4 { ip, port }
}

/// The addresses of the socket on each local IPv4 interface, in interface order, all at the
/// port that the socket was bound to.
pub fn local_mapped_addrs(ifv4_ips: &Vec<u32>, port: u16) -> (addrs: Vec<SocketAddr>)
    ensures
        addrs@ == ifv4_ips@.map_values(|ip: u32| interface_addr(ip, port)),
{
    let mut addrs: Vec<SocketAddr> = Vec::new();
    let mut i: usize = 0;
    while i < ifv4_ips.len()
        invariant
            i <= ifv4_ips@.len(),
            addrs@ =~= ifv4_ips@.subrange(0, i as int).map_values(|ip: u32| interface_addr(ip, port)),
        decreases ifv4_ips@.len() - i,
    {
        addrs.push(SocketAddr::V4 { ip: ifv4_ips[i], port });
        i = i + 1;
        proof {
            assert(addrs@ =~= ifv4_ips@.subrange(0, i as int).map_values(
                |ip: u32| interface_addr(ip, port),
            ));
        }
    }
    proof {
        assert(ifv4_ips@.subrange(0, ifv4_ips@.len() as int) =~= ifv4_ips@);
    }
    addrs
}

/// The mapped addresses of the socket: the local ones, then those that the mappers reported.
pub fn all_mapped_addrs(local: Vec<SocketAddr>, reported: Vec<SocketAddr>) -> (addrs: Vec<
    SocketAddr,
>)
    ensures
        addrs@ == local@ + reported@,
{
    let mut addrs = local;
    let mut reported = reported;
    addrs.append(&mut reported);
    addrs
}

/// The reply of a STUN peer to an echo-address request, as far as it matters here: the peer's
/// echo of our external address, or any other message.
#[derive(Clone, Copy, Debug, PartialEq, Eq, Structural)]
pub enum EchoReply {
    /// The address that the peer saw our request come from.
    EchoAddrResp(SocketAddr),
    /// Any other message.
    Other,
}

/// Why a STUN peer gave no external address.
#[derive(Clone, Copy, Debug, PartialEq, Eq, Structural)]
pub enum ExtAddrError {
    /// The peer answered with something else, or closed the stream without an answer.
    InvalidData,
}

/// The external address that a STUN peer's first reply gives (`None` when the stream ended
/// before any reply): only an echo of our address gives one.
pub fn ext_addr_of_reply(reply: Option<EchoReply>) -> (r: Result<SocketAddr, ExtAddrError>)
    ensures
        match reply {
            Some(EchoReply::EchoAddrResp(a)) => r == Ok::<SocketAddr, ExtAddrError>(a),
            _ => r == Err::<SocketAddr, ExtAddrError>(ExtAddrError::InvalidData),
        },
{
    match reply {
        Some(EchoReply::EchoAddrResp(a)) => Ok(a),
        _ => Err(ExtAddrError::InvalidData),
    }
}

} // verus!
