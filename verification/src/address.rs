//! Network addresses of the players, as plain values.
use vstd::prelude::*;

verus! {

/// A socket address: an IPv4 address (as a big-endian number) and port, or
/// an IPv6 address with port, flow information and scope id. Two addresses
/// are equal when all their parts are, as for `std::net::SocketAddr`.
#[derive(Clone, Copy, Debug, PartialEq, Eq, Hash, Structural)]
pub enum PeerAddr {
    V4 { ip: u32, port: u16 },
    V6 { ip6: u128, port: u16, flowinfo: u32, scope_id: u32 },
}

/// The port the host listens on.
pub const HOST_PORT: u16 = 42069;

/// `127.0.0.1` as a big-endian number.
pub const LOCALHOST_V4: u32 = 0x7f00_0001;

/// The address a resolver picks among the candidates: the first IPv4
/// address if there is one, otherwise the first address, if any.
pub open spec fn preferred(candidates: Seq<PeerAddr>) -> Option<PeerAddr> {
    if exists|i: int| 0 <= i < candidates.len() && candidates[i] is V4 {
        let i = choose|i: int|
            0 <= i < candidates.len() && candidates[i] is V4 && forall|k: int|
                0 <= k < i ==> !(candidates[k] is V4);
        Some(candidates[i])
    } else if candidates.len() > 0 {
        Some(candidates[0])
    } else {
        None
    }
}

/// Picks the address to talk to among the resolved candidates: IPv4 is
/// preferred, for local testing.
pub fn preferred_address(candidates: &Vec<PeerAddr>) -> (r: Option<PeerAddr>)
    ensures
        r == preferred(candidates@),
        r matches Some(a) ==> candidates@.contains(a),
{
    let mut i: usize = 0;
    while i < candidates.len()
        invariant
            0 <= i <= candidates@.len(),
            forall|k: int| 0 <= k < i ==> !(candidates@[k] is V4),
        decreases candidates@.len() - i,
    {
        if let PeerAddr::V4 { .. } = candidates[i] {
            let ghost c = candidates@;
            assert(0 <= i < c.len() && c[i as int] is V4);
            let ghost j = choose|j: int|
                0 <= j < c.len() && c[j] is V4 && forall|k: int| 0 <= k < j ==> !(c[k] is V4);
            assert(j == i as int) by {
                if j < i {
                } else if j > i {
                    assert(!(c[i as int] is V4));
                }
            }
            return Some(candidates[i]);
        }
        i = i + 1;
    }
    if candidates.len() > 0 {
        Some(candidates[0])
    } else {
        None
    }
}

/// The address a socket binds to: the resolved one, or `127.0.0.1:42069`
/// when resolution failed.
pub fn bind_address(resolved: Option<PeerAddr>) -> (a: PeerAddr)
    ensures
        a == match resolved {
            Some(r) => r,
            None => PeerAddr::V4 { ip: LOCALHOST_V4, port: HOST_PORT },
        },
{
    match resolved {
        Some(r) => r,
        None => PeerAddr::V4 { ip: LOCALHOST_V4, port: HOST_PORT },
    }
}

} // verus!
