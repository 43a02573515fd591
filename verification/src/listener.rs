//! The listener specification and its resolution from text.
//!
//! One text token names how to receive packets: a bare socket address binds
//! directly (unicast) or, when its IP is multicast, joins the group on a
//! default interface; a multicast group with a `/detail` suffix names the
//! joining interface explicitly, by local address for IPv4 and by numeric
//! index for IPv6. A unicast address never takes a `/detail` suffix.

use vstd::prelude::*;

use crate::addr::{Ipv4Address, SocketAddress, SocketAddressV4, SocketAddressV6};
use crate::parsing::{
    find_slash, find_slash_exec, read_ipv4_full, read_sockaddr_full, read_u32_full, spec_ipv4_full,
    spec_sockaddr_full, spec_u32_full,
};

verus! {

/// How the relay receives packets.
#[derive(Clone, Copy, Debug, PartialEq, Eq, Structural)]
#[allow(inconsistent_fields)]
pub enum ListenerSpec {
    /// Bind directly to one unicast socket address, IPv4 or IPv6.
    Unicast(SocketAddress),
    /// Join an IPv4 multicast group; `local_addr` selects the joining
    /// interface, with the unspecified address standing for any interface.
    MulticastV4 { multicast_group: SocketAddressV4, local_addr: Ipv4Address },
    /// Join an IPv6 multicast group; `interface_id` selects the joining
    /// interface by index, with 0 standing for the default interface.
    MulticastV6 { multicast_group: SocketAddressV6, interface_id: u32 },
}

/// A listener specification that could not be resolved. The grammar gives
/// no finer cause: the token as a whole is not a valid specification.
#[derive(Clone, Copy, Debug, PartialEq, Eq, Structural)]
pub struct ParseError;

impl ListenerSpec {
    /// A multicast variant only ever carries a group whose IP really lies
    /// in the multicast range of its family.
    pub open spec fn wf(self) -> bool {
        match self {
            ListenerSpec::Unicast(_) => true,
            ListenerSpec::MulticastV4 { multicast_group, .. } => multicast_group.ip.spec_is_multicast(),
            ListenerSpec::MulticastV6 { multicast_group, .. } => multicast_group.ip.spec_is_multicast(),
        }
    }
}

/// What a bare socket address resolves to: its multicast variant with the
/// default interface selection where the IP is multicast, unicast otherwise.
pub open spec fn spec_classify(a: SocketAddress) -> ListenerSpec {
    match a {
        SocketAddress::V4(a4) => if a4.ip.spec_is_multicast() {
            ListenerSpec::MulticastV4 {
                multicast_group: a4,
                local_addr: Ipv4Address::spec_unspecified(),
            }
        } else {
            ListenerSpec::Unicast(a)
        },
        SocketAddress::V6(a6) => if a6.ip.spec_is_multicast() {
            ListenerSpec::MulticastV6 { multicast_group: a6, interface_id: 0 }
        } else {
            ListenerSpec::Unicast(a)
        },
    }
}

/// What one text token resolves to, or nothing where it is rejected.
///
/// A bare socket address is classified by its IP. Otherwise the token is
/// split at its first `/`: the part before it must be a multicast socket
/// address, and the part after it must match the group's family — a local
/// IPv4 address for an IPv4 group, a 32-bit interface index for an IPv6
/// group. Everything else is rejected; in particular a unicast address
/// with a `/detail` suffix is rejected, never downgraded.
pub open spec fn spec_resolve(s: Seq<u8>) -> Option<ListenerSpec> {
    match spec_sockaddr_full(s) {
        Some(a) => Some(spec_classify(a)),
        None => {
            let k = find_slash(s);
            if k < 0 {
                None
            } else {
                let group = s.subrange(0, k);
                let detail = s.subrange(k + 1, s.len() as int);
                match spec_sockaddr_full(group) {
                    Some(SocketAddress::V4(g)) => if g.ip.spec_is_multicast() {
                        match spec_ipv4_full(detail) {
                            Some(local_addr) => Some(
                                ListenerSpec::MulticastV4 { multicast_group: g, local_addr },
                            ),
                            None => None,
                        }
                    } else {
                        None
                    },
                    Some(SocketAddress::V6(g)) => if g.ip.spec_is_multicast() {
                        match spec_u32_full(detail) {
                            Some(interface_id) => Some(
                                ListenerSpec::MulticastV6 { multicast_group: g, interface_id },
                            ),
                            None => None,
                        }
                    } else {
                        None
                    },
                    None => None,
                }
            }
        },
    }
}

impl ListenerSpec {
    /// Resolve one text token into a listener specification: exactly
    /// `spec_resolve`, and every resolved specification is well-formed.
    pub fn from_text(s: &[u8]) -> (r: Result<ListenerSpec, ParseError>)
        ensures
            match r {
                Ok(l) => spec_resolve(s@) == Some(l) && l.wf(),
                Err(_) => spec_resolve(s@) is None,
            },
    {
        match read_sockaddr_full(s) {
            Some(a) => {
                let r = match a {
                    SocketAddress::V4(a4) => {
                        if a4.ip.is_multicast() {
                            ListenerSpec::MulticastV4 {
                                multicast_group: a4,
                                local_addr: Ipv4Address::unspecified(),
                            }
                        } else {
                            ListenerSpec::Unicast(a)
                        }
                    },
                    SocketAddress::V6(a6) => {
                        if a6.ip.is_multicast() {
                            ListenerSpec::MulticastV6 { multicast_group: a6, interface_id: 0 }
                        } else {
                            ListenerSpec::Unicast(a)
                        }
                    },
                };
                Ok(r)
            },
            None => {
                match find_slash_exec(s) {
                    None => Err(ParseError),
                    Some(k) => {
                        let n = s.len();
                        assert(k < n);
                        let group = &s[0..k];
                        let detail = &s[k + 1..n];
                        match read_sockaddr_full(group) {
                            Some(SocketAddress::V4(g)) => {
                                if g.ip.is_multicast() {
                                    match read_ipv4_full(detail) {
                                        Some(local_addr) => Ok(
                                            ListenerSpec::MulticastV4 {
                                                multicast_group: g,
                                                local_addr,
                                            },
                                        ),
                                        None => Err(ParseError),
                                    }
                                } else {
                                    Err(ParseError)
                                }
                            },
                            Some(SocketAddress::V6(g)) => {
                                if g.ip.is_multicast() {
                                    match read_u32_full(detail) {
                                        Some(interface_id) => Ok(
                                            ListenerSpec::MulticastV6 {
                                                multicast_group: g,
                                                interface_id,
                                            },
                                        ),
                                        None => Err(ParseError),
                                    }
                                } else {
                                    Err(ParseError)
                                }
                            },
                            None => Err(ParseError),
                        }
                    },
                }
            },
        }
    }
}

/// Resolve destination tokens, each a bare socket address of either family,
/// unicast or multicast. Succeeds with one address per token, in order, or
/// fails with the index of the first token that is not a socket address.
pub fn resolve_destinations(tokens: &Vec<&[u8]>) -> (r: Result<Vec<SocketAddress>, usize>)
    ensures
        match r {
            Ok(ds) => ds@.len() == tokens@.len() && forall|i: int|
                0 <= i < tokens@.len() ==> spec_sockaddr_full(tokens@[i]@) == Some(ds@[i]),
            Err(ix) => ix < tokens@.len() && spec_sockaddr_full(tokens@[ix as int]@) is None
                && forall|j: int| 0 <= j < ix ==> spec_sockaddr_full(tokens@[j]@) is Some,
        },
{
    let mut out: Vec<SocketAddress> = Vec::new();
    let mut i: usize = 0;
    while i < tokens.len()
        invariant
            i <= tokens@.len(),
            out@.len() == i,
            forall|j: int| 0 <= j < i ==> spec_sockaddr_full(tokens@[j]@) == Some(out@[j]),
        decreases tokens@.len() - i,
    {
        match read_sockaddr_full(tokens[i]) {
            Some(a) => {
                out.push(a);
            },
            None => {
                proof {
                    assert forall|j: int| 0 <= j < i implies spec_sockaddr_full(
                        tokens@[j]@,
                    ) is Some by {
                        assert(spec_sockaddr_full(tokens@[j]@) == Some(out@[j]));
                    }
                }
                return Err(i);
            },
        }
        i = i + 1;
    }
    Ok(out)
}

} // verus!
