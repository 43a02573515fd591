//! Plain models of IPv4 and IPv6 socket addresses.
//!
//! The relay only ever reads an address's family, its multicast property,
//! its raw address bytes and its port, so an address is held here as plain
//! integers in network order.

use vstd::prelude::*;

verus! {

/// An IPv4 address as its four octets in network order.
#[derive(Clone, Copy, Debug, PartialEq, Eq, Structural)]
pub struct Ipv4Address {
    pub o0: u8,
    pub o1: u8,
    pub o2: u8,
    pub o3: u8,
}

impl Ipv4Address {
    pub fn new(o0: u8, o1: u8, o2: u8, o3: u8) -> (r: Ipv4Address)
        ensures
            r == (Ipv4Address { o0, o1, o2, o3 }),
    {
        Ipv4Address { o0, o1, o2, o3 }
    }

    /// The unspecified address `0.0.0.0`, standing for "any interface".
    pub open spec fn spec_unspecified() -> Ipv4Address {
        Ipv4Address { o0: 0, o1: 0, o2: 0, o3: 0 }
    }

    pub fn unspecified() -> (r: Ipv4Address)
        ensures
            r == Ipv4Address::spec_unspecified(),
    {
        Ipv4Address { o0: 0, o1: 0, o2: 0, o3: 0 }
    }

    /// The IPv4 multicast range `224.0.0.0/4`: a first octet of 224 through 239.
    pub open spec fn spec_is_multicast(self) -> bool {
        224 <= self.o0 <= 239
    }

    pub fn is_multicast(&self) -> (r: bool)
        ensures
            r == self.spec_is_multicast(),
    {
        224 <= self.o0 && self.o0 <= 239
    }
}

/// An IPv6 address as its eight 16-bit groups in network order.
#[derive(Clone, Copy, Debug, PartialEq, Eq, Structural)]
pub struct Ipv6Address {
    pub g0: u16,
    pub g1: u16,
    pub g2: u16,
    pub g3: u16,
    pub g4: u16,
    pub g5: u16,
    pub g6: u16,
    pub g7: u16,
}

impl Ipv6Address {
    pub fn new(g0: u16, g1: u16, g2: u16, g3: u16, g4: u16, g5: u16, g6: u16, g7: u16) -> (r:
        Ipv6Address)
        ensures
            r == (Ipv6Address { g0, g1, g2, g3, g4, g5, g6, g7 }),
    {
        Ipv6Address { g0, g1, g2, g3, g4, g5, g6, g7 }
    }

    /// The IPv6 multicast range `ff00::/8`: a first group whose high byte is `0xff`.
    pub open spec fn spec_is_multicast(self) -> bool {
        0xff00 <= self.g0
    }

    pub fn is_multicast(&self) -> (r: bool)
        ensures
            r == self.spec_is_multicast(),
    {
        0xff00 <= self.g0
    }
}

/// An IPv4 socket address: host and port.
#[derive(Clone, Copy, Debug, PartialEq, Eq, Structural)]
pub struct SocketAddressV4 {
    pub ip: Ipv4Address,
    pub port: u16,
}

impl SocketAddressV4 {
    pub fn new(ip: Ipv4Address, port: u16) -> (r: SocketAddressV4)
        ensures
            r == (SocketAddressV4 { ip, port }),
    {
        SocketAddressV4 { ip, port }
    }
}

/// An IPv6 socket address: host and port.
#[derive(Clone, Copy, Debug, PartialEq, Eq, Structural)]
pub struct SocketAddressV6 {
    pub ip: Ipv6Address,
    pub port: u16,
}

impl SocketAddressV6 {
    pub fn new(ip: Ipv6Address, port: u16) -> (r: SocketAddressV6)
        ensures
            r == (SocketAddressV6 { ip, port }),
    {
        SocketAddressV6 { ip, port }
    }
}

/// A socket address of either family.
#[derive(Clone, Copy, Debug, PartialEq, Eq, Structural)]
pub enum SocketAddress {
    V4(SocketAddressV4),
    V6(SocketAddressV6),
}

impl SocketAddress {
    /// Whether the address's IP lies in the multicast range of its family.
    pub open spec fn spec_is_multicast(self) -> bool {
        match self {
            SocketAddress::V4(a) => a.ip.spec_is_multicast(),
            SocketAddress::V6(a) => a.ip.spec_is_multicast(),
        }
    }

    pub fn is_multicast(&self) -> (r: bool)
        ensures
            r == self.spec_is_multicast(),
    {
        match self {
            SocketAddress::V4(a) => a.ip.is_multicast(),
            SocketAddress::V6(a) => a.ip.is_multicast(),
        }
    }

}

} // verus!
