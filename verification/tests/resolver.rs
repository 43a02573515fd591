//! Resolution of listener specification tokens.

use udpforwarder::addr::{
    Ipv4Address, Ipv6Address, SocketAddress, SocketAddressV4, SocketAddressV6,
};
use udpforwarder::listener::ListenerSpec;

#[test]
fn listener_spec_ipv4_unicast_ok() {
    let spec = "10.1.1.10:4000";
    let expected = ListenerSpec::Unicast(SocketAddress::V4(SocketAddressV4::new(
        Ipv4Address::new(10, 1, 1, 10),
        4000,
    )));

    assert_eq!(expected, ListenerSpec::from_text(spec.as_bytes()).unwrap());
}

#[test]
fn listener_spec_ipv4_multicast_no_details_ok() {
    let spec = "224.10.10.10:4000";
    let expected = ListenerSpec::MulticastV4 {
        multicast_group: SocketAddressV4::new(Ipv4Address::new(224, 10, 10, 10), 4000),
        local_addr: Ipv4Address::unspecified(),
    };

    assert_eq!(expected, ListenerSpec::from_text(spec.as_bytes()).unwrap());
}

#[test]
fn listener_spec_ipv4_multicast_local_addr_ok() {
    let spec = "224.10.10.10:4000/192.168.1.10";
    let expected = ListenerSpec::MulticastV4 {
        multicast_group: SocketAddressV4::new(Ipv4Address::new(224, 10, 10, 10), 4000),
        local_addr: Ipv4Address::new(192, 168, 1, 10),
    };

    assert_eq!(expected, ListenerSpec::from_text(spec.as_bytes()).unwrap());
}

#[test]
fn listener_spec_ipv6_unicast_ok() {
    let spec = "[2001::1]:4000";
    let expected = ListenerSpec::Unicast(SocketAddress::V6(SocketAddressV6::new(
        Ipv6Address::new(0x2001, 0, 0, 0, 0, 0, 0, 1),
        4000,
    )));

    assert_eq!(expected, ListenerSpec::from_text(spec.as_bytes()).unwrap());
}

#[test]
fn listener_spec_ipv6_multicast_no_details_ok() {
    let spec = "[ff0e::1]:4000";
    let expected = ListenerSpec::MulticastV6 {
        multicast_group: SocketAddressV6::new(Ipv6Address::new(0xff0e, 0, 0, 0, 0, 0, 0, 1), 4000),
        interface_id: 0,
    };

    assert_eq!(expected, ListenerSpec::from_text(spec.as_bytes()).unwrap());
}

#[test]
fn listener_spec_ipv6_multicast_interface_id_ok() {
    let spec = "[ff0e::1]:4000/2";
    let expected = ListenerSpec::MulticastV6 {
        multicast_group: SocketAddressV6::new(Ipv6Address::new(0xff0e, 0, 0, 0, 0, 0, 0, 1), 4000),
        interface_id: 2,
    };

    assert_eq!(expected, ListenerSpec::from_text(spec.as_bytes()).unwrap());
}

#[test]
fn listener_spec_ipv6_full_groups_ok() {
    let spec = "[2001:db8:0:1:2:3:4:5]:80";
    let expected = ListenerSpec::Unicast(SocketAddress::V6(SocketAddressV6::new(
        Ipv6Address::new(0x2001, 0xdb8, 0, 1, 2, 3, 4, 5),
        80,
    )));

    assert_eq!(expected, ListenerSpec::from_text(spec.as_bytes()).unwrap());
}

#[test]
fn listener_spec_ipv6_embedded_ipv4_ok() {
    let spec = "[::ffff:10.1.1.10]:80";
    let expected = ListenerSpec::Unicast(SocketAddress::V6(SocketAddressV6::new(
        Ipv6Address::new(0, 0, 0, 0, 0, 0xffff, 0x0a01, 0x010a),
        80,
    )));

    assert_eq!(expected, ListenerSpec::from_text(spec.as_bytes()).unwrap());
}

#[test]
fn listener_spec_ipv6_trailing_compression_ok() {
    let spec = "[1::]:9";
    let expected = ListenerSpec::Unicast(SocketAddress::V6(SocketAddressV6::new(
        Ipv6Address::new(1, 0, 0, 0, 0, 0, 0, 0),
        9,
    )));

    assert_eq!(expected, ListenerSpec::from_text(spec.as_bytes()).unwrap());
}

#[test]
fn listener_spec_port_leading_zeros_ok() {
    let spec = "10.1.1.10:04000";
    let expected = ListenerSpec::Unicast(SocketAddress::V4(SocketAddressV4::new(
        Ipv4Address::new(10, 1, 1, 10),
        4000,
    )));

    assert_eq!(expected, ListenerSpec::from_text(spec.as_bytes()).unwrap());
}

#[test]
fn listener_spec_interface_id_plus_sign_ok() {
    let spec = "[ff0e::1]:4000/+2";
    let expected = ListenerSpec::MulticastV6 {
        multicast_group: SocketAddressV6::new(Ipv6Address::new(0xff0e, 0, 0, 0, 0, 0, 0, 1), 4000),
        interface_id: 2,
    };

    assert_eq!(expected, ListenerSpec::from_text(spec.as_bytes()).unwrap());
}

#[test]
fn listener_spec_unicast_with_details_fails() {
    assert!(ListenerSpec::from_text("10.1.1.10:4000/192.168.1.10".as_bytes()).is_err());
    assert!(ListenerSpec::from_text("[2001::1]:4000/2".as_bytes()).is_err());
}

#[test]
fn listener_spec_family_mismatched_details_fail() {
    assert!(ListenerSpec::from_text("[ff0e::1]:4000/192.168.1.10".as_bytes()).is_err());
    assert!(ListenerSpec::from_text("224.10.10.10:4000/2".as_bytes()).is_err());
}

#[test]
fn listener_spec_unstructured_text_fails() {
    assert!(ListenerSpec::from_text("".as_bytes()).is_err());
    assert!(ListenerSpec::from_text("no address here".as_bytes()).is_err());
    assert!(ListenerSpec::from_text("10.1.1.10".as_bytes()).is_err());
    assert!(ListenerSpec::from_text(":4000".as_bytes()).is_err());
    assert!(ListenerSpec::from_text("224.10.10.10:4000/".as_bytes()).is_err());
    assert!(ListenerSpec::from_text("/192.168.1.10".as_bytes()).is_err());
}

#[test]
fn listener_spec_malformed_numbers_fail() {
    // Port above 65535, octet above 255, octet with a redundant leading zero.
    assert!(ListenerSpec::from_text("10.1.1.10:65536".as_bytes()).is_err());
    assert!(ListenerSpec::from_text("256.1.1.10:4000".as_bytes()).is_err());
    assert!(ListenerSpec::from_text("010.1.1.10:4000".as_bytes()).is_err());
    // A fifth group of an IPv6 address, or a group of five digits.
    assert!(ListenerSpec::from_text("[12345::1]:80".as_bytes()).is_err());
    assert!(ListenerSpec::from_text("[1:2:3:4:5:6:7:8:9]:80".as_bytes()).is_err());
    // Interface index above 32 bits.
    assert!(ListenerSpec::from_text("[ff0e::1]:4000/4294967296".as_bytes()).is_err());
}

#[test]
fn listener_spec_ipv6_malformed_compression_fails() {
    // Two compressions, a lone colon, and an embedded IPv4 before the end.
    assert!(ListenerSpec::from_text("[1::2::3]:80".as_bytes()).is_err());
    assert!(ListenerSpec::from_text("[1:]:80".as_bytes()).is_err());
    assert!(ListenerSpec::from_text("[1.2.3.4::5]:80".as_bytes()).is_err());
}

#[test]
fn listener_spec_detail_runs_to_end_of_token() {
    // The token splits at its first slash: everything behind it must be
    // one whole detail.
    assert!(ListenerSpec::from_text("224.10.10.10:4000/192.168.1.10/5".as_bytes()).is_err());
    assert!(ListenerSpec::from_text("[ff0e::1]:4000/2/3".as_bytes()).is_err());
}

#[test]
fn listener_spec_unspecified_local_addr_detail_ok() {
    let spec = "224.10.10.10:4000/0.0.0.0";
    let expected = ListenerSpec::MulticastV4 {
        multicast_group: SocketAddressV4::new(Ipv4Address::new(224, 10, 10, 10), 4000),
        local_addr: Ipv4Address::unspecified(),
    };

    assert_eq!(expected, ListenerSpec::from_text(spec.as_bytes()).unwrap());
}

#[test]
fn listener_spec_scope_id_not_in_grammar() {
    // The listener grammar is `[<ipv6>]:<port>`: a `%scope` annotation is
    // not part of it.
    assert!(ListenerSpec::from_text("[ff0e::1%2]:4000".as_bytes()).is_err());
}

#[test]
fn listener_spec_port_boundary_ok() {
    let expected = ListenerSpec::Unicast(SocketAddress::V4(SocketAddressV4::new(
        Ipv4Address::new(10, 1, 1, 10),
        65535,
    )));
    assert_eq!(
        expected,
        ListenerSpec::from_text("10.1.1.10:65535".as_bytes()).unwrap()
    );
}

#[test]
fn listener_spec_multicast_range_boundaries() {
    // 223.x is unicast, 224.x and 239.x are multicast, 240.x is unicast again.
    let low = ListenerSpec::from_text("223.0.0.1:1".as_bytes()).unwrap();
    assert!(matches!(low, ListenerSpec::Unicast(_)));
    let first = ListenerSpec::from_text("224.0.0.1:1".as_bytes()).unwrap();
    assert!(matches!(first, ListenerSpec::MulticastV4 { .. }));
    let last = ListenerSpec::from_text("239.255.255.255:1".as_bytes()).unwrap();
    assert!(matches!(last, ListenerSpec::MulticastV4 { .. }));
    let high = ListenerSpec::from_text("240.0.0.1:1".as_bytes()).unwrap();
    assert!(matches!(high, ListenerSpec::Unicast(_)));
    // fe00:: is unicast, ff00:: begins the IPv6 multicast range.
    let v6_low = ListenerSpec::from_text("[fe00::1]:1".as_bytes()).unwrap();
    assert!(matches!(v6_low, ListenerSpec::Unicast(_)));
    let v6_first = ListenerSpec::from_text("[ff00::1]:1".as_bytes()).unwrap();
    assert!(matches!(v6_first, ListenerSpec::MulticastV6 { .. }));
}
