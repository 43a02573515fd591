//! Destination resolution and the pure fan-out decisions.

use udpforwarder::addr::{
    Ipv4Address, Ipv6Address, SocketAddress, SocketAddressV4, SocketAddressV6,
};
use udpforwarder::forwarding::{fan_out, plan_senders, relay_step};
use udpforwarder::listener::resolve_destinations;

fn v4(o0: u8, o1: u8, o2: u8, o3: u8, port: u16) -> SocketAddress {
    SocketAddress::V4(SocketAddressV4::new(Ipv4Address::new(o0, o1, o2, o3), port))
}

fn v6_loopback(port: u16) -> SocketAddress {
    SocketAddress::V6(SocketAddressV6::new(Ipv6Address::new(0, 0, 0, 0, 0, 0, 0, 1), port))
}

#[test]
fn destinations_resolve_in_order() {
    let tokens: Vec<&[u8]> = vec![
        "127.0.0.1:4001".as_bytes(),
        "[::1]:4002".as_bytes(),
        "224.10.10.10:4000".as_bytes(),
    ];
    let dests = resolve_destinations(&tokens).unwrap();
    assert_eq!(
        dests,
        vec![v4(127, 0, 0, 1, 4001), v6_loopback(4002), v4(224, 10, 10, 10, 4000)]
    );
}

#[test]
fn destinations_first_bad_token_reported() {
    let tokens: Vec<&[u8]> = vec![
        "127.0.0.1:4001".as_bytes(),
        "not an address".as_bytes(),
        "also bad".as_bytes(),
    ];
    assert_eq!(resolve_destinations(&tokens).unwrap_err(), 1);
}

#[test]
fn destinations_reject_detail_suffix() {
    // A destination token is a bare socket address: the listener's
    // group/detail syntax is not admitted here.
    let tokens: Vec<&[u8]> = vec!["224.10.10.10:4000/192.168.1.10".as_bytes()];
    assert_eq!(resolve_destinations(&tokens).unwrap_err(), 0);
}

#[test]
fn sender_plan_per_family() {
    let both = plan_senders(&vec![v4(127, 0, 0, 1, 1), v6_loopback(2)]);
    assert!(both.need_v4 && both.need_v6);

    let only_v4 = plan_senders(&vec![v4(127, 0, 0, 1, 1), v4(10, 1, 1, 10, 2)]);
    assert!(only_v4.need_v4 && !only_v4.need_v6);

    let only_v6 = plan_senders(&vec![v6_loopback(1)]);
    assert!(!only_v6.need_v4 && only_v6.need_v6);

    let none = plan_senders(&vec![]);
    assert!(!none.need_v4 && !none.need_v6);
}

#[test]
fn fan_out_copies_bytes_to_every_destination() {
    let dests = vec![v4(127, 0, 0, 1, 4001), v6_loopback(4002)];
    let payload = [7u8, 0, 255, 3];
    let datagrams = fan_out(&payload, &dests);
    assert_eq!(datagrams.len(), 2);
    assert_eq!(datagrams[0].dest, dests[0]);
    assert_eq!(datagrams[1].dest, dests[1]);
    assert_eq!(datagrams[0].payload, payload.to_vec());
    assert_eq!(datagrams[1].payload, payload.to_vec());
}

#[test]
fn fan_out_preserves_packet_number_bytes() {
    let dests = vec![v4(127, 0, 0, 1, 4001)];
    let payload = "packet number 3".as_bytes();
    let datagrams = fan_out(payload, &dests);
    assert_eq!(datagrams.len(), 1);
    assert_eq!(datagrams[0].payload, payload.to_vec());
    assert_eq!(datagrams[0].payload.len(), 15);
}

#[test]
fn relay_step_takes_received_prefix_of_buffer() {
    let dests = vec![v4(127, 0, 0, 1, 4001), v4(10, 1, 1, 11, 4000)];
    let mut buffer = [0u8; 16];
    buffer[0] = 11;
    buffer[1] = 22;
    buffer[2] = 33;
    buffer[3] = 44;
    let datagrams = relay_step(&buffer, 4, &dests);
    assert_eq!(datagrams.len(), 2);
    assert_eq!(datagrams[0].payload, vec![11, 22, 33, 44]);
    assert_eq!(datagrams[1].payload, vec![11, 22, 33, 44]);
    assert_eq!(datagrams[0].dest, dests[0]);
    assert_eq!(datagrams[1].dest, dests[1]);
}

#[test]
fn fan_out_of_empty_payload_and_empty_list() {
    let dests = vec![v4(127, 0, 0, 1, 4001)];
    let datagrams = fan_out(&[], &dests);
    assert_eq!(datagrams.len(), 1);
    assert!(datagrams[0].payload.is_empty());

    let no_dests: Vec<SocketAddress> = vec![];
    assert!(fan_out(&[1, 2, 3], &no_dests).is_empty());
}
