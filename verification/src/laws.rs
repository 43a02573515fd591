//! The resolution laws: what `spec_resolve` — and so `ListenerSpec::from_text`,
//! which returns exactly it — yields on every class of input the grammar
//! distinguishes.

use vstd::prelude::*;

use crate::addr::{Ipv4Address, SocketAddress, SocketAddressV4, SocketAddressV6};
use crate::listener::{spec_resolve, ListenerSpec};
use crate::parsing::{
    digit_ok, find_slash, is_dec_digit, lemma_find_slash_at, lemma_run_end_all_digits,
    lemma_run_end_props, lemma_sockaddr_full_chars, run_end, spec_dot_octet, spec_ipv4,
    spec_ipv4_full, spec_octet, spec_sockaddr_full, spec_u32_full, u32_body, DOT, PLUS, SLASH,
};

verus! {

/// An IPv4 address text is never an interface-index text: its first dot is
/// not a decimal digit.
pub proof fn lemma_ipv4_text_not_interface_index(d: Seq<u8>)
    requires
        spec_ipv4_full(d) is Some,
    ensures
        spec_u32_full(d) is None,
{
    reveal(spec_ipv4_full);
    reveal(spec_u32_full);
    let r0 = spec_octet(d, 0)->0;
    lemma_run_end_props(d, 0, false);
    assert(r0.1 == run_end(d, 0, false));
    assert(digit_ok(d[0], false));
    assert(d[0] != PLUS);
    assert(u32_body(d) == d);
    assert(0 <= r0.1 < d.len() && d[r0.1] == DOT);
    assert(!is_dec_digit(u32_body(d)[r0.1]));
}

/// An interface-index text is never an IPv4 address text: it is digits
/// only (behind an optional sign), so no dot ever follows its first run.
pub proof fn lemma_interface_index_not_ipv4_text(d: Seq<u8>)
    requires
        spec_u32_full(d) is Some,
    ensures
        spec_ipv4_full(d) is None,
{
    reveal(spec_ipv4_full);
    reveal(spec_u32_full);
    if d[0] == PLUS {
        assert(run_end(d, 0, false) == 0);
        assert(spec_ipv4(d, 0) is None);
    } else {
        assert(u32_body(d) == d);
        assert forall|i: int| 0 <= i < d.len() implies digit_ok(d[i], false) by {
            assert(is_dec_digit(u32_body(d)[i]));
        }
        lemma_run_end_all_digits(d, 0, false);
        if spec_ipv4(d, 0) is Some {
            let r0 = spec_octet(d, 0)->0;
            assert(r0.1 == run_end(d, 0, false));
            assert(spec_dot_octet(d, r0.1) is None);
            assert(false);
        }
    }
}

/// The shape of a group-plus-detail token whose group part is a whole
/// socket address: the token as a whole is no socket address, its first
/// slash is exactly the separator, and splitting there recovers the parts.
pub proof fn lemma_split_text_shape(g: Seq<u8>, d: Seq<u8>)
    requires
        spec_sockaddr_full(g) is Some,
    ensures
        spec_sockaddr_full(g + seq![SLASH] + d) is None,
        find_slash(g + seq![SLASH] + d) == g.len(),
        (g + seq![SLASH] + d).subrange(0, g.len() as int) == g,
        (g + seq![SLASH] + d).subrange(g.len() as int + 1, (g + seq![SLASH] + d).len() as int) == d,
{
    let s = g + seq![SLASH] + d;
    assert(s.len() == g.len() + 1 + d.len());
    assert((g + seq![SLASH])[g.len() as int] == SLASH);
    assert(s[g.len() as int] == SLASH);
    lemma_sockaddr_full_chars(g);
    assert(forall|j: int| 0 <= j < g.len() ==> s[j] == g[j]);
    lemma_find_slash_at(s, g.len() as int);
    if spec_sockaddr_full(s) is Some {
        lemma_sockaddr_full_chars(s);
        assert(false);
    }
    assert(s.subrange(0, g.len() as int) =~= g);
    assert(s.subrange(g.len() as int + 1, s.len() as int) =~= d);
}

/// A bare socket address text whose IP is not multicast resolves to
/// `Unicast` wrapping exactly that address.
pub proof fn law_bare_unicast(s: Seq<u8>, a: SocketAddress)
    requires
        spec_sockaddr_full(s) == Some(a),
        !a.spec_is_multicast(),
    ensures
        spec_resolve(s) == Some(ListenerSpec::Unicast(a)),
{
}

/// A bare socket address text with a multicast IPv4 IP resolves to the
/// IPv4 multicast variant joining on any interface.
pub proof fn law_bare_multicast_v4(s: Seq<u8>, a: SocketAddressV4)
    requires
        spec_sockaddr_full(s) == Some(SocketAddress::V4(a)),
        a.ip.spec_is_multicast(),
    ensures
        spec_resolve(s) == Some(
            ListenerSpec::MulticastV4 {
                multicast_group: a,
                local_addr: Ipv4Address::spec_unspecified(),
            },
        ),
{
}

/// A bare socket address text with a multicast IPv6 IP resolves to the
/// IPv6 multicast variant joining on the default interface.
pub proof fn law_bare_multicast_v6(s: Seq<u8>, a: SocketAddressV6)
    requires
        spec_sockaddr_full(s) == Some(SocketAddress::V6(a)),
        a.ip.spec_is_multicast(),
    ensures
        spec_resolve(s) == Some(
            ListenerSpec::MulticastV6 { multicast_group: a, interface_id: 0 },
        ),
{
}

/// An IPv4 multicast group with a local-address detail resolves to the
/// IPv4 multicast variant carrying exactly the parsed detail.
pub proof fn law_group_detail_v4(g: Seq<u8>, d: Seq<u8>, ga: SocketAddressV4, la: Ipv4Address)
    requires
        spec_sockaddr_full(g) == Some(SocketAddress::V4(ga)),
        ga.ip.spec_is_multicast(),
        spec_ipv4_full(d) == Some(la),
    ensures
        spec_resolve(g + seq![SLASH] + d) == Some(
            ListenerSpec::MulticastV4 { multicast_group: ga, local_addr: la },
        ),
{
    lemma_split_text_shape(g, d);
}

/// An IPv6 multicast group with an interface-index detail resolves to the
/// IPv6 multicast variant carrying exactly the parsed detail.
pub proof fn law_group_detail_v6(g: Seq<u8>, d: Seq<u8>, ga: SocketAddressV6, id: u32)
    requires
        spec_sockaddr_full(g) == Some(SocketAddress::V6(ga)),
        ga.ip.spec_is_multicast(),
        spec_u32_full(d) == Some(id),
    ensures
        spec_resolve(g + seq![SLASH] + d) == Some(
            ListenerSpec::MulticastV6 { multicast_group: ga, interface_id: id },
        ),
{
    lemma_split_text_shape(g, d);
}

/// A unicast address never takes a detail: whatever stands behind the
/// slash, the token is rejected rather than downgraded.
pub proof fn law_unicast_detail_rejected(g: Seq<u8>, d: Seq<u8>, a: SocketAddress)
    requires
        spec_sockaddr_full(g) == Some(a),
        !a.spec_is_multicast(),
    ensures
        spec_resolve(g + seq![SLASH] + d) is None,
{
    lemma_split_text_shape(g, d);
}

/// An IPv4 multicast group with an IPv6-style interface-index detail is
/// rejected.
pub proof fn law_mismatched_detail_rejected_v4(g: Seq<u8>, d: Seq<u8>, ga: SocketAddressV4)
    requires
        spec_sockaddr_full(g) == Some(SocketAddress::V4(ga)),
        ga.ip.spec_is_multicast(),
        spec_u32_full(d) is Some,
    ensures
        spec_resolve(g + seq![SLASH] + d) is None,
{
    lemma_split_text_shape(g, d);
    lemma_interface_index_not_ipv4_text(d);
}

/// An IPv6 multicast group with an IPv4-style local-address detail is
/// rejected.
pub proof fn law_mismatched_detail_rejected_v6(g: Seq<u8>, d: Seq<u8>, ga: SocketAddressV6)
    requires
        spec_sockaddr_full(g) == Some(SocketAddress::V6(ga)),
        ga.ip.spec_is_multicast(),
        spec_ipv4_full(d) is Some,
    ensures
        spec_resolve(g + seq![SLASH] + d) is None,
{
    lemma_split_text_shape(g, d);
    lemma_ipv4_text_not_interface_index(d);
}

/// A token that is neither a socket address nor split by any slash is
/// rejected.
pub proof fn law_unstructured_rejected(s: Seq<u8>)
    requires
        spec_sockaddr_full(s) is None,
        find_slash(s) == -1,
    ensures
        spec_resolve(s) is None,
{
}

/// Whatever resolves is well-formed: a multicast variant only ever carries
/// a group whose IP is multicast for its family.
pub proof fn law_resolved_well_formed(s: Seq<u8>)
    requires
        spec_resolve(s) is Some,
    ensures
        (spec_resolve(s)->0).wf(),
{
}

} // verus!
