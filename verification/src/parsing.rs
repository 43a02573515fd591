//! The textual grammar of listener and destination specifications.
//!
//! A specification is a byte string: a bare socket address (`a.b.c.d:port`
//! or `[groups]:port`), or a multicast group with a join detail appended
//! after a `/`. The spec functions here define the grammar mathematically;
//! the executable readers are proved to return exactly what the grammar
//! admits.
//!
//! Numbers are read with maximal munch: a read takes the longest digit run
//! at its position, and fails rather than stopping early when that run is
//! too long or its value too large.

use vstd::prelude::*;

use crate::addr::{Ipv4Address, Ipv6Address, SocketAddress, SocketAddressV4, SocketAddressV6};

verus! {

/// `.`
pub const DOT: u8 = 46;

/// `/`
pub const SLASH: u8 = 47;

/// `:`
pub const COLON: u8 = 58;

/// `[`
pub const LBRACKET: u8 = 91;

/// `]`
pub const RBRACKET: u8 = 93;

/// `+`
pub const PLUS: u8 = 43;

/// `0`
pub const ZERO: u8 = 48;

pub open spec fn is_dec_digit(c: u8) -> bool {
    48 <= c <= 57
}

pub open spec fn is_hex_digit(c: u8) -> bool {
    is_dec_digit(c) || (65 <= c <= 70) || (97 <= c <= 102)
}

/// Whether `c` is a digit of the decimal or, when `hex` is set, hexadecimal alphabet.
pub open spec fn digit_ok(c: u8, hex: bool) -> bool {
    if hex {
        is_hex_digit(c)
    } else {
        is_dec_digit(c)
    }
}

pub open spec fn digit_value(c: u8) -> nat {
    if is_dec_digit(c) {
        (c - 48) as nat
    } else if 65 <= c <= 70 {
        (c - 55) as nat
    } else if 97 <= c <= 102 {
        (c - 87) as nat
    } else {
        0
    }
}

/// The end of the maximal digit run that starts at `pos`.
pub open spec fn run_end(s: Seq<u8>, pos: int, hex: bool) -> int
    decreases s.len() - pos,
{
    if 0 <= pos < s.len() && digit_ok(s[pos], hex) {
        run_end(s, pos + 1, hex)
    } else {
        pos
    }
}

/// The numeric value of a digit string, most significant digit first.
pub open spec fn run_value(s: Seq<u8>, hex: bool) -> nat
    decreases s.len(),
{
    if s.len() == 0 {
        0
    } else {
        run_value(s.drop_last(), hex) * (if hex {
            16nat
        } else {
            10nat
        }) + digit_value(s.last())
    }
}

/// A number read at `pos`: the maximal digit run there must be non-empty,
/// within the digit budget (`max_digits` of zero means unlimited), free of a
/// redundant leading zero where one is refused, and of a value within
/// `max_value`. Yields the value and the position after the run.
pub open spec fn spec_number(
    s: Seq<u8>,
    pos: int,
    hex: bool,
    max_digits: int,
    zero_prefix_ok: bool,
    max_value: nat,
) -> Option<(nat, int)> {
    let end = run_end(s, pos, hex);
    if end <= pos {
        None
    } else if 0 < max_digits < end - pos {
        None
    } else if !zero_prefix_ok && s[pos] == ZERO && end - pos > 1 {
        None
    } else if run_value(s.subrange(pos, end), hex) > max_value {
        None
    } else {
        Some((run_value(s.subrange(pos, end), hex), end))
    }
}

/// The maximal run lies within the string, consists of digits, and is
/// followed by a non-digit or the end of the string.
pub proof fn lemma_run_end_props(s: Seq<u8>, pos: int, hex: bool)
    requires
        0 <= pos <= s.len(),
    ensures
        pos <= run_end(s, pos, hex) <= s.len(),
        forall|i: int| pos <= i < run_end(s, pos, hex) ==> digit_ok(s[i], hex),
        run_end(s, pos, hex) < s.len() ==> !digit_ok(s[run_end(s, pos, hex)], hex),
    decreases s.len() - pos,
{
    if pos < s.len() && digit_ok(s[pos], hex) {
        lemma_run_end_props(s, pos + 1, hex);
    }
}

/// A string of digits is a maximal run of itself.
pub proof fn lemma_run_end_all_digits(s: Seq<u8>, pos: int, hex: bool)
    requires
        0 <= pos <= s.len(),
        forall|i: int| pos <= i < s.len() ==> digit_ok(s[i], hex),
    ensures
        run_end(s, pos, hex) == s.len(),
    decreases s.len() - pos,
{
    if pos < s.len() {
        lemma_run_end_all_digits(s, pos + 1, hex);
    }
}

/// Extending a digit string never lowers its value.
pub proof fn lemma_run_value_prefix(t: Seq<u8>, hex: bool, i: int)
    requires
        0 <= i <= t.len(),
    ensures
        run_value(t, hex) >= run_value(t.subrange(0, i), hex),
    decreases t.len(),
{
    if i == t.len() {
        assert(t.subrange(0, i) =~= t);
    } else {
        lemma_run_value_prefix(t.drop_last(), hex, i);
        assert(t.drop_last().subrange(0, i) =~= t.subrange(0, i));
    }
}

fn is_digit_exec(c: u8, hex: bool) -> (r: bool)
    ensures
        r == digit_ok(c, hex),
{
    if hex {
        (48 <= c && c <= 57) || (65 <= c && c <= 70) || (97 <= c && c <= 102)
    } else {
        48 <= c && c <= 57
    }
}

fn digit_value_exec(c: u8, hex: bool) -> (r: u8)
    requires
        digit_ok(c, hex),
    ensures
        r as nat == digit_value(c),
{
    if 48 <= c && c <= 57 {
        c - 48
    } else if 65 <= c && c <= 70 {
        c - 55
    } else {
        c - 87
    }
}

/// Read a number as the grammar admits it: exactly `spec_number`.
pub fn read_number(
    s: &[u8],
    pos: usize,
    hex: bool,
    max_digits: usize,
    zero_prefix_ok: bool,
    max_value: u64,
) -> (r: Option<(u64, usize)>)
    requires
        pos <= s@.len(),
        max_value <= 0xffff_ffff,
    ensures
        match r {
            Some(ve) => spec_number(
                s@,
                pos as int,
                hex,
                max_digits as int,
                zero_prefix_ok,
                max_value as nat,
            ) == Some(((ve.0 as nat), ve.1 as int)) && pos < ve.1 <= s@.len() && ve.0
                <= max_value,
            None => spec_number(
                s@,
                pos as int,
                hex,
                max_digits as int,
                zero_prefix_ok,
                max_value as nat,
            ) is None,
        },
{
    proof {
        lemma_run_end_props(s@, pos as int, hex);
    }
    let mut end = pos;
    while end < s.len() && is_digit_exec(s[end], hex)
        invariant
            pos <= end <= s@.len(),
            run_end(s@, pos as int, hex) == run_end(s@, end as int, hex),
        decreases s@.len() - end,
    {
        end = end + 1;
    }
    assert(run_end(s@, end as int, hex) == end);
    let ghost rend = run_end(s@, pos as int, hex);
    assert(rend == end);

    if end == pos {
        return None;
    }
    if max_digits > 0 && end - pos > max_digits {
        return None;
    }
    if !zero_prefix_ok && s[pos] == ZERO && end - pos > 1 {
        return None;
    }

    let radix: u64 = if hex {
        16
    } else {
        10
    };
    let mut v: u64 = 0;
    let mut i = pos;
    while i < end
        invariant
            pos <= i <= end <= s@.len(),
            end == run_end(s@, pos as int, hex),
            max_value <= 0xffff_ffff,
            radix == (if hex {
                16int
            } else {
                10int
            }),
            v as nat == run_value(s@.subrange(pos as int, i as int), hex),
            v <= max_value,
            forall|j: int| pos <= j < end ==> digit_ok(s@[j], hex),
        decreases end - i,
    {
        let d = digit_value_exec(s[i], hex);
        assert(d <= 15) by {
            assert(digit_ok(s@[i as int], hex));
        }
        let nv: u64 = v * radix + (d as u64);
        proof {
            assert(s@.subrange(pos as int, i + 1).drop_last() =~= s@.subrange(
                pos as int,
                i as int,
            ));
            assert(s@.subrange(pos as int, i + 1).last() == s@[i as int]);
        }
        assert(nv as nat == run_value(s@.subrange(pos as int, i + 1), hex));
        if nv > max_value {
            proof {
                lemma_run_value_prefix(s@.subrange(pos as int, end as int), hex, i + 1 - pos);
                assert(s@.subrange(pos as int, end as int).subrange(0, i + 1 - pos) =~= s@.subrange(
                    pos as int,
                    i + 1,
                ));
            }
            assert(run_value(s@.subrange(pos as int, end as int), hex) > max_value);
            return None;
        }
        v = nv;
        i = i + 1;
    }
    assert(s@.subrange(pos as int, end as int) =~= s@.subrange(pos as int, i as int));
    Some((v, end))
}

/// An IPv4 octet: one to three decimal digits, no redundant leading zero,
/// at most 255.
pub open spec fn spec_octet(s: Seq<u8>, pos: int) -> Option<(u8, int)> {
    match spec_number(s, pos, false, 3, false, 255) {
        Some(ve) => Some((ve.0 as u8, ve.1)),
        None => None,
    }
}

/// A `.` followed by an octet.
pub open spec fn spec_dot_octet(s: Seq<u8>, pos: int) -> Option<(u8, int)> {
    if 0 <= pos < s.len() && s[pos] == DOT {
        spec_octet(s, pos + 1)
    } else {
        None
    }
}

/// An IPv4 address: four octets separated by dots.
pub open spec fn spec_ipv4(s: Seq<u8>, pos: int) -> Option<(Ipv4Address, int)> {
    match spec_octet(s, pos) {
        None => None,
        Some(r0) => match spec_dot_octet(s, r0.1) {
            None => None,
            Some(r1) => match spec_dot_octet(s, r1.1) {
                None => None,
                Some(r2) => match spec_dot_octet(s, r2.1) {
                    None => None,
                    Some(r3) => Some(
                        (Ipv4Address { o0: r0.0, o1: r1.0, o2: r2.0, o3: r3.0 }, r3.1),
                    ),
                },
            },
        },
    }
}

fn read_octet(s: &[u8], pos: usize) -> (r: Option<(u8, usize)>)
    requires
        pos <= s@.len(),
    ensures
        match r {
            Some(ve) => spec_octet(s@, pos as int) == Some((ve.0, ve.1 as int)) && pos < ve.1
                <= s@.len(),
            None => spec_octet(s@, pos as int) is None,
        },
{
    match read_number(s, pos, false, 3, false, 255) {
        Some((v, end)) => Some((v as u8, end)),
        None => None,
    }
}

fn read_dot_octet(s: &[u8], pos: usize) -> (r: Option<(u8, usize)>)
    requires
        pos <= s@.len(),
    ensures
        match r {
            Some(ve) => spec_dot_octet(s@, pos as int) == Some((ve.0, ve.1 as int)) && pos < ve.1
                <= s@.len(),
            None => spec_dot_octet(s@, pos as int) is None,
        },
{
    if pos < s.len() && s[pos] == DOT {
        read_octet(s, pos + 1)
    } else {
        None
    }
}

/// Read an IPv4 address: exactly `spec_ipv4`.
pub fn read_ipv4(s: &[u8], pos: usize) -> (r: Option<(Ipv4Address, usize)>)
    requires
        pos <= s@.len(),
    ensures
        match r {
            Some(ae) => spec_ipv4(s@, pos as int) == Some((ae.0, ae.1 as int)) && pos < ae.1
                <= s@.len(),
            None => spec_ipv4(s@, pos as int) is None,
        },
{
    match read_octet(s, pos) {
        None => None,
        Some((o0, p1)) => match read_dot_octet(s, p1) {
            None => None,
            Some((o1, p2)) => match read_dot_octet(s, p2) {
                None => None,
                Some((o2, p3)) => match read_dot_octet(s, p3) {
                    None => None,
                    Some((o3, p4)) => Some((Ipv4Address { o0, o1, o2, o3 }, p4)),
                },
            },
        },
    }
}

/// A string that is exactly one IPv4 address.
#[verifier::opaque]
pub open spec fn spec_ipv4_full(s: Seq<u8>) -> Option<Ipv4Address> {
    match spec_ipv4(s, 0) {
        Some(ae) => if ae.1 == s.len() {
            Some(ae.0)
        } else {
            None
        },
        None => None,
    }
}

/// Read a whole string as an IPv4 address: exactly `spec_ipv4_full`.
pub fn read_ipv4_full(s: &[u8]) -> (r: Option<Ipv4Address>)
    ensures
        r == spec_ipv4_full(s@),
{
    proof {
        reveal(spec_ipv4_full);
    }
    match read_ipv4(s, 0) {
        Some((a, e)) => if e == s.len() {
            Some(a)
        } else {
            None
        },
        None => None,
    }
}

/// A 16-bit IPv6 group: one to four hexadecimal digits.
pub open spec fn spec_group(s: Seq<u8>, pos: int) -> Option<(u16, int)> {
    match spec_number(s, pos, true, 4, true, 0xffff) {
        Some(ve) => Some((ve.0 as u16, ve.1)),
        None => None,
    }
}

/// Where a group may begin: at `pos` for the first group, after a `:`
/// separator for every later one.
pub open spec fn spec_group_start(s: Seq<u8>, pos: int, first: bool) -> Option<int> {
    if first {
        Some(pos)
    } else if 0 <= pos < s.len() && s[pos] == COLON {
        Some(pos + 1)
    } else {
        None
    }
}

/// The two groups an embedded trailing IPv4 address contributes.
pub open spec fn spec_ipv4_high_group(a: Ipv4Address) -> u16 {
    (a.o0 * 256 + a.o1) as u16
}

pub open spec fn spec_ipv4_low_group(a: Ipv4Address) -> u16 {
    (a.o2 * 256 + a.o3) as u16
}

/// Up to `limit` groups read in sequence. An embedded IPv4 address may
/// stand for the final two groups when at least two are still admitted.
/// Yields the groups read, whether an embedded IPv4 address ended the run,
/// and the position after the last group read; a failing group ends the
/// run at the position before its separator.
pub open spec fn spec_groups(s: Seq<u8>, pos: int, limit: int, first: bool) -> (Seq<u16>, bool, int)
    decreases limit,
{
    if limit <= 0 {
        (Seq::<u16>::empty(), false, pos)
    } else {
        match spec_group_start(s, pos, first) {
            None => (Seq::<u16>::empty(), false, pos),
            Some(gpos) => {
                if limit >= 2 && spec_ipv4(s, gpos) is Some {
                    let ae = spec_ipv4(s, gpos)->0;
                    (seq![spec_ipv4_high_group(ae.0), spec_ipv4_low_group(ae.0)], true, ae.1)
                } else {
                    match spec_group(s, gpos) {
                        None => (Seq::<u16>::empty(), false, pos),
                        Some(ge) => {
                            let rest = spec_groups(s, ge.1, limit - 1, false);
                            (seq![ge.0] + rest.0, rest.1, rest.2)
                        },
                    }
                }
            },
        }
    }
}

/// Appending an already-read prefix of groups in front of a later read.
pub open spec fn groups_combine(acc: Seq<u16>, rest: (Seq<u16>, bool, int)) -> (Seq<u16>, bool, int) {
    (acc + rest.0, rest.1, rest.2)
}

/// A group run never reads more groups than its limit admits, and never
/// moves backwards or past the end of the string.
pub proof fn lemma_groups_bounds(s: Seq<u8>, pos: int, limit: int, first: bool)
    requires
        0 <= pos <= s.len(),
    ensures
        limit >= 0 ==> spec_groups(s, pos, limit, first).0.len() <= limit,
        pos <= spec_groups(s, pos, limit, first).2 <= s.len(),
    decreases limit,
{
    if limit > 0 {
        match spec_group_start(s, pos, first) {
            None => {},
            Some(gpos) => {
                if limit >= 2 && spec_ipv4(s, gpos) is Some {
                    lemma_ipv4_bounds(s, gpos);
                } else {
                    match spec_group(s, gpos) {
                        None => {},
                        Some(ge) => {
                            lemma_run_end_props(s, gpos, true);
                            lemma_groups_bounds(s, ge.1, limit - 1, false);
                        },
                    }
                }
            },
        }
    }
}

/// An IPv4 read stays within the string and makes progress.
pub proof fn lemma_ipv4_bounds(s: Seq<u8>, pos: int)
    requires
        0 <= pos <= s.len(),
        spec_ipv4(s, pos) is Some,
    ensures
        pos < (spec_ipv4(s, pos)->0).1 <= s.len(),
{
    let r0 = spec_octet(s, pos)->0;
    lemma_run_end_props(s, pos, false);
    let r1 = spec_dot_octet(s, r0.1)->0;
    lemma_run_end_props(s, r0.1 + 1, false);
    let r2 = spec_dot_octet(s, r1.1)->0;
    lemma_run_end_props(s, r1.1 + 1, false);
    lemma_run_end_props(s, r2.1 + 1, false);
}

fn ipv4_high_group(a: &Ipv4Address) -> (r: u16)
    ensures
        r == spec_ipv4_high_group(*a),
{
    (a.o0 as u16) * 256 + (a.o1 as u16)
}

fn ipv4_low_group(a: &Ipv4Address) -> (r: u16)
    ensures
        r == spec_ipv4_low_group(*a),
{
    (a.o2 as u16) * 256 + (a.o3 as u16)
}

/// Read up to `limit` groups: exactly `spec_groups` for a first group at `pos`.
pub fn read_groups(s: &[u8], pos: usize, limit: usize) -> (r: (Vec<u16>, bool, usize))
    requires
        pos <= s@.len(),
        limit <= 8,
    ensures
        ({
            let sp = spec_groups(s@, pos as int, limit as int, true);
            r.0@ == sp.0 && r.1 == sp.1 && r.2 == sp.2 && pos <= r.2 <= s@.len() && r.0@.len()
                <= limit
        }),
{
    let mut groups: Vec<u16> = Vec::new();
    let mut cur = pos;
    let mut i: usize = 0;
    assert(groups@ + spec_groups(s@, pos as int, limit as int, true).0 =~= spec_groups(
        s@,
        pos as int,
        limit as int,
        true,
    ).0);
    while i < limit
        invariant
            i <= limit,
            limit <= 8,
            pos <= cur <= s@.len(),
            groups@.len() == i,
            spec_groups(s@, pos as int, limit as int, true) == groups_combine(
                groups@,
                spec_groups(s@, cur as int, (limit - i) as int, i == 0),
            ),
        decreases limit - i,
    {
        let ghost pre = spec_groups(s@, cur as int, (limit - i) as int, i == 0);
        let first = i == 0;
        let gpos: usize;
        if first {
            gpos = cur;
        } else {
            if cur < s.len() && s[cur] == COLON {
                gpos = cur + 1;
            } else {
                assert(pre == (Seq::<u16>::empty(), false, cur as int));
                assert(groups@ + Seq::<u16>::empty() =~= groups@);
                return (groups, false, cur);
            }
        }
        assert(spec_group_start(s@, cur as int, first) == Some(gpos as int));
        if limit - i >= 2 {
            match read_ipv4(s, gpos) {
                Some((a, e)) => {
                    let ghost acc = groups@;
                    let hi = ipv4_high_group(&a);
                    let lo = ipv4_low_group(&a);
                    groups.push(hi);
                    groups.push(lo);
                    assert(pre == (seq![spec_ipv4_high_group(a), spec_ipv4_low_group(a)], true, e as int));
                    assert(groups@ =~= acc + seq![spec_ipv4_high_group(a), spec_ipv4_low_group(a)]);
                    return (groups, true, e);
                },
                None => {},
            }
        }
        match read_number(s, gpos, true, 4, true, 0xffff) {
            None => {
                assert(spec_group(s@, gpos as int) is None);
                assert(pre == (Seq::<u16>::empty(), false, cur as int));
                assert(groups@ + Seq::<u16>::empty() =~= groups@);
                return (groups, false, cur);
            },
            Some((v, e)) => {
                let ghost acc = groups@;
                let g = v as u16;
                assert(spec_group(s@, gpos as int) == Some((g, e as int)));
                groups.push(g);
                let ghost rest = spec_groups(s@, e as int, (limit - i - 1) as int, false);
                assert(pre == (seq![g] + rest.0, rest.1, rest.2));
                assert((acc + seq![g]) + rest.0 =~= acc + (seq![g] + rest.0));
                cur = e;
                i = i + 1;
            },
        }
    }
    assert(spec_groups(s@, cur as int, 0, false) == (Seq::<u16>::empty(), false, cur as int));
    assert(groups@ + Seq::<u16>::empty() =~= groups@);
    (groups, false, cur)
}

/// The group standing at position `i` of an address whose front groups are
/// `head`, whose back groups are `tail`, and whose middle is zero.
pub open spec fn merged_group(head: Seq<u16>, tail: Seq<u16>, i: int) -> u16 {
    if i < head.len() {
        head[i]
    } else if 8 - tail.len() <= i {
        tail[i - (8 - tail.len())]
    } else {
        0
    }
}

/// The address whose groups are `head`, then zeroes, then `tail`.
pub open spec fn groups_merge(head: Seq<u16>, tail: Seq<u16>) -> Ipv6Address {
    Ipv6Address {
        g0: merged_group(head, tail, 0),
        g1: merged_group(head, tail, 1),
        g2: merged_group(head, tail, 2),
        g3: merged_group(head, tail, 3),
        g4: merged_group(head, tail, 4),
        g5: merged_group(head, tail, 5),
        g6: merged_group(head, tail, 6),
        g7: merged_group(head, tail, 7),
    }
}

fn merged_at(head: &Vec<u16>, tail: &Vec<u16>, i: usize) -> (r: u16)
    requires
        head@.len() + tail@.len() <= 8,
        i < 8,
    ensures
        r == merged_group(head@, tail@, i as int),
{
    if i < head.len() {
        head[i]
    } else if 8 - tail.len() <= i {
        tail[i - (8 - tail.len())]
    } else {
        0
    }
}

fn make_merged(head: &Vec<u16>, tail: &Vec<u16>) -> (r: Ipv6Address)
    requires
        head@.len() + tail@.len() <= 8,
    ensures
        r == groups_merge(head@, tail@),
{
    Ipv6Address {
        g0: merged_at(head, tail, 0),
        g1: merged_at(head, tail, 1),
        g2: merged_at(head, tail, 2),
        g3: merged_at(head, tail, 3),
        g4: merged_at(head, tail, 4),
        g5: merged_at(head, tail, 5),
        g6: merged_at(head, tail, 6),
        g7: merged_at(head, tail, 7),
    }
}

/// An IPv6 address: eight groups outright, or a front and a back part
/// around one `::` that stands for at least one zero group. An embedded
/// IPv4 address may only end the address, never precede the `::`.
pub open spec fn spec_ipv6(s: Seq<u8>, pos: int) -> Option<(Ipv6Address, int)> {
    let head = spec_groups(s, pos, 8, true);
    if head.0.len() == 8 {
        Some((groups_merge(head.0, Seq::<u16>::empty()), head.2))
    } else if head.1 {
        None
    } else if head.2 + 1 < s.len() && s[head.2] == COLON && s[head.2 + 1] == COLON {
        let tail = spec_groups(s, head.2 + 2, 8 - head.0.len() - 1, true);
        Some((groups_merge(head.0, tail.0), tail.2))
    } else {
        None
    }
}

/// Read an IPv6 address: exactly `spec_ipv6`.
pub fn read_ipv6(s: &[u8], pos: usize) -> (r: Option<(Ipv6Address, usize)>)
    requires
        pos <= s@.len(),
    ensures
        match r {
            Some(ae) => spec_ipv6(s@, pos as int) == Some((ae.0, ae.1 as int)) && pos <= ae.1
                <= s@.len(),
            None => spec_ipv6(s@, pos as int) is None,
        },
{
    let (head, head_v4, hend) = read_groups(s, pos, 8);
    if head.len() == 8 {
        let empty: Vec<u16> = Vec::new();
        let a = make_merged(&head, &empty);
        Some((a, hend))
    } else if head_v4 {
        None
    } else if hend < s.len() && s[hend] == COLON && hend + 1 < s.len() && s[hend + 1] == COLON {
        let tlimit = 8 - head.len() - 1;
        let (tail, _tail_v4, tend) = read_groups(s, hend + 2, tlimit);
        let a = make_merged(&head, &tail);
        Some((a, tend))
    } else {
        None
    }
}

/// A port: a `:` and then a decimal number of at most 65535, with any
/// number of digits and leading zeroes admitted.
pub open spec fn spec_port(s: Seq<u8>, pos: int) -> Option<(u16, int)> {
    if 0 <= pos < s.len() && s[pos] == COLON {
        match spec_number(s, pos + 1, false, 0, true, 65535) {
            Some(ve) => Some((ve.0 as u16, ve.1)),
            None => None,
        }
    } else {
        None
    }
}

fn read_port(s: &[u8], pos: usize) -> (r: Option<(u16, usize)>)
    requires
        pos <= s@.len(),
    ensures
        match r {
            Some(ve) => spec_port(s@, pos as int) == Some((ve.0, ve.1 as int)) && pos < ve.1
                <= s@.len(),
            None => spec_port(s@, pos as int) is None,
        },
{
    if pos < s.len() && s[pos] == COLON {
        match read_number(s, pos + 1, false, 0, true, 65535) {
            Some((v, e)) => Some((v as u16, e)),
            None => None,
        }
    } else {
        None
    }
}

/// An IPv4 socket address: address, `:`, port.
pub open spec fn spec_sockaddr_v4_at(s: Seq<u8>, pos: int) -> Option<(SocketAddressV4, int)> {
    match spec_ipv4(s, pos) {
        None => None,
        Some(ae) => match spec_port(s, ae.1) {
            None => None,
            Some(pe) => Some((SocketAddressV4 { ip: ae.0, port: pe.0 }, pe.1)),
        },
    }
}

/// An IPv6 socket address: the address in brackets, `:`, port.
pub open spec fn spec_sockaddr_v6_at(s: Seq<u8>, pos: int) -> Option<(SocketAddressV6, int)> {
    if 0 <= pos < s.len() && s[pos] == LBRACKET {
        match spec_ipv6(s, pos + 1) {
            None => None,
            Some(ae) => if ae.1 < s.len() && s[ae.1] == RBRACKET {
                match spec_port(s, ae.1 + 1) {
                    None => None,
                    Some(pe) => Some((SocketAddressV6 { ip: ae.0, port: pe.0 }, pe.1)),
                }
            } else {
                None
            },
        }
    } else {
        None
    }
}

/// A string that is exactly one socket address: the IPv4 form is read
/// first, and the IPv6 form is tried only where the IPv4 form reads
/// nothing at all.
#[verifier::opaque]
pub open spec fn spec_sockaddr_full(s: Seq<u8>) -> Option<SocketAddress> {
    match spec_sockaddr_v4_at(s, 0) {
        Some(ae) => if ae.1 == s.len() {
            Some(SocketAddress::V4(ae.0))
        } else {
            None
        },
        None => match spec_sockaddr_v6_at(s, 0) {
            Some(ae) => if ae.1 == s.len() {
                Some(SocketAddress::V6(ae.0))
            } else {
                None
            },
            None => None,
        },
    }
}

/// Read a whole string as a socket address: exactly `spec_sockaddr_full`.
pub fn read_sockaddr_full(s: &[u8]) -> (r: Option<SocketAddress>)
    ensures
        r == spec_sockaddr_full(s@),
{
    proof {
        reveal(spec_sockaddr_full);
    }
    match read_ipv4(s, 0) {
        Some((ip, p)) => {
            match read_port(s, p) {
                Some((port, e)) => if e == s.len() {
                    Some(SocketAddress::V4(SocketAddressV4 { ip, port }))
                } else {
                    None
                },
                None => None,
            }
        },
        None => {
            if s.len() > 0 && s[0] == LBRACKET {
                match read_ipv6(s, 1) {
                    Some((ip, p)) => {
                        if p < s.len() && s[p] == RBRACKET {
                            match read_port(s, p + 1) {
                                Some((port, e)) => if e == s.len() {
                                    Some(SocketAddress::V6(SocketAddressV6 { ip, port }))
                                } else {
                                    None
                                },
                                None => None,
                            }
                        } else {
                            None
                        }
                    },
                    None => None,
                }
            } else {
                None
            }
        },
    }
}

/// The digits of a decimal number text, behind an optional `+` sign.
pub open spec fn u32_body(s: Seq<u8>) -> Seq<u8> {
    if s.len() > 0 && s[0] == PLUS {
        s.subrange(1, s.len() as int)
    } else {
        s
    }
}

/// The interface-index detail of an IPv6 multicast group: an optional `+`
/// sign, then decimal digits with a value that fits in 32 bits.
#[verifier::opaque]
pub open spec fn spec_u32_full(s: Seq<u8>) -> Option<u32> {
    if u32_body(s).len() > 0 && (forall|i: int|
        0 <= i < u32_body(s).len() ==> is_dec_digit(u32_body(s)[i])) && run_value(
        u32_body(s),
        false,
    ) <= 0xffff_ffff {
        Some(run_value(u32_body(s), false) as u32)
    } else {
        None
    }
}

/// Read a whole string as a 32-bit number: exactly `spec_u32_full`.
pub fn read_u32_full(s: &[u8]) -> (r: Option<u32>)
    ensures
        r == spec_u32_full(s@),
{
    proof {
        reveal(spec_u32_full);
    }
    let start: usize = if s.len() > 0 && s[0] == PLUS {
        1
    } else {
        0
    };
    let ghost body = u32_body(s@);
    assert(body.len() == s@.len() - start);
    assert(forall|i: int| 0 <= i < body.len() ==> body[i] == s@[i + start]);
    match read_number(s, start, false, 0, true, 0xffff_ffff) {
        Some((v, e)) => {
            if e == s.len() {
                proof {
                    lemma_run_end_props(s@, start as int, false);
                    assert(s@.subrange(start as int, e as int) =~= body);
                }
                Some(v as u32)
            } else {
                proof {
                    lemma_run_end_props(s@, start as int, false);
                    assert(!is_dec_digit(body[e - start]));
                }
                None
            }
        },
        None => {
            proof {
                if spec_u32_full(s@) is Some {
                    assert(body.len() > 0);
                    assert(forall|i: int| 0 <= i < body.len() ==> is_dec_digit(body[i]));
                    assert forall|i: int| start <= i < s@.len() implies digit_ok(s@[i], false) by {
                        let k = i - start;
                        assert(0 <= k < body.len());
                        assert(is_dec_digit(body[k]));
                        assert(body[k] == s@[k + start]);
                    }
                    lemma_run_end_all_digits(s@, start as int, false);
                    assert(s@.subrange(start as int, s@.len() as int) =~= body);
                    assert(false);
                }
            }
            None
        },
    }
}

/// The position of the first `/` in the string, or -1 where there is none.
pub open spec fn find_slash(s: Seq<u8>) -> int
    decreases s.len(),
{
    if s.len() == 0 {
        -1
    } else if s[0] == SLASH {
        0
    } else if find_slash(s.drop_first()) < 0 {
        -1
    } else {
        find_slash(s.drop_first()) + 1
    }
}

/// `find_slash` names the first slash: nothing before it is one, and a
/// result of -1 means the string holds none.
pub proof fn lemma_find_slash_props(s: Seq<u8>)
    ensures
        find_slash(s) == -1 || 0 <= find_slash(s) < s.len(),
        find_slash(s) >= 0 ==> s[find_slash(s)] == SLASH,
        forall|j: int| 0 <= j < s.len() && j < find_slash(s) ==> s[j] != SLASH,
        find_slash(s) == -1 ==> forall|j: int| 0 <= j < s.len() ==> s[j] != SLASH,
    decreases s.len(),
{
    if s.len() > 0 && s[0] != SLASH {
        lemma_find_slash_props(s.drop_first());
        let d = s.drop_first();
        assert forall|j: int| 0 <= j < s.len() && j < find_slash(s) implies s[j] != SLASH by {
            if j > 0 {
                assert(d[j - 1] == s[j]);
            }
        }
        if find_slash(s) == -1 {
            assert forall|j: int| 0 <= j < s.len() implies s[j] != SLASH by {
                if j > 0 {
                    assert(d[j - 1] == s[j]);
                }
            }
        }
    }
}

/// Where a slash stands at `k` and none before it, `find_slash` names `k`.
pub proof fn lemma_find_slash_at(s: Seq<u8>, k: int)
    requires
        0 <= k < s.len(),
        s[k] == SLASH,
        forall|j: int| 0 <= j < k ==> s[j] != SLASH,
    ensures
        find_slash(s) == k,
    decreases s.len(),
{
    if k > 0 {
        assert(forall|j: int| 0 <= j < s.drop_first().len() ==> s.drop_first()[j] == s[j + 1]);
        lemma_find_slash_at(s.drop_first(), k - 1);
    }
}

/// The characters a socket address text can consist of. The slash that
/// separates a multicast group from its join detail is not among them.
pub open spec fn addr_char(c: u8) -> bool {
    is_hex_digit(c) || c == DOT || c == COLON || c == LBRACKET || c == RBRACKET
}

/// An IPv4 read consumes only digits and dots.
pub proof fn lemma_ipv4_chars(s: Seq<u8>, pos: int)
    requires
        0 <= pos <= s.len(),
        spec_ipv4(s, pos) is Some,
    ensures
        forall|i: int|
            pos <= i < (spec_ipv4(s, pos)->0).1 ==> is_dec_digit(s[i]) || s[i] == DOT,
{
    let r0 = spec_octet(s, pos)->0;
    let r1 = spec_dot_octet(s, r0.1)->0;
    let r2 = spec_dot_octet(s, r1.1)->0;
    let r3 = spec_dot_octet(s, r2.1)->0;
    lemma_run_end_props(s, pos, false);
    lemma_run_end_props(s, r0.1 + 1, false);
    lemma_run_end_props(s, r1.1 + 1, false);
    lemma_run_end_props(s, r2.1 + 1, false);
    assert(r0.1 == run_end(s, pos, false));
    assert(r1.1 == run_end(s, r0.1 + 1, false));
    assert(r2.1 == run_end(s, r1.1 + 1, false));
    assert(r3.1 == run_end(s, r2.1 + 1, false));
    assert forall|i: int|
        pos <= i < (spec_ipv4(s, pos)->0).1 implies is_dec_digit(s[i]) || s[i] == DOT by {
        if i < r0.1 {
            assert(digit_ok(s[i], false));
        } else if i == r0.1 {
        } else if i < r1.1 {
            assert(digit_ok(s[i], false));
        } else if i == r1.1 {
        } else if i < r2.1 {
            assert(digit_ok(s[i], false));
        } else if i == r2.1 {
        } else {
            assert(digit_ok(s[i], false));
        }
    }
}

/// A group run consumes only hexadecimal digits, dots and colons.
pub proof fn lemma_groups_chars(s: Seq<u8>, pos: int, limit: int, first: bool)
    requires
        0 <= pos <= s.len(),
    ensures
        forall|i: int| pos <= i < spec_groups(s, pos, limit, first).2 ==> addr_char(s[i]),
    decreases limit,
{
    lemma_groups_bounds(s, pos, limit, first);
    if limit > 0 {
        match spec_group_start(s, pos, first) {
            None => {},
            Some(gpos) => {
                if limit >= 2 && spec_ipv4(s, gpos) is Some {
                    lemma_ipv4_bounds(s, gpos);
                    lemma_ipv4_chars(s, gpos);
                    let e = (spec_ipv4(s, gpos)->0).1;
                    assert forall|i: int|
                        pos <= i < spec_groups(s, pos, limit, first).2 implies addr_char(s[i]) by {
                        if i >= gpos {
                            assert(is_dec_digit(s[i]) || s[i] == DOT);
                        }
                    }
                } else {
                    match spec_group(s, gpos) {
                        None => {},
                        Some(ge) => {
                            lemma_run_end_props(s, gpos, true);
                            assert(ge.1 == run_end(s, gpos, true));
                            lemma_groups_bounds(s, ge.1, limit - 1, false);
                            lemma_groups_chars(s, ge.1, limit - 1, false);
                            assert forall|i: int|
                                pos <= i < spec_groups(s, pos, limit, first).2 implies addr_char(
                                s[i],
                            ) by {
                                if gpos <= i < ge.1 {
                                    assert(digit_ok(s[i], true));
                                }
                            }
                        },
                    }
                }
            },
        }
    }
}

/// An IPv6 read consumes only hexadecimal digits, dots and colons.
pub proof fn lemma_ipv6_chars(s: Seq<u8>, pos: int)
    requires
        0 <= pos <= s.len(),
        spec_ipv6(s, pos) is Some,
    ensures
        forall|i: int| pos <= i < (spec_ipv6(s, pos)->0).1 ==> addr_char(s[i]),
{
    let head = spec_groups(s, pos, 8, true);
    lemma_groups_bounds(s, pos, 8, true);
    lemma_groups_chars(s, pos, 8, true);
    if head.0.len() == 8 {
    } else {
        let tail = spec_groups(s, head.2 + 2, 8 - head.0.len() - 1, true);
        lemma_groups_bounds(s, head.2 + 2, 8 - head.0.len() - 1, true);
        lemma_groups_chars(s, head.2 + 2, 8 - head.0.len() - 1, true);
    }
}

/// A port read consumes one colon and then only digits.
pub proof fn lemma_port_chars(s: Seq<u8>, pos: int)
    requires
        0 <= pos <= s.len(),
        spec_port(s, pos) is Some,
    ensures
        forall|i: int| pos <= i < (spec_port(s, pos)->0).1 ==> addr_char(s[i]),
{
    lemma_run_end_props(s, pos + 1, false);
    assert((spec_port(s, pos)->0).1 == run_end(s, pos + 1, false));
    assert forall|i: int| pos <= i < (spec_port(s, pos)->0).1 implies addr_char(s[i]) by {
        if i > pos {
            assert(digit_ok(s[i], false));
        }
    }
}

/// A whole socket address text consists of address characters only; in
/// particular it holds no slash.
pub proof fn lemma_sockaddr_full_chars(s: Seq<u8>)
    requires
        spec_sockaddr_full(s) is Some,
    ensures
        forall|i: int| 0 <= i < s.len() ==> addr_char(s[i]),
        forall|i: int| 0 <= i < s.len() ==> s[i] != SLASH,
{
    reveal(spec_sockaddr_full);
    match spec_sockaddr_v4_at(s, 0) {
        Some(ae) => {
            let ip = spec_ipv4(s, 0)->0;
            lemma_ipv4_bounds(s, 0);
            lemma_ipv4_chars(s, 0);
            lemma_port_chars(s, ip.1);
            assert forall|i: int| 0 <= i < s.len() implies addr_char(s[i]) by {
                if i < ip.1 {
                    assert(is_dec_digit(s[i]) || s[i] == DOT);
                }
            }
        },
        None => {
            let ip = spec_ipv6(s, 1)->0;
            lemma_ipv6_chars(s, 1);
            lemma_port_chars(s, ip.1 + 1);
        },
    }
    assert forall|i: int| 0 <= i < s.len() implies s[i] != SLASH by {
        assert(addr_char(s[i]));
    }
}

/// Find the first slash: exactly `find_slash`.
pub fn find_slash_exec(s: &[u8]) -> (r: Option<usize>)
    ensures
        match r {
            Some(k) => k < s@.len() && find_slash(s@) == k as int,
            None => find_slash(s@) == -1,
        },
{
    proof {
        lemma_find_slash_props(s@);
    }
    let mut i: usize = 0;
    while i < s.len()
        invariant
            i <= s@.len(),
            forall|j: int| 0 <= j < i ==> s@[j] != SLASH,
        decreases s@.len() - i,
    {
        if s[i] == SLASH {
            proof {
                lemma_find_slash_at(s@, i as int);
            }
            return Some(i);
        }
        i = i + 1;
    }
    None
}

} // verus!
