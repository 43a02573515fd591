//! The pure decisions of the forwarding loop.
//!
//! The loop itself is plain blocking I/O: receive one datagram, send its
//! bytes to every destination. What can be stated and proved of it is
//! decided here: which per-family sender sockets the destination list
//! needs, and that one received payload fans out to every destination,
//! unmodified and in list order.

use vstd::prelude::*;

use crate::addr::SocketAddress;

verus! {

/// One planned transmission: a destination and the exact bytes to send.
#[derive(Clone, Debug, PartialEq, Eq)]
pub struct Datagram {
    pub dest: SocketAddress,
    pub payload: Vec<u8>,
}

/// Which per-family sender sockets a destination list needs: one IPv4
/// sender exactly where some destination is IPv4, one IPv6 sender exactly
/// where some destination is IPv6.
#[derive(Clone, Copy, Debug, PartialEq, Eq, Structural)]
pub struct SenderPlan {
    pub need_v4: bool,
    pub need_v6: bool,
}

pub open spec fn spec_needs_v4(ds: Seq<SocketAddress>) -> bool {
    exists|i: int| 0 <= i < ds.len() && ds[i] is V4
}

pub open spec fn spec_needs_v6(ds: Seq<SocketAddress>) -> bool {
    exists|i: int| 0 <= i < ds.len() && ds[i] is V6
}

/// Scan the destination list once and plan the sender sockets.
pub fn plan_senders(dests: &Vec<SocketAddress>) -> (r: SenderPlan)
    ensures
        r.need_v4 == spec_needs_v4(dests@),
        r.need_v6 == spec_needs_v6(dests@),
{
    let mut need_v4 = false;
    let mut need_v6 = false;
    let mut i: usize = 0;
    while i < dests.len()
        invariant
            i <= dests@.len(),
            need_v4 == exists|j: int| 0 <= j < i && dests@[j] is V4,
            need_v6 == exists|j: int| 0 <= j < i && dests@[j] is V6,
        decreases dests@.len() - i,
    {
        match dests[i] {
            SocketAddress::V4(_) => {
                need_v4 = true;
            },
            SocketAddress::V6(_) => {
                need_v6 = true;
            },
        }
        i = i + 1;
    }
    SenderPlan { need_v4, need_v6 }
}

/// Every destination's family has its sender under the plan of its own
/// list: the "no sender for this family" case of the send step is
/// unreachable.
pub proof fn lemma_sender_coverage(ds: Seq<SocketAddress>, plan: SenderPlan, i: int)
    requires
        plan.need_v4 == spec_needs_v4(ds),
        plan.need_v6 == spec_needs_v6(ds),
        0 <= i < ds.len(),
    ensures
        ds[i] is V4 ==> plan.need_v4,
        ds[i] is V6 ==> plan.need_v6,
{
}

/// Fan one received payload out: one datagram per destination, in list
/// order, each carrying exactly the received bytes.
pub fn fan_out(payload: &[u8], dests: &Vec<SocketAddress>) -> (r: Vec<Datagram>)
    ensures
        r@.len() == dests@.len(),
        forall|i: int|
            0 <= i < r@.len() ==> r@[i].dest == dests@[i] && r@[i].payload@ == payload@,
{
    let mut out: Vec<Datagram> = Vec::new();
    let mut i: usize = 0;
    while i < dests.len()
        invariant
            i <= dests@.len(),
            out@.len() == i,
            forall|j: int|
                0 <= j < i ==> out@[j].dest == dests@[j] && out@[j].payload@ == payload@,
        decreases dests@.len() - i,
    {
        let bytes = vstd::slice::slice_to_vec(payload);
        out.push(Datagram { dest: dests[i], payload: bytes });
        i = i + 1;
    }
    out
}

/// One iteration of the forwarding loop, after the receive call: of the
/// reusable buffer only the `num_bytes` received bytes are relayed — a
/// datagram larger than the buffer arrives truncated and is relayed as
/// received — and they go to every destination, unmodified and in order.
pub fn relay_step(buffer: &[u8], num_bytes: usize, dests: &Vec<SocketAddress>) -> (r: Vec<
    Datagram,
>)
    requires
        num_bytes <= buffer@.len(),
    ensures
        r@.len() == dests@.len(),
        forall|i: int|
            0 <= i < r@.len() ==> r@[i].dest == dests@[i] && r@[i].payload@ == buffer@.subrange(
                0,
                num_bytes as int,
            ),
{
    let payload = &buffer[0..num_bytes];
    fan_out(payload, dests)
}

} // verus!
