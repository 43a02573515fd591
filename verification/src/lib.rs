//! A UDP relay core: a verified model of the listener address grammar
//! (unicast and multicast, IPv4 and IPv6, with multicast join details)
//! and of the family-aware fan-out decisions of the forwarding loop.
//!
//! Socket I/O itself lives outside this library; the library supplies the
//! address resolution, the classification invariants, and the pure planning
//! of which sender socket each destination needs.

pub mod addr;
pub mod forwarding;
pub mod laws;
pub mod listener;
pub mod parsing;
