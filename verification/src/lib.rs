//! Verified core of an IP-packet tunnel server: classification of tunneled
//! IPv4 frames, a flow table with address/port translation and idle eviction,
//! the forwarding (NAT) rewrites, the per-connection session state machine,
//! and the session registry.

pub mod checksum;
pub mod engine;
pub mod flow;
pub mod packet;
pub mod registry;
pub mod rewrite;
pub mod session;
