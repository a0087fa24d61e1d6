//! Verified core of a three-role TCP service discovery pipeline.
//!
//! A dispatcher hands out IP ranges drawn from a pseudo-random permutation of
//! the public IPv4 space, a scout reports candidate addresses whose target
//! port answered a SYN probe, and a client completes the framed status
//! handshake against each candidate and reports the result.

pub mod config;
pub mod dispatcher;
pub mod intake;
pub mod ip;
pub mod ip_dispatcher;
pub mod persist;
pub mod probe;
pub mod receiver;
pub mod scout_frame;
pub mod ip_iter;
pub mod mc_packet;
pub mod protocol_string;
pub mod varint;
