//! A user-space TCP termination engine: raw IPv4/TCP frames in, per-flow
//! connection state and protocol-correct reply segments out.
//!
//! The crate is pure computation: it parses frames, keeps a table of
//! per-flow connections, runs the RFC793 handshake and sequence-space
//! bookkeeping, and serialises reply segments. Reading frames from and
//! writing replies to the network interface is left to the caller.

pub mod checksum;
pub mod engine;
pub mod seqnum;
pub mod table;
pub mod tcp;
pub mod wire;
