//! A user-space TCP/IPv4/Ethernet stack: wire-format codecs, the per-connection
//! state machine for the three-way handshake and data transfer, and a
//! poll-driven engine that multiplexes many connections over one virtual clock.

pub mod addr;
pub mod checksum;
pub mod conn;
pub mod engine;
pub mod ethernet2;
pub mod fail;
pub mod ipv4;
pub mod segment;
pub mod seqnum;
pub mod wire;
