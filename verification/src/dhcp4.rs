//! A DHCPv4 client with no I/O.
//!
//! `packet` encodes and decodes DHCP messages (RFC 2131 wire format, RFC 2132
//! options; options are not concatenated across duplicates). `client` is the
//! state machine: it is told the time and what arrived, and answers with what
//! to send and what changed. The caller owns sockets, timers and the
//! interface.

pub mod client;
pub mod conduct;
pub mod laws;
pub mod packet;

pub use client::{Action, Client, Config, Destination, State};
pub use packet::{Lease, Message, MessageType, Options, StaticRoute};
