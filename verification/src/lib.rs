//! A network configuration daemon's logic: DHCP for IPv4 and IPv6, neighbour
//! discovery, policy, reconciliation and the control protocol.
//!
//! Everything here is a function from plain values to plain values. Sockets,
//! files and the clock belong to the program around it.

pub mod addr;
pub mod addr6;
pub mod bytes;
pub mod clock;
pub mod dhcp4;
pub mod dhcp6;
pub mod digest;
pub mod layout;
pub mod libnetd;
pub mod lists;
pub mod ndp;
pub mod net;
pub mod netd;
pub mod rng;
pub mod sorted;
pub mod text;
