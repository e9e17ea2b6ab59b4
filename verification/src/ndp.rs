//! IPv6 neighbour discovery, for a host that does its own thinking.
//!
//! The kernel's router-advertisement handling is switched off (`accept_ra =
//! 0`): policy about what an advertisement means, which addresses to form,
//! which router to believe, what DNS to use, lives in one place. This module
//! is the pure part: the ICMPv6 codec (`packet`) and the per-interface SLAAC
//! state machine (`engine`), clock-injected and socket-free in the same shape
//! as `dhcp4`. The caller feeds it time and packets and performs the actions
//! it returns.

pub mod conduct;
pub mod counts;
pub mod engine;
pub mod kept;
pub mod laws;
pub mod lifetimes;
pub mod packet;
pub mod reading;
pub mod repeats;
pub mod table;

pub use engine::{Action, Config, DesiredAddress, Engine};
pub use packet::{Dnssl, PrefixInfo, Rdnss, RouterAdvert};
