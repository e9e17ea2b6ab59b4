//! Option codes the client speaks.

use vstd::prelude::*;

verus! {

pub const PAD: u8 = 0;
pub const SUBNET_MASK: u8 = 1;
pub const ROUTER: u8 = 3;
pub const DNS: u8 = 6;
pub const HOSTNAME: u8 = 12;
pub const DOMAIN_NAME: u8 = 15;
pub const MTU: u8 = 26;
pub const BROADCAST: u8 = 28;
pub const NTP: u8 = 42;
pub const REQUESTED_IP: u8 = 50;
pub const LEASE_TIME: u8 = 51;
pub const MESSAGE_TYPE: u8 = 53;
pub const SERVER_ID: u8 = 54;
pub const PARAMETER_REQUEST_LIST: u8 = 55;
pub const MESSAGE: u8 = 56;
pub const MAX_MESSAGE_SIZE: u8 = 57;
pub const RENEWAL_T1: u8 = 58;
pub const REBINDING_T2: u8 = 59;
pub const CLIENT_ID: u8 = 61;
pub const DOMAIN_SEARCH: u8 = 119;
pub const CLASSLESS_STATIC_ROUTE: u8 = 121;
pub const END: u8 = 255;

} // verus!
