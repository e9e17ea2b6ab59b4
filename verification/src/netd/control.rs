//! The control socket: one request per connection, authorised against the netd
//! control object.
//!
//! The object is `Machine\System\Network\ControlSecurity` when set, else a
//! compiled default — Everyone may query, SYSTEM and Administrators may
//! control.

use vstd::prelude::*;
use crate::libnetd;
use crate::libnetd::{NETWORK_ALL_ACCESS, NETWORK_CONTROL, NETWORK_QUERY, Reply, ReplyV, Request, WireError};

verus! {

/// What the generic rights mean for the control object: to read is to query, to
/// write is to control, to execute is to query, and all is all.
#[derive(Debug, Clone, Copy, PartialEq, Eq, Structural)]
pub struct Mapping {
    pub read: u32,
    pub write: u32,
    pub execute: u32,
    pub all: u32,
}

/// What the generic rights mean for the control object, reading its descriptor
/// being part of reading and of writing.
pub fn mapping(read_control: u32) -> (m: Mapping)
    ensures
        m.read == NETWORK_QUERY | read_control,
        m.write == NETWORK_CONTROL | read_control,
        m.execute == NETWORK_QUERY,
        m.all == NETWORK_ALL_ACCESS,
{
    Mapping {
        read: NETWORK_QUERY | read_control,
        write: NETWORK_CONTROL | read_control,
        execute: NETWORK_QUERY,
        all: NETWORK_ALL_ACCESS,
    }
}

/// What everyone may do by the compiled default.
pub fn everyone_may(read_control: u32) -> (r: u32)
    ensures
        r == NETWORK_QUERY | read_control,
{
    NETWORK_QUERY | read_control
}

/// What is answered to a message that could not be taken in.
pub fn refusal(e: &WireError) -> (r: Reply)
    ensures
        r@ == ReplyV::Error(libnetd::error_text(e@)),
{
    Reply::Error(e.to_text())
}

/// The request a message is, or what is answered to one that is none, with what
/// the reader says where it is the reader that found fault.
pub fn read_request(decoded: Result<Request, WireError>, words: String) -> (r: Result<
    Request,
    Reply,
>)
    ensures
        match (r, decoded) {
            (Ok(x), Ok(y)) => x == y,
            (Err(e), Err(f)) => e@ == ReplyV::Error(
                libnetd::error_text(libnetd::worded(f@, words@)),
            ),
            _ => false,
        },
{
    match decoded {
        Ok(x) => Ok(x),
        Err(e) => Err(refusal(&e.worded(words))),
    }
}

/// By the compiled default nobody but those who hold it all may control: the
/// right to query carries no right to control.
pub proof fn a_query_is_no_control(read_control: u32)
    requires
        read_control & NETWORK_CONTROL == 0,
    ensures
        (NETWORK_QUERY | read_control) & NETWORK_CONTROL == 0,
        NETWORK_ALL_ACCESS & NETWORK_CONTROL == NETWORK_CONTROL,
        NETWORK_ALL_ACCESS & NETWORK_QUERY == NETWORK_QUERY,
{
    assert((1u32 | read_control) & 2u32 == 0) by (bit_vector)
        requires
            read_control & 2u32 == 0,
    ;
    assert(0xF_0003u32 & 2u32 == 2u32) by (bit_vector);
    assert(0xF_0003u32 & 1u32 == 1u32) by (bit_vector);
}

} // verus!
