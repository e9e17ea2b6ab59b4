//! The length before each message.

use vstd::prelude::*;
use crate::bytes;
use super::{MAX_MESSAGE_BYTES, WireError, WireErrorV};

verus! {

/// A message with its length before it, four bytes with the low one first.
pub open spec fn framed(payload: Seq<u8>) -> Seq<u8> {
    seq![
        (payload.len() % 256) as u8,
        (payload.len() / 256 % 256) as u8,
        (payload.len() / 0x1_0000 % 256) as u8,
        (payload.len() / 0x100_0000 % 256) as u8,
    ] + payload
}

/// The length that four bytes announce.
pub open spec fn announced(head: Seq<u8>) -> nat {
    (head[0] + head[1] * 256 + head[2] * 0x1_0000 + head[3] * 0x100_0000) as nat
}

/// What is sent for one message, or that it is too large to send.
pub fn frame(payload: &[u8]) -> (r: Result<Vec<u8>, WireError>)
    ensures
        match r {
            Ok(v) => payload@.len() <= MAX_MESSAGE_BYTES && v@ == framed(payload@),
            Err(e) => payload@.len() > MAX_MESSAGE_BYTES && e@ == WireErrorV::TooLarge(
                payload@.len(),
            ),
        },
{
    let n: usize = payload.len();
    if n > MAX_MESSAGE_BYTES {
        return Err(WireError::TooLarge(n));
    }
    let mut v: Vec<u8> = Vec::new();
    v.push((n % 256) as u8);
    v.push((n / 256 % 256) as u8);
    v.push((n / 0x1_0000 % 256) as u8);
    v.push((n / 0x100_0000 % 256) as u8);
    bytes::extend(&mut v, payload);
    assert(v@ =~= framed(payload@));
    Ok(v)
}

/// How many bytes of payload follow these four. An oversized length is refused
/// before its payload is read.
pub fn payload_length(head: &[u8; 4]) -> (r: Result<usize, WireError>)
    ensures
        match r {
            Ok(n) => n == announced(head@) && n <= MAX_MESSAGE_BYTES,
            Err(e) => announced(head@) > MAX_MESSAGE_BYTES && e@ == WireErrorV::TooLarge(
                announced(head@),
            ),
        },
{
    let n: usize = head[0] as usize + head[1] as usize * 256 + head[2] as usize * 0x1_0000
        + head[3] as usize * 0x100_0000;
    if n > MAX_MESSAGE_BYTES {
        Err(WireError::TooLarge(n))
    } else {
        Ok(n)
    }
}

/// What was framed is found again: the four bytes announce the payload that
/// follows them.
pub proof fn frames_announce_their_payload(payload: Seq<u8>)
    requires
        payload.len() <= MAX_MESSAGE_BYTES,
    ensures
        announced(framed(payload).take(4)) == payload.len(),
        framed(payload).skip(4) == payload,
{
    assert(framed(payload).skip(4) =~= payload);
}

} // verus!
