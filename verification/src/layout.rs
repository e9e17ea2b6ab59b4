//! Numbers where they lie in a message, byte by byte.

use vstd::prelude::*;
use crate::addr;
use crate::addr::{Ipv4Addr, Ipv6Addr};
use crate::bytes;

verus! {

/// The number in two bytes, the first the greater.
pub open spec fn two(b: Seq<u8>, at: int) -> int {
    b[at] * 0x100 + b[at + 1]
}

/// The number in four bytes, the first the greatest.
pub open spec fn four(b: Seq<u8>, at: int) -> int {
    b[at] * 0x100_0000 + b[at + 1] * 0x1_0000 + b[at + 2] * 0x100 + b[at + 3]
}

/// The number in sixteen bytes, the first the greatest.
pub open spec fn sixteen(b: Seq<u8>, at: int) -> int {
    four(b, at) * 0x1_0000_0000_0000_0000_0000_0000 + four(b, at + 4) * 0x1_0000_0000_0000_0000
        + four(b, at + 8) * 0x1_0000_0000 + four(b, at + 12)
}

/// A number in two bytes.
pub open spec fn in_two(n: int) -> Seq<u8> {
    seq![(n / 0x100 % 0x100) as u8, (n % 0x100) as u8]
}

/// A number in four bytes.
pub open spec fn in_four(n: int) -> Seq<u8> {
    seq![
        (n / 0x100_0000 % 0x100) as u8,
        (n / 0x1_0000 % 0x100) as u8,
        (n / 0x100 % 0x100) as u8,
        (n % 0x100) as u8,
    ]
}

pub(crate) proof fn two_is(b: Seq<u8>, at: int)
    requires
        0 <= at <= at + 2 <= b.len(),
    ensures
        bytes::be_nat(b.subrange(at, at + 2)) == two(b, at),
        0 <= two(b, at) < 0x1_0000,
{
    reveal_with_fuel(bytes::be_nat, 4);
    let s = b.subrange(at, at + 2);
    assert(s.drop_last().drop_last().len() == 0);
}

pub(crate) proof fn four_is(b: Seq<u8>, at: int)
    requires
        0 <= at <= at + 4 <= b.len(),
    ensures
        bytes::be_nat(b.subrange(at, at + 4)) == four(b, at),
        0 <= four(b, at) < 0x1_0000_0000,
        addr::v4_of(b.subrange(at, at + 4)).bits == four(b, at),
{
    reveal_with_fuel(bytes::be_nat, 6);
    let s = b.subrange(at, at + 4);
    assert(s.drop_last().drop_last().drop_last().drop_last().len() == 0);
}

pub(crate) proof fn in_two_is(n: nat)
    ensures
        bytes::be_bytes(n, 2) == in_two(n as int),
{
    reveal_with_fuel(bytes::be_bytes, 4);
    assert(bytes::be_bytes(n, 2) =~= in_two(n as int));
}

pub(crate) proof fn in_four_is(n: nat)
    ensures
        bytes::be_bytes(n, 4) == in_four(n as int),
{
    reveal_with_fuel(bytes::be_bytes, 6);
    assert(n / 256 / 256 == n / 0x1_0000);
    assert(n / 256 / 256 / 256 == n / 0x100_0000);
    assert(bytes::be_bytes(n, 4) =~= in_four(n as int));
}

proof fn joined(a: Seq<u8>, c: Seq<u8>)
    ensures
        bytes::be_nat(a + c) == bytes::be_nat(a) * bytes::pow256(c.len()) + bytes::be_nat(c),
    decreases c.len(),
{
    if c.len() == 0 {
        assert(a + c =~= a);
        assert(bytes::pow256(0) == 1);
        assert(bytes::be_nat(a) * 1 == bytes::be_nat(a));
    } else {
        joined(a, c.drop_last());
        assert((a + c).drop_last() =~= a + c.drop_last());
        let x = bytes::be_nat(a) as int;
        let y = bytes::pow256((c.len() - 1) as nat) as int;
        assert(x * (256 * y) == (x * y) * 256) by (nonlinear_arith);
    }
}

pub(crate) proof fn sixteen_is(b: Seq<u8>, at: int)
    requires
        0 <= at <= at + 16 <= b.len(),
    ensures
        addr::v6_of(b.subrange(at, at + 16)).bits == sixteen(b, at),
        0 <= sixteen(b, at),
{
    four_is(b, at);
    four_is(b, at + 4);
    four_is(b, at + 8);
    four_is(b, at + 12);
    let p = b.subrange(at, at + 4);
    let q = b.subrange(at + 4, at + 8);
    let r = b.subrange(at + 8, at + 12);
    let s = b.subrange(at + 12, at + 16);
    reveal_with_fuel(bytes::pow256, 6);
    assert(bytes::pow256(4) == 0x1_0000_0000);
    joined(p, q);
    let pq = bytes::be_nat(p + q);
    assert(pq == bytes::be_nat(p) * 0x1_0000_0000 + bytes::be_nat(q));
    joined(p + q, r);
    let pqr = bytes::be_nat(p + q + r);
    assert(pqr == pq * 0x1_0000_0000 + bytes::be_nat(r));
    joined(p + q + r, s);
    assert(bytes::be_nat(p + q + r + s) == pqr * 0x1_0000_0000 + bytes::be_nat(s));
    assert(b.subrange(at, at + 16) =~= p + q + r + s);
    bytes::be_nat_bound(b.subrange(at, at + 16));
    bytes::pow256_16();
}

/// An address is read from its four bytes, and written to them, the first the
/// greatest.
pub proof fn addresses_lie_first_octet_first(a: Ipv4Addr, b: Seq<u8>, at: int)
    requires
        0 <= at <= at + 4 <= b.len(),
    ensures
        a.octs() == in_four(a.bits as int),
        addr::v4_of(b.subrange(at, at + 4)).bits == four(b, at),
{
    in_four_is(a.bits as nat);
    four_is(b, at);
}

} // verus!
