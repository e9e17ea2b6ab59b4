//! Big-endian numbers in byte strings.

use vstd::prelude::*;

verus! {

/// 256 to the power `n`.
pub open spec fn pow256(n: nat) -> nat
    decreases n,
{
    if n == 0 {
        1
    } else {
        256 * pow256((n - 1) as nat)
    }
}

/// The number that `s` spells in base 256, most significant byte first.
pub open spec fn be_nat(s: Seq<u8>) -> nat
    decreases s.len(),
{
    if s.len() == 0 {
        0
    } else {
        be_nat(s.drop_last()) * 256 + s.last() as nat
    }
}

/// The low `len` bytes of `n`, most significant first.
pub open spec fn be_bytes(n: nat, len: nat) -> Seq<u8>
    decreases len,
{
    if len == 0 {
        Seq::empty()
    } else {
        be_bytes(n / 256, (len - 1) as nat).push((n % 256) as u8)
    }
}

/// A byte string of `len` bytes spells a number below `256^len`.
pub proof fn be_nat_bound(s: Seq<u8>)
    ensures
        be_nat(s) < pow256(s.len()),
    decreases s.len(),
{
    if s.len() > 0 {
        be_nat_bound(s.drop_last());
    }
}

pub proof fn be_bytes_len(n: nat, len: nat)
    ensures
        be_bytes(n, len).len() == len,
    decreases len,
{
    if len > 0 {
        be_bytes_len(n / 256, (len - 1) as nat);
    }
}

/// Reading back the bytes of a number gives the number.
pub proof fn be_nat_of_be_bytes(n: nat, len: nat)
    requires
        n < pow256(len),
    ensures
        be_nat(be_bytes(n, len)) == n,
        be_bytes(n, len).len() == len,
    decreases len,
{
    be_bytes_len(n, len);
    if len > 0 {
        assert(n / 256 < pow256((len - 1) as nat));
        be_nat_of_be_bytes(n / 256, (len - 1) as nat);
        assert(be_bytes(n, len).drop_last() =~= be_bytes(n / 256, (len - 1) as nat));
    }
}

/// The number in `v[at..at + 2]`.
pub fn u16_at(v: &[u8], at: usize) -> (n: u16)
    requires
        at + 2 <= v@.len(),
    ensures
        n == be_nat(v@.subrange(at as int, at + 2)),
{
    proof {
        reveal_with_fuel(be_nat, 3);
        let s = v@.subrange(at as int, at + 2);
        assert(s.drop_last().last() == v@[at as int]);
        assert(s.drop_last().drop_last().len() == 0);
    }
    v[at] as u16 * 256 + v[at + 1] as u16
}

/// The number in `v[at..at + 4]`.
pub fn u32_at(v: &[u8], at: usize) -> (n: u32)
    requires
        at + 4 <= v@.len(),
    ensures
        n == be_nat(v@.subrange(at as int, at + 4)),
{
    proof {
        reveal_with_fuel(be_nat, 5);
        let s = v@.subrange(at as int, at + 4);
        assert(s.drop_last().last() == v@[at + 2]);
        assert(s.drop_last().drop_last().last() == v@[at + 1]);
        assert(s.drop_last().drop_last().drop_last().last() == v@[at as int]);
        assert(s.drop_last().drop_last().drop_last().drop_last().len() == 0);
    }
    v[at] as u32 * 0x100_0000 + v[at + 1] as u32 * 0x1_0000 + v[at + 2] as u32 * 0x100 + v[at
        + 3] as u32
}

/// Appends the two bytes of `n`.
pub fn push_u16(out: &mut Vec<u8>, n: u16)
    ensures
        final(out)@ == old(out)@ + be_bytes(n as nat, 2),
{
    proof {
        reveal_with_fuel(be_bytes, 3);
        assert(be_bytes(n as nat, 2) =~= seq![(n / 256) as u8, (n % 256) as u8]);
    }
    out.push((n / 256) as u8);
    out.push((n % 256) as u8);
}

/// Appends the four bytes of `n`.
pub fn push_u32(out: &mut Vec<u8>, n: u32)
    ensures
        final(out)@ == old(out)@ + be_bytes(n as nat, 4),
{
    proof {
        reveal_with_fuel(be_bytes, 5);
        assert(be_bytes(n as nat, 4) =~= seq![
            (n / 0x100_0000) as u8,
            (n / 0x1_0000 % 256) as u8,
            (n / 0x100 % 256) as u8,
            (n % 256) as u8,
        ]);
    }
    out.push((n / 0x100_0000) as u8);
    out.push((n / 0x1_0000 % 256) as u8);
    out.push((n / 0x100 % 256) as u8);
    out.push((n % 256) as u8);
}

/// Appends the eight bytes of `n`.
pub fn push_u64(out: &mut Vec<u8>, n: u64)
    ensures
        final(out)@ == old(out)@ + be_bytes(n as nat, 8),
{
    let high: u32 = (n / 0x1_0000_0000) as u32;
    let low: u32 = (n % 0x1_0000_0000) as u32;
    proof {
        be_bytes_split(n as nat, 4, 4);
        pow256_16();
        be_bytes_low(n as nat, 4);
    }
    push_u32(out, high);
    push_u32(out, low);
    assert(out@ =~= old(out)@ + be_bytes(n as nat, 8));
}

/// The bytes of a number are those of its high part and then the low ones.
pub proof fn be_bytes_split(n: nat, a: nat, b: nat)
    ensures
        be_bytes(n, a + b) == be_bytes(n / pow256(b), a) + be_bytes(n, b),
    decreases b,
{
    if b == 0 {
        assert(n / 1 == n);
        assert(be_bytes(n, a) + be_bytes(n, 0) =~= be_bytes(n, a));
    } else {
        let c = (b - 1) as nat;
        be_bytes_split(n / 256, a, c);
        assert(pow256(c) > 0) by {
            pow256_mono(0, c);
        }
        vstd::arithmetic::div_mod::lemma_div_denominator(n as int, 256, pow256(c) as int);
        assert((n / 256) / pow256(c) == n / pow256(b));
        assert(be_bytes(n, a + b) =~= be_bytes(n / pow256(b), a) + be_bytes(n, b));
    }
}

/// Only the low part of a number shows in its low bytes.
pub proof fn be_bytes_low(n: nat, b: nat)
    ensures
        be_bytes(n % pow256(b), b) == be_bytes(n, b),
    decreases b,
{
    if b > 0 {
        let c = (b - 1) as nat;
        let p = pow256(c);
        assert(p > 0) by {
            pow256_mono(0, c);
        }
        be_bytes_low(n / 256, c);
        vstd::arithmetic::div_mod::lemma_mod_breakdown(n as int, 256, p as int);
        assert(n % (256 * p) == 256 * ((n / 256) % p) + n % 256);
        assert((n % pow256(b)) / 256 == (n / 256) % p);
        assert((n % pow256(b)) % 256 == n % 256);
    }
}

/// The number in the 8 bytes from `at`.
pub fn u64_at(v: &[u8], at: usize) -> (n: u64)
    requires
        at + 8 <= v@.len(),
    ensures
        n == be_nat(v@.subrange(at as int, at + 8)),
{
    let mut n: u64 = 0;
    let mut i: usize = 0;
    let end: usize = v.len();
    while i < 8
        invariant
            i <= 8,
            at + 8 <= end == v@.len(),
            n == be_nat(v@.subrange(at as int, at + i)),
        decreases 8 - i,
    {
        proof {
            let s = v@.subrange(at as int, at + i + 1);
            assert(s.drop_last() =~= v@.subrange(at as int, at + i));
            be_nat_bound(s);
            pow256_mono((i + 1) as nat, 8);
            pow256_16();
        }
        n = n * 256 + v[at + i] as u64;
        i = i + 1;
    }
    n
}

/// The number in the 16 bytes from `at`.
pub fn u128_at(v: &[u8], at: usize) -> (n: u128)
    requires
        at + 16 <= v@.len(),
    ensures
        n == be_nat(v@.subrange(at as int, at + 16)),
{
    let mut n: u128 = 0;
    let mut i: usize = 0;
    let end: usize = v.len();
    while i < 16
        invariant
            i <= 16,
            at + 16 <= end == v@.len(),
            n == be_nat(v@.subrange(at as int, at + i)),
        decreases 16 - i,
    {
        proof {
            let s = v@.subrange(at as int, at + i + 1);
            assert(s.drop_last() =~= v@.subrange(at as int, at + i));
            be_nat_bound(s);
            pow256_mono((i + 1) as nat, 16);
            pow256_16();
        }
        n = n * 256 + v[at + i] as u128;
        i = i + 1;
    }
    n
}

pub proof fn pow256_mono(a: nat, b: nat)
    requires
        a <= b,
    ensures
        pow256(a) <= pow256(b),
    decreases b,
{
    if a < b {
        pow256_mono(a, (b - 1) as nat);
    }
}

pub proof fn pow256_16()
    ensures
        pow256(1) == 0x100,
        pow256(2) == 0x1_0000,
        pow256(4) == 0x1_0000_0000,
        pow256(8) == 0x1_0000_0000_0000_0000,
        pow256(16) == u128::MAX + 1,
{
    reveal_with_fuel(pow256, 17);
}

/// Appends a byte slice.
pub fn extend(out: &mut Vec<u8>, more: &[u8])
    ensures
        final(out)@ == old(out)@ + more@,
{
    out.extend_from_slice(more);
    assert(out@ =~= old(out)@ + more@);
}

/// Appends `n` zero bytes.
pub fn push_zeros(out: &mut Vec<u8>, n: usize)
    ensures
        final(out)@ == old(out)@ + Seq::new(n as nat, |i: int| 0u8),
{
    let mut i: usize = 0;
    while i < n
        invariant
            i <= n,
            out@ == old(out)@ + Seq::new(i as nat, |j: int| 0u8),
        decreases n - i,
    {
        out.push(0);
        i = i + 1;
        assert(out@ =~= old(out)@ + Seq::new(i as nat, |j: int| 0u8));
    }
}

/// Whether two byte slices hold the same bytes.
pub fn same(a: &[u8], b: &[u8]) -> (r: bool)
    ensures
        r == (a@ == b@),
{
    if a.len() != b.len() {
        return false;
    }
    let mut i: usize = 0;
    while i < a.len()
        invariant
            i <= a@.len(),
            a@.len() == b@.len(),
            forall|j: int| 0 <= j < i ==> a@[j] == b@[j],
        decreases a@.len() - i,
    {
        if a[i] != b[i] {
            return false;
        }
        i = i + 1;
    }
    assert(a@ =~= b@);
    true
}

/// A copy of `v[from..to]`.
pub fn copy(v: &[u8], from: usize, to: usize) -> (r: Vec<u8>)
    requires
        from <= to <= v@.len(),
    ensures
        r@ == v@.subrange(from as int, to as int),
{
    vstd::slice::slice_to_vec(vstd::slice::slice_subrange(v, from, to))
}

/// The number that `s` spells in base 256, least significant byte first.
pub open spec fn le_nat(s: Seq<u8>) -> nat
    decreases s.len(),
{
    if s.len() == 0 {
        0
    } else {
        s[0] as nat + 256 * le_nat(s.drop_first())
    }
}

/// Four bytes spell a number below two to the thirty-second.
pub proof fn le_nat_small(s: Seq<u8>)
    requires
        s.len() == 4,
    ensures
        le_nat(s) < 0x1_0000_0000,
{
    le_nat_bound(s);
    pow256_16();
}

proof fn le_nat_bound(s: Seq<u8>)
    ensures
        le_nat(s) < pow256(s.len()),
    decreases s.len(),
{
    if s.len() > 0 {
        le_nat_bound(s.drop_first());
    }
}

/// The little-endian number in `v[from..to]`, eight bytes at most.
pub fn le_at(v: &[u8], from: usize, to: usize) -> (n: u64)
    requires
        from <= to <= v@.len(),
        to - from <= 8,
    ensures
        n == le_nat(v@.subrange(from as int, to as int)),
    decreases to - from,
{
    if from == to {
        0
    } else {
        proof {
            let s = v@.subrange(from as int, to as int);
            assert(s.drop_first() =~= v@.subrange(from + 1, to as int));
            le_nat_bound(s);
            pow256_mono(s.len(), 8);
            pow256_16();
        }
        let rest: u64 = le_at(v, from + 1, to);
        v[from] as u64 + 256 * rest
    }
}

/// How many bytes come before the first zero.
pub open spec fn zero_at(v: Seq<u8>) -> int
    decreases v.len(),
{
    if v.len() == 0 || v[0] == 0 {
        0
    } else {
        1 + zero_at(v.drop_first())
    }
}

pub proof fn zero_at_found(v: Seq<u8>, n: int)
    requires
        0 <= n <= v.len(),
        forall|i: int| 0 <= i < n ==> v[i] != 0,
        n < v.len() ==> v[n] == 0,
    ensures
        zero_at(v) == n,
    decreases n,
{
    if n > 0 {
        zero_at_found(v.drop_first(), n - 1);
    }
}

/// The index from `from` of the first zero, or the length.
pub fn find_zero(v: &[u8], from: usize) -> (n: usize)
    requires
        from <= v@.len(),
    ensures
        from <= n <= v@.len(),
        n - from == zero_at(v@.skip(from as int)),
{
    let mut n: usize = from;
    while n < v.len() && v[n] != 0
        invariant
            from <= n <= v@.len(),
            forall|i: int| from <= i < n ==> v@[i] != 0,
        decreases v@.len() - n,
    {
        n = n + 1;
    }
    proof {
        zero_at_found(v@.skip(from as int), n - from);
    }
    n
}

} // verus!
