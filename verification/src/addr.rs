//! Internet addresses and their text.

use vstd::prelude::*;
use vstd::string::*;
use vstd::arithmetic::power2::*;
use crate::bytes;
use crate::text;

verus! {

/// An IPv4 address, as the number its four octets spell.
#[derive(Clone, Copy, Debug, PartialEq, Eq, PartialOrd, Ord, Hash, Structural)]
pub struct Ipv4Addr {
    pub bits: u32,
}

/// An IPv6 address, as the number its sixteen octets spell.
#[derive(Clone, Copy, Debug, PartialEq, Eq, PartialOrd, Ord, Hash, Structural)]
pub struct Ipv6Addr {
    pub bits: u128,
}

/// An address of either family.
#[derive(Clone, Copy, Debug, PartialEq, Eq, PartialOrd, Ord, Hash, Structural)]
pub enum IpAddr {
    V4(Ipv4Addr),
    V6(Ipv6Addr),
}

/// The address whose octets are `s`.
pub open spec fn v4_of(s: Seq<u8>) -> Ipv4Addr {
    Ipv4Addr { bits: bytes::be_nat(s) as u32 }
}

/// The address whose octets are `s`.
pub open spec fn v6_of(s: Seq<u8>) -> Ipv6Addr {
    Ipv6Addr { bits: bytes::be_nat(s) as u128 }
}

impl Ipv4Addr {
    /// The four octets.
    pub open spec fn octs(&self) -> Seq<u8> {
        bytes::be_bytes(self.bits as nat, 4)
    }

    /// The address with these octets.
    pub fn new(a: u8, b: u8, c: u8, d: u8) -> (r: Ipv4Addr)
        ensures
            r.bits == a * 0x100_0000 + b * 0x1_0000 + c * 0x100 + d,
    {
        Ipv4Addr { bits: a as u32 * 0x100_0000 + b as u32 * 0x1_0000 + c as u32 * 0x100 + d as u32 }
    }

    /// `0.0.0.0`.
    pub fn unspecified() -> (r: Ipv4Addr)
        ensures
            r.bits == 0,
    {
        Ipv4Addr { bits: 0 }
    }

    /// The address in the four bytes of `v` from `at`.
    pub fn at(v: &[u8], at: usize) -> (r: Ipv4Addr)
        requires
            at + 4 <= v@.len(),
        ensures
            r == v4_of(v@.subrange(at as int, at + 4)),
    {
        Ipv4Addr { bits: bytes::u32_at(v, at) }
    }

    /// The four octets.
    pub fn octets(&self) -> (r: [u8; 4])
        ensures
            r@ == self.octs(),
    {
        let n: u32 = self.bits;
        let r: [u8; 4] = [
            (n / 0x100_0000) as u8,
            (n / 0x1_0000 % 256) as u8,
            (n / 0x100 % 256) as u8,
            (n % 256) as u8,
        ];
        proof {
            reveal_with_fuel(bytes::be_bytes, 5);
            assert(r@ =~= bytes::be_bytes(n as nat, 4));
        }
        r
    }

    pub fn is_unspecified(&self) -> (r: bool)
        ensures
            r == (self.bits == 0),
    {
        self.bits == 0
    }

    /// In 127.0.0.0/8.
    pub fn is_loopback(&self) -> (r: bool)
        ensures
            r == (self.bits / 0x100_0000 == 127),
    {
        self.bits / 0x100_0000 == 127
    }

    /// In 169.254.0.0/16.
    pub fn is_link_local(&self) -> (r: bool)
        ensures
            r == (self.bits / 0x1_0000 == 0xa9fe),
    {
        self.bits / 0x1_0000 == 0xa9fe
    }

    /// The address in dotted decimal.
    pub fn to_text(&self) -> (s: String)
        ensures
            s@ == v4_text(*self),
    {
        let n: u32 = self.bits;
        let mut s: String = text::decimal_of((n / 0x100_0000) as u64);
        s.push('.');
        s.append(text::decimal_of((n / 0x1_0000 % 256) as u64).as_str());
        s.push('.');
        s.append(text::decimal_of((n / 0x100 % 256) as u64).as_str());
        s.push('.');
        s.append(text::decimal_of((n % 256) as u64).as_str());
        assert(s@ =~= v4_text(*self));
        s
    }

    /// Reads dotted decimal: four numbers below 256 without leading zeros.
    pub fn parse(s: &str) -> (r: Option<Ipv4Addr>)
        ensures
            r == v4_parsed(s@),
    {
        let v: Vec<char> = text::chars(s);
        assert(v@.subrange(0, v@.len() as int) =~= v@);
        parse_v4(v.as_slice(), 0, v.len())
    }
}

/// How many addresses share their first `prefix` bits.
pub open spec fn block_size(prefix: u8) -> nat {
    if prefix >= 32 {
        1
    } else {
        pow2((32 - prefix) as nat)
    }
}

/// The first address with the first `prefix` bits of `a`.
pub open spec fn block_start(a: Ipv4Addr, prefix: u8) -> Ipv4Addr {
    Ipv4Addr { bits: (a.bits as int - a.bits as int % block_size(prefix) as int) as u32 }
}

/// How many addresses share their first `prefix` bits.
pub fn block(prefix: u8) -> (n: u64)
    ensures
        n == block_size(prefix),
        1 <= n <= 0x1_0000_0000,
{
    let mut n: u64 = 1;
    let mut i: u8 = 32;
    proof {
        lemma2_to64();
    }
    while i > prefix
        invariant
            i <= 32,
            i >= prefix || i == 32,
            n == pow2((32 - i) as nat),
            1 <= n,
            i > 0 || n == 0x1_0000_0000,
            n <= 0x1_0000_0000,
        decreases i,
    {
        i = i - 1;
        proof {
            lemma_pow2_unfold((32 - i) as nat);
            lemma2_to64();
            if i > 0 {
                lemma_pow2_strictly_increases((32 - i) as nat, 32);
            }
        }
        n = n * 2;
    }
    n
}

/// A block of addresses lies within the addresses there are.
pub proof fn block_fits(a: Ipv4Addr, prefix: u8)
    ensures
        a.bits as int % block_size(prefix) as int <= a.bits,
        a.bits - a.bits as int % block_size(prefix) as int + block_size(prefix) <= 0x1_0000_0000,
        block_size(prefix) >= 1,
{
    let size = block_size(prefix) as int;
    let n = a.bits as int;
    if prefix < 32 {
        lemma_pow2_pos((32 - prefix) as nat);
        lemma_pow2_adds(prefix as nat, (32 - prefix) as nat);
        lemma2_to64();
        let k = pow2(prefix as nat) as int;
        vstd::arithmetic::div_mod::lemma_fundamental_div_mod(n, size);
        vstd::arithmetic::div_mod::lemma_mod_bound(n, size);
        let q = n / size;
        assert(q < k) by (nonlinear_arith)
            requires
                size * q <= n,
                n < k * size,
                size > 0,
        ;
        assert(size * q + size <= k * size) by (nonlinear_arith)
            requires
                q < k,
                size > 0,
        ;
        vstd::arithmetic::div_mod::lemma_mod_decreases(n as nat, size as nat);
    }
}

/// The address in dotted decimal.
pub open spec fn v4_text(a: Ipv4Addr) -> Seq<char> {
    text::decimal((a.bits / 0x100_0000) as nat) + seq!['.'] + text::decimal(
        (a.bits / 0x1_0000 % 256) as nat,
    ) + seq!['.'] + text::decimal((a.bits / 0x100 % 256) as nat) + seq!['.'] + text::decimal(
        (a.bits % 256) as nat,
    )
}

/// Where `c` first occurs in `s`; the length where it does not.
pub open spec fn index_of(s: Seq<char>, c: char) -> int
    decreases s.len(),
{
    if s.len() == 0 || s[0] == c {
        0
    } else {
        1 + index_of(s.drop_first(), c)
    }
}

pub proof fn index_of_found(s: Seq<char>, c: char, n: int)
    requires
        0 <= n <= s.len(),
        forall|i: int| 0 <= i < n ==> s[i] != c,
        n < s.len() ==> s[n] == c,
    ensures
        index_of(s, c) == n,
    decreases s.len(),
{
    if n > 0 {
        index_of_found(s.drop_first(), c, n - 1);
    }
}

/// The index from `from` of the first `c` before `to`, or `to`.
pub fn find(v: &[char], from: usize, to: usize, c: char) -> (n: usize)
    requires
        from <= to <= v@.len(),
    ensures
        from <= n <= to,
        n - from == index_of(v@.subrange(from as int, to as int), c),
        n < to ==> v@[n as int] == c,
{
    let mut n: usize = from;
    while n < to && v[n] != c
        invariant
            from <= n <= to <= v@.len(),
            forall|i: int| from <= i < n ==> v@[i] != c,
        decreases to - n,
    {
        n = n + 1;
    }
    proof {
        index_of_found(v@.subrange(from as int, to as int), c, n - from);
    }
    n
}

/// The decimal number of at most three digits, without leading zeros, that is
/// all of `s`.
pub open spec fn octet_parsed(s: Seq<char>) -> Option<nat> {
    if 1 <= s.len() <= 3 && (s.len() > 1 ==> s[0] != '0') {
        match text::digits_value(s) {
            Some(v) => if v <= 255 {
                Some(v)
            } else {
                None
            },
            None => None,
        }
    } else {
        None
    }
}

fn parse_octet(v: &[char], from: usize, to: usize) -> (r: Option<u8>)
    requires
        from <= to <= v@.len(),
    ensures
        match r {
            Some(n) => octet_parsed(v@.subrange(from as int, to as int)) == Some(n as nat),
            None => octet_parsed(v@.subrange(from as int, to as int)) is None,
        },
{
    let ghost s = v@.subrange(from as int, to as int);
    if to - from < 1 || to - from > 3 || (to - from > 1 && v[from] == '0') {
        return None;
    }
    let mut n: u16 = 0;
    let mut i: usize = from;
    proof {
        reveal_with_fuel(text::digits_value, 4);
    }
    while i < to
        invariant
            from <= i <= to <= v@.len(),
            s == v@.subrange(from as int, to as int),
            1 <= s.len() <= 3,
            i - from == 0 ==> n == 0,
            i - from <= 1 ==> n <= 9,
            i - from <= 2 ==> n <= 99,
            n <= 999,
            text::digits_value(s.take(i - from)) == Some(n as nat),
            s.len() > 1 ==> s[0] != '0',
        decreases to - i,
    {
        let c: char = v[i];
        let ghost next = s.take(i - from + 1);
        assert(next.drop_last() =~= s.take(i - from));
        assert(next.last() == c);
        if !('0' <= c && c <= '9') {
            proof {
                digits_value_stops(s, i - from);
            }
            return None;
        }
        n = n * 10 + (c as u8 - 48) as u16;
        i = i + 1;
    }
    assert(s.take(i - from) =~= s);
    if n <= 255 {
        Some(n as u8)
    } else {
        None
    }
}

proof fn digits_value_stops(s: Seq<char>, n: int)
    requires
        0 <= n < s.len(),
        !('0' <= s[n] <= '9'),
    ensures
        text::digits_value(s) is None,
    decreases s.len(),
{
    if n < s.len() - 1 {
        digits_value_stops(s.drop_last(), n);
    }
}

/// `count` octets in decimal with dots between them, and nothing else.
pub open spec fn octets_parsed(s: Seq<char>, count: nat) -> Option<nat>
    decreases count,
{
    if count <= 1 {
        octet_parsed(s)
    } else {
        let i = index_of(s, '.');
        if i >= s.len() {
            None
        } else {
            match (octet_parsed(s.take(i)), octets_parsed(s.skip(i + 1), (count - 1) as nat)) {
                (Some(a), Some(b)) => Some(a * bytes::pow256((count - 1) as nat) + b),
                _ => None,
            }
        }
    }
}

/// The address that `s` spells in dotted decimal.
pub open spec fn v4_parsed(s: Seq<char>) -> Option<Ipv4Addr> {
    match octets_parsed(s, 4) {
        Some(n) => Some(Ipv4Addr { bits: n as u32 }),
        None => None,
    }
}

pub(crate) fn parse_v4(v: &[char], from: usize, to: usize) -> (r: Option<Ipv4Addr>)
    requires
        from <= to <= v@.len(),
    ensures
        r == v4_parsed(v@.subrange(from as int, to as int)),
{
    let ghost s = v@.subrange(from as int, to as int);
    proof {
        reveal_with_fuel(octets_parsed, 5);
        reveal_with_fuel(bytes::pow256, 4);
    }
    let i: usize = find(v, from, to, '.');
    if i == to {
        return None;
    }
    let ghost s1 = v@.subrange(i + 1, to as int);
    assert(s.take(i - from) =~= v@.subrange(from as int, i as int));
    assert(s.skip(i - from + 1) =~= s1);
    let j: usize = find(v, i + 1, to, '.');
    if j == to {
        return None;
    }
    let ghost s2 = v@.subrange(j + 1, to as int);
    assert(s1.take(j - i - 1) =~= v@.subrange(i + 1, j as int));
    assert(s1.skip(j - i) =~= s2);
    let k: usize = find(v, j + 1, to, '.');
    if k == to {
        return None;
    }
    assert(s2.take(k - j - 1) =~= v@.subrange(j + 1, k as int));
    assert(s2.skip(k - j) =~= v@.subrange(k + 1, to as int));
    let a: Option<u8> = parse_octet(v, from, i);
    let b: Option<u8> = parse_octet(v, i + 1, j);
    let c: Option<u8> = parse_octet(v, j + 1, k);
    let d: Option<u8> = parse_octet(v, k + 1, to);
    match (a, b, c, d) {
        (Some(a), Some(b), Some(c), Some(d)) => Some(Ipv4Addr::new(a, b, c, d)),
        _ => None,
    }
}

/// What is printed is read back: the text of an address parses to it.
#[verifier::spinoff_prover]
pub proof fn v4_text_parses(a: Ipv4Addr)
    ensures
        v4_parsed(v4_text(a)) == Some(a),
{
    let n0 = (a.bits / 0x100_0000) as nat;
    let n1 = (a.bits / 0x1_0000 % 256) as nat;
    let n2 = (a.bits / 0x100 % 256) as nat;
    let n3 = (a.bits % 256) as nat;
    octet_text(n0);
    octet_text(n1);
    octet_text(n2);
    octet_text(n3);
    let d0 = text::decimal(n0);
    let d1 = text::decimal(n1);
    let d2 = text::decimal(n2);
    let d3 = text::decimal(n3);
    let s = v4_text(a);
    let s1 = d1 + seq!['.'] + d2 + seq!['.'] + d3;
    let s2 = d2 + seq!['.'] + d3;
    assert(bytes::pow256(1) == 0x100 && bytes::pow256(2) == 0x1_0000 && bytes::pow256(3)
        == 0x100_0000) by {
        reveal_with_fuel(bytes::pow256, 4);
    }
    let v1 = n2 * 0x100 + n3;
    let v2 = n1 * 0x1_0000 + v1;
    let v3 = n0 * 0x100_0000 + v2;
    octets_step(d2, d3, 2, 0x100, n2, n3);
    assert(s1 =~= d1 + seq!['.'] + s2);
    octets_step(d1, s2, 3, 0x1_0000, n1, v1);
    assert(s =~= d0 + seq!['.'] + s1);
    octets_step(d0, s1, 4, 0x100_0000, n0, v2);
    assert(v3 == a.bits);
}

proof fn octets_step(head: Seq<char>, tail: Seq<char>, count: nat, weight: nat, a: nat, b: nat)
    requires
        count >= 2,
        weight == bytes::pow256((count - 1) as nat),
        octet_parsed(head) == Some(a),
        forall|i: int| 0 <= i < head.len() ==> head[i] != '.',
        octets_parsed(tail, (count - 1) as nat) == Some(b),
    ensures
        octets_parsed(head + seq!['.'] + tail, count) == Some(a * weight + b),
{
    let s = head + seq!['.'] + tail;
    index_of_found(s, '.', head.len() as int);
    assert(s.take(head.len() as int) =~= head);
    assert(s.skip(head.len() as int + 1) =~= tail);
}

/// The text of an address is digits and dots.
pub proof fn v4_text_plain(a: Ipv4Addr, i: int)
    requires
        0 <= i < v4_text(a).len(),
    ensures
        v4_text(a)[i] == '.' || '0' <= v4_text(a)[i] <= '9',
{
    text::decimal_digits((a.bits / 0x100_0000) as nat);
    text::decimal_digits((a.bits / 0x1_0000 % 256) as nat);
    text::decimal_digits((a.bits / 0x100 % 256) as nat);
    text::decimal_digits((a.bits % 256) as nat);
}

proof fn octet_text(n: nat)
    requires
        n <= 255,
    ensures
        octet_parsed(text::decimal(n)) == Some(n),
        forall|i: int| 0 <= i < text::decimal(n).len() ==> text::decimal(n)[i] != '.',
{
    reveal_with_fuel(text::decimal, 4);
    reveal_with_fuel(text::digits_value, 5);
    let s = text::decimal(n);
    if n < 10 {
        assert(s.drop_last() =~= seq![]);
    } else if n < 100 {
        assert(s =~= seq![text::digit(n / 10), text::digit(n % 10)]);
        assert(s.drop_last() =~= seq![text::digit(n / 10)]);
        assert(s.drop_last().drop_last() =~= seq![]);
    } else {
        assert(s =~= seq![text::digit(n / 100), text::digit(n / 10 % 10), text::digit(n % 10)]);
        assert(s.drop_last() =~= seq![text::digit(n / 100), text::digit(n / 10 % 10)]);
        assert(s.drop_last().drop_last() =~= seq![text::digit(n / 100)]);
        assert(s.drop_last().drop_last().drop_last() =~= seq![]);
    }
}

} // verus!
