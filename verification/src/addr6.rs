//! IPv6 addresses: their octets, their kinds and their text.

use vstd::prelude::*;
use vstd::string::*;
use crate::addr;
use crate::addr::{Ipv4Addr, Ipv6Addr, IpAddr};
use crate::bytes;
use crate::text;

verus! {

/// `n` as `len` numbers of sixteen bits, most significant first.
pub open spec fn segments(n: nat, len: nat) -> Seq<u16>
    decreases len,
{
    if len == 0 {
        Seq::empty()
    } else {
        segments(n / 0x1_0000, (len - 1) as nat).push((n % 0x1_0000) as u16)
    }
}

/// The number that groups of sixteen bits spell.
pub open spec fn groups_value(g: Seq<u16>) -> nat
    decreases g.len(),
{
    if g.len() == 0 {
        0
    } else {
        groups_value(g.drop_last()) * 0x1_0000 + g.last() as nat
    }
}

pub proof fn segments_len(n: nat, len: nat)
    ensures
        segments(n, len).len() == len,
    decreases len,
{
    if len > 0 {
        segments_len(n / 0x1_0000, (len - 1) as nat);
    }
}

proof fn groups_value_bound(g: Seq<u16>)
    ensures
        groups_value(g) < bytes::pow256(2 * g.len()),
    decreases g.len(),
{
    if g.len() > 0 {
        groups_value_bound(g.drop_last());
        assert(bytes::pow256(2 * g.len()) == 256 * bytes::pow256((2 * g.len() - 1) as nat));
        assert(bytes::pow256((2 * g.len() - 1) as nat) == 256 * bytes::pow256(
            (2 * g.len() - 2) as nat,
        ));
    }
}

fn segments_of(n: u128, len: usize) -> (r: Vec<u16>)
    ensures
        r@ == segments(n as nat, len as nat),
    decreases len,
{
    if len == 0 {
        Vec::new()
    } else {
        let mut r: Vec<u16> = segments_of(n / 0x1_0000, len - 1);
        r.push((n % 0x1_0000) as u16);
        r
    }
}

fn octets_of(n: u128, len: usize) -> (r: Vec<u8>)
    ensures
        r@ == bytes::be_bytes(n as nat, len as nat),
    decreases len,
{
    if len == 0 {
        Vec::new()
    } else {
        let mut r: Vec<u8> = octets_of(n / 256, len - 1);
        r.push((n % 256) as u8);
        r
    }
}

/// A hexadecimal number without leading zeros.
pub open spec fn hex(n: nat) -> Seq<char>
    decreases n,
{
    if n < 16 {
        seq![text::hex_digit(n)]
    } else {
        hex(n / 16).push(text::hex_digit(n % 16))
    }
}

fn hex_of(n: u16) -> (s: String)
    ensures
        s@ == hex(n as nat),
    decreases n,
{
    if n < 16 {
        let mut s: String = String::new();
        s.push(text::hex_digit_of(n as u8));
        assert(s@ =~= hex(n as nat));
        s
    } else {
        let mut s: String = hex_of(n / 16);
        s.push(text::hex_digit_of((n % 16) as u8));
        s
    }
}

/// How many zeros stand in `g` from `i` on.
pub open spec fn zero_run(g: Seq<u16>, i: int) -> int
    decreases g.len() - i,
{
    if 0 <= i < g.len() && g[i] == 0 {
        1 + zero_run(g, i + 1)
    } else {
        0
    }
}

/// The first of the longest runs of zeros that start before `i`: where it
/// starts and how long it is.
pub open spec fn longest_run(g: Seq<u16>, i: int) -> (int, int)
    decreases i,
{
    if i <= 0 {
        (0, 0)
    } else {
        let best = longest_run(g, i - 1);
        let run = zero_run(g, i - 1);
        if run > best.1 {
            (i - 1, run)
        } else {
            best
        }
    }
}

/// Groups in hexadecimal with colons between them.
pub open spec fn joined(g: Seq<u16>) -> Seq<char>
    decreases g.len(),
{
    if g.len() == 0 {
        Seq::empty()
    } else if g.len() == 1 {
        hex(g[0] as nat)
    } else {
        joined(g.drop_last()) + seq![':'] + hex(g.last() as nat)
    }
}

/// The text of an address: an embedded IPv4 address in dotted decimal, else
/// groups in hexadecimal, the first longest run of two or more zeros as `::`.
pub open spec fn v6_text(a: Ipv6Addr) -> Seq<char> {
    let g = segments(a.bits as nat, 8);
    let run = longest_run(g, 8);
    if a.bits / 0x1_0000_0000 == 0xffff {
        "::ffff:"@ + addr::v4_text(Ipv4Addr { bits: (a.bits % 0x1_0000_0000) as u32 })
    } else if run.1 > 1 {
        joined(g.take(run.0)) + "::"@ + joined(g.skip(run.0 + run.1))
    } else {
        joined(g)
    }
}

fn push_joined(s: &mut String, g: &[u16], from: usize, to: usize)
    requires
        from <= to <= g@.len(),
    ensures
        final(s)@ == old(s)@ + joined(g@.subrange(from as int, to as int)),
{
    let mut i: usize = from;
    while i < to
        invariant
            from <= i <= to <= g@.len(),
            s@ == old(s)@ + joined(g@.subrange(from as int, i as int)),
        decreases to - i,
    {
        let ghost part = g@.subrange(from as int, i + 1);
        assert(part.drop_last() =~= g@.subrange(from as int, i as int));
        if i > from {
            s.push(':');
        }
        s.append(hex_of(g[i]).as_str());
        i = i + 1;
        assert(s@ =~= old(s)@ + joined(part));
    }
}

/// The hexadecimal number that all of `s` spells.
pub open spec fn hex_run(s: Seq<char>) -> Option<nat>
    decreases s.len(),
{
    if s.len() == 0 {
        Some(0)
    } else {
        match (hex_run(s.drop_last()), text::hex_value(s.last())) {
            (Some(v), Some(d)) => Some(v * 16 + d),
            _ => None,
        }
    }
}

/// A group: one to four hexadecimal digits.
pub open spec fn group_parsed(s: Seq<char>) -> Option<nat> {
    if 1 <= s.len() <= 4 {
        hex_run(s)
    } else {
        None
    }
}

proof fn hex_run_stops(s: Seq<char>, n: int)
    requires
        0 <= n < s.len(),
        text::hex_value(s[n]) is None,
    ensures
        hex_run(s) is None,
    decreases s.len(),
{
    if n < s.len() - 1 {
        hex_run_stops(s.drop_last(), n);
    }
}

fn parse_group(v: &[char], from: usize, to: usize) -> (r: Option<u16>)
    requires
        from <= to <= v@.len(),
    ensures
        match r {
            Some(n) => group_parsed(v@.subrange(from as int, to as int)) == Some(n as nat),
            None => group_parsed(v@.subrange(from as int, to as int)) is None,
        },
{
    let ghost s = v@.subrange(from as int, to as int);
    if to - from < 1 || to - from > 4 {
        return None;
    }
    let mut n: u32 = 0;
    let mut i: usize = from;
    while i < to
        invariant
            from <= i <= to <= v@.len(),
            s == v@.subrange(from as int, to as int),
            1 <= s.len() <= 4,
            i - from == 0 ==> n == 0,
            i - from <= 1 ==> n < 0x10,
            i - from <= 2 ==> n < 0x100,
            i - from <= 3 ==> n < 0x1000,
            n < 0x1_0000,
            hex_run(s.take(i - from)) == Some(n as nat),
        decreases to - i,
    {
        let ghost next = s.take(i - from + 1);
        assert(next.drop_last() =~= s.take(i - from));
        assert(next.last() == v@[i as int]);
        match text::hex_value_of(v[i]) {
            Some(d) => {
                n = n * 16 + d as u32;
            },
            None => {
                proof {
                    hex_run_stops(s, i - from);
                }
                return None;
            },
        }
        i = i + 1;
    }
    assert(s.take(i - from) =~= s);
    Some(n as u16)
}

/// Groups with colons between them; the last may be an IPv4 address, which is
/// two groups, where `v4` allows it. Nothing at all is no groups.
pub open spec fn groups_parsed(s: Seq<char>, v4: bool) -> Option<Seq<u16>>
    decreases s.len(),
{
    let i = addr::index_of(s, ':');
    if s.len() == 0 {
        Some(Seq::empty())
    } else if i >= s.len() {
        match (group_parsed(s), addr::v4_parsed(s)) {
            (Some(g), _) => Some(seq![g as u16]),
            (None, Some(a)) => if v4 {
                Some(seq![(a.bits / 0x1_0000) as u16, (a.bits % 0x1_0000) as u16])
            } else {
                None
            },
            (None, None) => None,
        }
    } else if i < 0 || i + 1 >= s.len() {
        None
    } else {
        match (group_parsed(s.take(i)), groups_parsed(s.skip(i + 1), v4)) {
            (Some(g), Some(rest)) => Some(seq![g as u16] + rest),
            _ => None,
        }
    }
}

fn parse_groups(v: &[char], from: usize, to: usize, v4: bool, acc: Vec<u16>) -> (r: Option<
    Vec<u16>,
>)
    requires
        from <= to <= v@.len(),
    ensures
        match (r, groups_parsed(v@.subrange(from as int, to as int), v4)) {
            (Some(all), Some(g)) => all@ == acc@ + g,
            (None, None) => true,
            _ => false,
        },
    decreases to - from,
{
    let ghost s = v@.subrange(from as int, to as int);
    let mut acc: Vec<u16> = acc;
    if from == to {
        assert(acc@ + Seq::<u16>::empty() =~= acc@);
        return Some(acc);
    }
    let i: usize = addr::find(v, from, to, ':');
    let ghost old_acc = acc@;
    if i == to {
        match parse_group(v, from, to) {
            Some(g) => {
                acc.push(g);
                assert(acc@ =~= old_acc + seq![g]);
                return Some(acc);
            },
            None => {},
        }
        if !v4 {
            return None;
        }
        match addr::parse_v4(v, from, to) {
            Some(a) => {
                acc.push((a.bits / 0x1_0000) as u16);
                acc.push((a.bits % 0x1_0000) as u16);
                assert(acc@ =~= old_acc + seq![
                    (a.bits / 0x1_0000) as u16,
                    (a.bits % 0x1_0000) as u16,
                ]);
                return Some(acc);
            },
            None => {
                return None;
            },
        }
    }
    if i + 1 >= to {
        return None;
    }
    assert(s.take(i - from) =~= v@.subrange(from as int, i as int));
    assert(s.skip(i - from + 1) =~= v@.subrange(i + 1, to as int));
    match parse_group(v, from, i) {
        Some(g) => {
            acc.push(g);
            let ghost rest = groups_parsed(v@.subrange(i + 1, to as int), v4);
            proof {
                if rest is Some {
                    assert(acc@ + rest->0 =~= old_acc + (seq![g] + rest->0));
                }
            }
            parse_groups(v, i + 1, to, v4, acc)
        },
        None => None,
    }
}

/// Where `::` first stands in `s`; the length where it does not.
pub open spec fn gap_of(s: Seq<char>) -> int
    decreases s.len(),
{
    if s.len() < 2 {
        s.len() as int
    } else if s[0] == ':' && s[1] == ':' {
        0
    } else {
        1 + gap_of(s.drop_first())
    }
}

proof fn gap_of_found(s: Seq<char>, n: int)
    requires
        0 <= n <= s.len(),
        forall|i: int| 0 <= i < n && i + 1 < s.len() ==> !(#[trigger] s[i] == ':' && s[i + 1] == ':'),
        n + 1 < s.len() ==> s[n] == ':' && s[n + 1] == ':',
        n + 1 != s.len(),
    ensures
        gap_of(s) == n,
    decreases s.len(),
{
    if s.len() >= 2 && n > 0 {
        assert(!(s[0] == ':' && s[1] == ':'));
        assert forall|i: int| 0 <= i < n - 1 && i + 1 < s.drop_first().len() implies !(
        #[trigger] s.drop_first()[i] == ':' && s.drop_first()[i + 1] == ':') by {
            assert(s.drop_first()[i] == s[i + 1]);
        }
        gap_of_found(s.drop_first(), n - 1);
    }
}

/// The address that `s` spells: eight groups, or fewer round one `::` that
/// stands for at least one group of zeros.
pub open spec fn v6_parsed(s: Seq<char>) -> Option<Ipv6Addr> {
    let gap = gap_of(s);
    if gap >= s.len() {
        match groups_parsed(s, true) {
            Some(g) => if g.len() == 8 {
                Some(Ipv6Addr { bits: groups_value(g) as u128 })
            } else {
                None
            },
            None => None,
        }
    } else {
        match (groups_parsed(s.take(gap), false), groups_parsed(s.skip(gap + 2), true)) {
            (Some(h), Some(t)) => if h.len() + t.len() <= 7 {
                let zeros = Seq::new((8 - h.len() - t.len()) as nat, |i: int| 0u16);
                Some(Ipv6Addr { bits: groups_value(h + zeros + t) as u128 })
            } else {
                None
            },
            _ => None,
        }
    }
}

fn value_of(g: &Vec<u16>) -> (n: u128)
    requires
        g@.len() == 8,
    ensures
        n == groups_value(g@),
{
    let mut n: u128 = 0;
    let mut i: usize = 0;
    while i < 8
        invariant
            i <= 8,
            g@.len() == 8,
            n == groups_value(g@.take(i as int)),
        decreases 8 - i,
    {
        proof {
            let next = g@.take(i + 1);
            assert(next.drop_last() =~= g@.take(i as int));
            groups_value_bound(next);
            bytes::pow256_mono((2 * (i + 1)) as nat, 16);
            bytes::pow256_16();
        }
        n = n * 0x1_0000 + g[i] as u128;
        i = i + 1;
    }
    assert(g@.take(8) =~= g@);
    n
}

impl Ipv6Addr {
    /// The sixteen octets.
    pub open spec fn octs(&self) -> Seq<u8> {
        bytes::be_bytes(self.bits as nat, 16)
    }

    /// Multicast: ff00::/8.
    pub open spec fn multicast(&self) -> bool {
        self.bits / 0x100_0000_0000_0000_0000_0000_0000_0000 == 0xff
    }

    /// Link-local unicast: fe80::/10.
    pub open spec fn link_local(&self) -> bool {
        self.bits / 0x40_0000_0000_0000_0000_0000_0000_0000 == 0x3fa
    }

    /// The address with these groups.
    pub fn new(a: u16, b: u16, c: u16, d: u16, e: u16, f: u16, g: u16, h: u16) -> (r: Ipv6Addr)
        ensures
            r.bits == groups_value(seq![a, b, c, d, e, f, g, h]),
    {
        let mut v: Vec<u16> = Vec::new();
        v.push(a);
        v.push(b);
        v.push(c);
        v.push(d);
        v.push(e);
        v.push(f);
        v.push(g);
        v.push(h);
        assert(v@ =~= seq![a, b, c, d, e, f, g, h]);
        Ipv6Addr { bits: value_of(&v) }
    }

    /// The address in the sixteen bytes of `v` from `at`.
    pub fn at(v: &[u8], at: usize) -> (r: Ipv6Addr)
        requires
            at + 16 <= v@.len(),
        ensures
            r == addr::v6_of(v@.subrange(at as int, at + 16)),
    {
        Ipv6Addr { bits: bytes::u128_at(v, at) }
    }

    /// The sixteen octets.
    pub fn octets(&self) -> (r: Vec<u8>)
        ensures
            r@ == self.octs(),
    {
        octets_of(self.bits, 16)
    }

    pub fn is_unspecified(&self) -> (r: bool)
        ensures
            r == (self.bits == 0),
    {
        self.bits == 0
    }

    pub fn is_loopback(&self) -> (r: bool)
        ensures
            r == (self.bits == 1),
    {
        self.bits == 1
    }

    pub fn is_multicast(&self) -> (r: bool)
        ensures
            r == self.multicast(),
    {
        self.bits / 0x100_0000_0000_0000_0000_0000_0000_0000 == 0xff
    }

    /// In fe80::/10.
    pub fn is_link_local(&self) -> (r: bool)
        ensures
            r == self.link_local(),
    {
        self.bits / 0x40_0000_0000_0000_0000_0000_0000_0000 == 0x3fa
    }

    /// The text of the address.
    pub fn to_text(&self) -> (s: String)
        ensures
            s@ == v6_text(*self),
    {
        if self.bits / 0x1_0000_0000 == 0xffff {
            let mut s: String = "::ffff:".to_owned();
            let inner: Ipv4Addr = Ipv4Addr { bits: (self.bits % 0x1_0000_0000) as u32 };
            s.append(inner.to_text().as_str());
            return s;
        }
        let g: Vec<u16> = segments_of(self.bits, 8);
        proof {
            segments_len(self.bits as nat, 8);
        }
        let mut best: usize = 0;
        let mut best_len: usize = 0;
        let mut i: usize = 0;
        while i < 8
            invariant
                i <= 8,
                g@.len() == 8,
                (best as int, best_len as int) == longest_run(g@, i as int),
                best + best_len <= 8,
            decreases 8 - i,
        {
            let mut end: usize = i;
            while end < 8 && g[end] == 0
                invariant
                    i <= end <= 8,
                    g@.len() == 8,
                    zero_run(g@, i as int) == end - i + zero_run(g@, end as int),
                decreases 8 - end,
            {
                end = end + 1;
            }
            assert(zero_run(g@, end as int) == 0);
            if end - i > best_len {
                best = i;
                best_len = end - i;
            }
            i = i + 1;
        }
        let mut s: String = String::new();
        if best_len > 1 {
            push_joined(&mut s, g.as_slice(), 0, best);
            s.append("::");
            push_joined(&mut s, g.as_slice(), best + best_len, 8);
            assert(g@.subrange(0, best as int) =~= g@.take(best as int));
            assert(g@.subrange(best + best_len, 8) =~= g@.skip(best + best_len));
            assert(s@ =~= v6_text(*self));
        } else {
            push_joined(&mut s, g.as_slice(), 0, 8);
            assert(g@.subrange(0, 8) =~= g@);
            assert(s@ =~= v6_text(*self));
        }
        s
    }

    /// Reads the text of an address.
    pub fn parse(s: &str) -> (r: Option<Ipv6Addr>)
        ensures
            r == v6_parsed(s@),
    {
        let v: Vec<char> = text::chars(s);
        let n: usize = v.len();
        let mut gap: usize = 0;
        let mut found: bool = false;
        while n >= 2 && gap < n - 1 && !found
            invariant
                n == v@.len(),
                gap <= n,
                forall|i: int|
                    0 <= i < gap && i + 1 < n ==> !(#[trigger] v@[i] == ':' && v@[i + 1] == ':'),
                found ==> gap + 1 < n && v@[gap as int] == ':' && v@[gap + 1] == ':',
            decreases n - gap + (if found {
                0int
            } else {
                1int
            }),
        {
            if v[gap] == ':' && v[gap + 1] == ':' {
                found = true;
            } else {
                gap = gap + 1;
            }
        }
        if !found {
            proof {
                gap_of_found(v@, n as int);
                assert(v@.subrange(0, n as int) =~= v@);
            }
            match parse_groups(v.as_slice(), 0, n, true, Vec::new()) {
                Some(g) => {
                    assert(groups_parsed(v@, true)->0 =~= g@);
                    if g.len() == 8 {
                        return Some(Ipv6Addr { bits: value_of(&g) });
                    }
                    return None;
                },
                None => {
                    return None;
                },
            }
        }
        proof {
            gap_of_found(v@, gap as int);
            assert(v@.subrange(0, gap as int) =~= v@.take(gap as int));
            assert(v@.subrange(gap + 2, n as int) =~= v@.skip(gap + 2));
        }
        let head: Option<Vec<u16>> = parse_groups(v.as_slice(), 0, gap, false, Vec::new());
        let tail: Option<Vec<u16>> = parse_groups(v.as_slice(), gap + 2, n, true, Vec::new());
        match (head, tail) {
            (Some(h), Some(t)) => {
                assert(groups_parsed(v@.take(gap as int), false)->0 =~= h@);
                assert(groups_parsed(v@.skip(gap + 2), true)->0 =~= t@);
                if h.len() > 7 || t.len() > 7 - h.len() {
                    return None;
                }
                let zeros: usize = 8 - h.len() - t.len();
                let ghost hs = h@;
                let mut all: Vec<u16> = h;
                let mut i: usize = 0;
                while i < zeros
                    invariant
                        i <= zeros,
                        all@ == hs + Seq::new(i as nat, |j: int| 0u16),
                    decreases zeros - i,
                {
                    all.push(0);
                    i = i + 1;
                    assert(all@ =~= hs + Seq::new(i as nat, |j: int| 0u16));
                }
                let mut t: Vec<u16> = t;
                all.append(&mut t);
                Some(Ipv6Addr { bits: value_of(&all) })
            },
            _ => None,
        }
    }
}

/// The text of an address of either family.
pub open spec fn ip_text(a: IpAddr) -> Seq<char> {
    match a {
        IpAddr::V4(a) => addr::v4_text(a),
        IpAddr::V6(a) => v6_text(a),
    }
}

/// The address of either family that `s` spells.
pub open spec fn ip_parsed(s: Seq<char>) -> Option<IpAddr> {
    match (addr::v4_parsed(s), v6_parsed(s)) {
        (Some(a), _) => Some(IpAddr::V4(a)),
        (None, Some(a)) => Some(IpAddr::V6(a)),
        (None, None) => None,
    }
}

impl IpAddr {
    /// In 127.0.0.0/8, or `::1`.
    pub open spec fn loopback(&self) -> bool {
        match self {
            IpAddr::V4(a) => a.bits / 0x100_0000 == 127,
            IpAddr::V6(a) => a.bits == 1,
        }
    }

    pub fn is_loopback(&self) -> (r: bool)
        ensures
            r == self.loopback(),
    {
        match self {
            IpAddr::V4(a) => a.is_loopback(),
            IpAddr::V6(a) => a.is_loopback(),
        }
    }

    pub fn is_ipv4(&self) -> (r: bool)
        ensures
            r == (self is V4),
    {
        match self {
            IpAddr::V4(_) => true,
            IpAddr::V6(_) => false,
        }
    }

    /// The text of the address.
    pub fn to_text(&self) -> (s: String)
        ensures
            s@ == ip_text(*self),
    {
        match self {
            IpAddr::V4(a) => a.to_text(),
            IpAddr::V6(a) => a.to_text(),
        }
    }

    /// Reads an address of either family.
    pub fn parse(s: &str) -> (r: Option<IpAddr>)
        ensures
            r == ip_parsed(s@),
    {
        match Ipv4Addr::parse(s) {
            Some(a) => Some(IpAddr::V4(a)),
            None => match Ipv6Addr::parse(s) {
                Some(a) => Some(IpAddr::V6(a)),
                None => None,
            },
        }
    }
}

} // verus!
