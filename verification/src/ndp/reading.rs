//! What lies where in an advertisement.

use vstd::prelude::*;
use crate::layout;
use crate::lists;
use super::packet;
use super::packet::{DnsslV, PrefixInfo, RdnssV, RouterAdvertV};

verus! {

// ---- options ----------------------------------------------------------------

/// Whether these bytes are one option: as many eights of them as its second byte
/// says, and at least one.
pub open spec fn whole(o: Seq<u8>) -> bool {
    o.len() >= 8 && o.len() == 8 * o[1]
}

proof fn one_more(b: Seq<u8>, o: Seq<u8>)
    requires
        whole(o),
    ensures
        packet::options_in(b + o) == (match packet::options_in(b) {
            Some(before) => Some(before.push(o)),
            None => packet::options_in(b + o),
        }),
    decreases b.len(),
{
    if b.len() == 0 {
        assert(b + o =~= o);
        assert(o.skip(8 * o[1]) =~= Seq::<u8>::empty());
        assert(o.take(8 * o[1]) =~= o);
        assert(packet::options_in(Seq::<u8>::empty()) == Some(Seq::<Seq<u8>>::empty()));
        assert(seq![o] + Seq::<Seq<u8>>::empty() =~= Seq::<Seq<u8>>::empty().push(o));
    } else if b.len() < 2 || b[1] == 0 || b.len() < 8 * b[1] {
    } else {
        let n = 8 * b[1];
        one_more(b.skip(n), o);
        assert((b + o).skip(n) =~= b.skip(n) + o);
        assert((b + o).take(n) =~= b.take(n));
        if let Some(rest) = packet::options_in(b.skip(n)) {
            assert(seq![b.take(n)] + rest.push(o) =~= (seq![b.take(n)] + rest).push(o));
        }
    }
}

/// Options follow one another, each as long as its second byte says in eights. One
/// that says nothing, or more than is there, makes the message unreadable.
pub proof fn options_follow_one_another(b: Seq<u8>, o: Seq<u8>)
    requires
        whole(o),
        packet::options_in(b) is Some,
    ensures
        packet::options_in(b + o) == Some(packet::options_in(b)->0.push(o)),
        packet::options_in(Seq::empty()) == Some(Seq::<Seq<u8>>::empty()),
{
    one_more(b, o);
}

/// See `options_follow_one_another`.
pub proof fn a_cut_option_makes_it_unreadable(b: Seq<u8>)
    requires
        b.len() == 1 || b.len() > 1 && (b[1] == 0 || b.len() < 8 * b[1]),
    ensures
        packet::options_in(b) is None,
{
}

// ---- the message ------------------------------------------------------------

proof fn fixed_stays(ra: RouterAdvertV, o: Seq<Seq<u8>>)
    ensures
        packet::with_options(ra, o).managed == ra.managed,
        packet::with_options(ra, o).other_config == ra.other_config,
        packet::with_options(ra, o).router_lifetime == ra.router_lifetime,
    decreases o.len(),
{
    if o.len() > 0 {
        fixed_stays(ra, o.drop_last());
    }
}

proof fn high_bits(x: u8)
    ensures
        x & 0x80 != 0 <==> x >= 0x80,
        x & 0x40 != 0 <==> x / 0x40 % 2 == 1,
{
    assert(x & 0x80 != 0 <==> x >= 0x80) by (bit_vector);
    assert(x & 0x40 != 0 <==> x / 0x40 % 2 == 1) by (bit_vector);
}

/// An advertisement is a message of type 134, code 0, of at least sixteen bytes, whose
/// options can be read. M and O are the two high bits of its byte 5, and how many
/// seconds its router is a default router lies in bytes 6 and 7.
pub proof fn an_advertisement_is_read_where_it_lies(b: Seq<u8>)
    ensures
        packet::decoded(b) is Some <==> b.len() >= 16 && b[0] == 134 && b[1] == 0
            && packet::options_in(b.skip(16)) is Some,
        packet::decoded(b) matches Some(ra) ==> {
            &&& ra.managed <==> b[5] & 0x80 != 0
            &&& ra.other_config <==> b[5] & 0x40 != 0
            &&& ra.router_lifetime == layout::two(b, 6)
        },
        b.len() == 16 ==> (packet::decoded(b) matches Some(ra) ==> ra.mtu is None
            && ra.prefixes.len() == 0 && ra.rdnss.len() == 0 && ra.dnssl.len() == 0),
{
    if b.len() >= 16 {
        high_bits(b[5]);
        layout::two_is(b, 6);
        if let Some(o) = packet::options_in(b.skip(16)) {
            fixed_stays(packet::fixed_part(b), o);
        }
        if b.len() == 16 {
            assert(b.skip(16) =~= Seq::<u8>::empty());
        }
    }
}

// ---- what an option adds ----------------------------------------------------

/// A prefix as its option spells it: its length in byte 2, L and A in the high bits
/// of byte 3, its lifetimes in bytes 4 to 12, itself in bytes 16 to 32.
pub open spec fn spells(o: Seq<u8>, p: PrefixInfo) -> bool {
    &&& p.length == o[2]
    &&& p.on_link <==> o[3] & 0x80 != 0
    &&& p.autonomous <==> o[3] & 0x40 != 0
    &&& p.valid == layout::four(o, 4)
    &&& p.preferred == layout::four(o, 8)
    &&& p.prefix.bits == layout::sixteen(o, 16)
}

/// Whether an option gives a prefix that may be used: not longer than an address,
/// neither multicast (`ff00::/8`) nor link-local (`fe80::/10`).
pub open spec fn gives_prefix(o: Seq<u8>) -> bool {
    &&& o.len() == 32 && o[2] <= 128
    &&& layout::sixteen(o, 16) / 0x100_0000_0000_0000_0000_0000_0000_0000 != 0xff
    &&& layout::sixteen(o, 16) / 0x40_0000_0000_0000_0000_0000_0000_0000 != 0x3fa
}

/// A prefix is read where it lies in its option.
pub proof fn a_prefix_is_read_where_it_lies(o: Seq<u8>)
    ensures
        packet::prefix_in(o) is Some <==> gives_prefix(o),
        packet::prefix_in(o) matches Some(p) ==> spells(o, p),
{
    if o.len() == 32 {
        high_bits(o[3]);
        layout::four_is(o, 4);
        layout::four_is(o, 8);
        layout::sixteen_is(o, 16);
    }
}

/// How many servers these lists name together.
pub open spec fn servers_named(r: Seq<RdnssV>) -> int
    decreases r.len(),
{
    if r.len() == 0 {
        0
    } else {
        servers_named(r.drop_last()) + r.last().servers.len()
    }
}

/// How many domains these lists name together.
pub open spec fn domains_named(d: Seq<DnsslV>) -> int
    decreases d.len(),
{
    if d.len() == 0 {
        0
    } else {
        domains_named(d.drop_last()) + d.last().domains.len()
    }
}

proof fn counted_servers(r: Seq<RdnssV>)
    ensures
        packet::server_count(r) == servers_named(r),
    decreases r.len(),
{
    if r.len() > 0 {
        counted_servers(r.drop_last());
    }
}

proof fn counted_domains(d: Seq<DnsslV>)
    ensures
        packet::domain_count(d) == domains_named(d),
    decreases d.len(),
{
    if d.len() > 0 {
        counted_domains(d.drop_last());
    }
}

/// The first so many of a list.
pub open spec fn first<T>(s: Seq<T>, n: int) -> Seq<T> {
    if s.len() <= n {
        s
    } else {
        s.take(n)
    }
}

/// What `after` has beyond `before` is what the option `o` says: a prefix (3) while
/// there are fewer than sixteen, an MTU (5), which replaces another, servers (25) or
/// domains (31) while fewer than sixteen are named together; anything else, and
/// what is malformed, says nothing.
pub open spec fn adds(before: RouterAdvertV, o: Seq<u8>, after: RouterAdvertV) -> bool {
    &&& after.managed == before.managed && after.other_config == before.other_config
    &&& after.router_lifetime == before.router_lifetime
    &&& after.mtu == if o[0] == 5 && o.len() == 8 {
        Some(layout::four(o, 4) as u32)
    } else {
        before.mtu
    }
    &&& if o[0] == 3 && gives_prefix(o) && before.prefixes.len() < 16 {
        &&& after.prefixes.len() == before.prefixes.len() + 1
        &&& after.prefixes.drop_last() == before.prefixes
        &&& spells(o, after.prefixes.last())
    } else {
        after.prefixes == before.prefixes
    }
    &&& if o[0] == 25 && o.len() >= 24 && o.len() % 16 == 8 && servers_named(before.rdnss) < 16 {
        after.rdnss == before.rdnss.push(
            RdnssV {
                lifetime: layout::four(o, 4) as u32,
                servers: first(lists::servers_in(o.skip(8)), 16 - servers_named(before.rdnss)),
            },
        )
    } else {
        after.rdnss == before.rdnss
    }
    &&& if o[0] == 31 && o.len() >= 16 && domains_named(before.dnssl) < 16 {
        after.dnssl == before.dnssl.push(
            DnsslV {
                lifetime: layout::four(o, 4) as u32,
                domains: first(
                    lists::domains_in(o.skip(8), 16),
                    16 - domains_named(before.dnssl),
                ),
            },
        )
    } else {
        after.dnssl == before.dnssl
    }
}

proof fn an_option_adds(ra: RouterAdvertV, o: Seq<u8>)
    requires
        whole(o),
    ensures
        adds(ra, o, packet::with_option(ra, o)),
{
    a_prefix_is_read_where_it_lies(o);
    counted_servers(ra.rdnss);
    counted_domains(ra.dnssl);
    layout::four_is(o, 4);
    let after = packet::with_option(ra, o);
    if o[0] == 3 && gives_prefix(o) && ra.prefixes.len() < 16 {
        assert(after.prefixes.drop_last() =~= ra.prefixes);
    }
    if o.len() >= 24 {
        assert((o.len() - 8) % 16 == 0 <==> o.len() % 16 == 8);
    }
}

/// One more option at the end of an advertisement adds what it says, and takes
/// nothing back.
pub proof fn an_option_adds_what_it_says(b: Seq<u8>, o: Seq<u8>)
    requires
        whole(o),
        packet::decoded(b) is Some,
    ensures
        packet::decoded(b + o) is Some,
        adds(packet::decoded(b)->0, o, packet::decoded(b + o)->0),
{
    let c = b + o;
    assert(c.skip(16) =~= b.skip(16) + o);
    one_more(b.skip(16), o);
    let before = packet::options_in(b.skip(16))->0;
    assert(before.push(o).drop_last() =~= before);
    assert(c.subrange(6, 8) =~= b.subrange(6, 8));
    assert(packet::fixed_part(c) == packet::fixed_part(b));
    an_option_adds(packet::decoded(b)->0, o);
}

/// A solicitation is of type 133, code 0, and carries the link-layer address, where
/// there is one, in an option of type 1 and one eight.
pub proof fn a_solicitation_says_who_asks(mac: Seq<u8>)
    ensures
        packet::solicitation(None) == seq![133u8, 0, 0, 0, 0, 0, 0, 0],
        packet::solicitation(Some(mac)) == seq![133u8, 0, 0, 0, 0, 0, 0, 0, 1, 1] + mac,
{
    assert(packet::solicitation(Some(mac)) =~= seq![133u8, 0, 0, 0, 0, 0, 0, 0, 1, 1] + mac);
}

} // verus!
