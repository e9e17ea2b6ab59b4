//! What the engine makes of an advertisement, and when it asks for one.

use vstd::prelude::*;
use vstd::utf8::*;
use crate::addr::Ipv6Addr;
use crate::bytes;
use crate::clock;
use crate::clock::Instant;
use crate::digest;
use crate::layout;
use crate::rng;
use super::engine;
use super::engine::{ActionV, DesiredAddress, EngineV, PrefixV, Prefixes};
use super::packet;
use super::packet::{DnsslV, PrefixInfo, RdnssV};
use super::reading;
use super::repeats;
use super::table;
use super::table::{Expiring, Names};

verus! {

/// Whether a lifetime is not over yet: it ends later, or never.
pub open spec fn lasting(t: Option<Instant>, now: Instant) -> bool {
    t matches Some(x) ==> x.nanos > now.nanos
}

/// When a lifetime of so many seconds ends; the largest number is never.
pub open spec fn after(now: Instant, seconds: u32, t: Option<Instant>) -> bool {
    match t {
        Some(x) => seconds != 0xffff_ffff && x.nanos == now.nanos + seconds * 1_000_000_000,
        None => seconds == 0xffff_ffff,
    }
}

proof fn after_is(now: Instant, seconds: u32, t: Option<Instant>)
    requires
        now.nanos <= clock::HORIZON,
    ensures
        after(now, seconds, t) <==> t == engine::until_time(now, seconds),
{
}

proof fn prefixes_leave_the_rest(e: EngineV, now: Instant, s: Seq<PrefixInfo>)
    ensures
        ({
            let f = e.with_prefixes(now, s);
            &&& f.routers == e.routers && f.rdnss == e.rdnss && f.dnssl == e.dnssl
            &&& f.mtu == e.mtu && f.dhcp6_wanted == e.dhcp6_wanted
            &&& f.solicit_at == e.solicit_at && f.interval == e.interval
            &&& f.solicits == e.solicits && f.mac == e.mac && f.seen == e.seen
        }),
    decreases s.len(),
{
    if s.len() > 0 {
        prefixes_leave_the_rest(e, now, s.drop_last());
    }
}

// ---- an advertisement -------------------------------------------------------

/// After an advertisement, DHCPv6 is wanted where it was, or where M or O is set;
/// the MTU is the one it gives, or the one that was.
pub proof fn an_advertisement_tells_of_the_link(
    e: EngineV,
    now: Instant,
    source: Ipv6Addr,
    body: Seq<u8>,
)
    requires
        packet::decoded(body) is Some,
    ensures
        ({
            let ra = packet::decoded(body)->0;
            let f = e.receive(now, source, body).0;
            &&& f.dhcp6_wanted == (e.dhcp6_wanted || ra.managed || ra.other_config)
            &&& f.dhcp6_wanted == (e.dhcp6_wanted || body[5] & 0x80 != 0 || body[5] & 0x40 != 0)
            &&& f.mtu == if ra.mtu is Some {
                ra.mtu
            } else {
                e.mtu
            }
        }),
{
    let ra = packet::decoded(body)->0;
    prefixes_leave_the_rest(e.with_router(now, source, ra), now, ra.prefixes);
    reading::an_advertisement_is_read_where_it_lies(body);
}

/// After an advertisement its sender is a default router for as many seconds as it
/// says, and none where it says zero; the other routers are as they were, but for
/// those whose time is over.
pub proof fn an_advertisement_tells_of_its_router(
    e: EngineV,
    now: Instant,
    source: Ipv6Addr,
    body: Seq<u8>,
    a: Ipv6Addr,
    t: Option<Instant>,
)
    requires
        e.wf(),
        now.nanos <= clock::HORIZON,
        packet::decoded(body) is Some,
    ensures
        ({
            let ra = packet::decoded(body)->0;
            let f = e.receive(now, source, body).0;
            f.routers.contains((a, t)) <==> if a == source {
                ra.router_lifetime > 0 && t is Some && t->0.nanos == now.nanos + ra.router_lifetime
                    * 1_000_000_000
            } else {
                e.routers.contains((a, t)) && lasting(t, now)
            }
        }),
{
    let ra = packet::decoded(body)->0;
    let b = e.with_router(now, source, ra);
    prefixes_leave_the_rest(b, now, ra.prefixes);
    let until = Some(Instant { nanos: (now.nanos + ra.router_lifetime * 1_000_000_000) as u64 });
    repeats::put_holds(e.routers, source, until, (a, t));
    repeats::without_holds(e.routers, source, (a, t));
    repeats::live_holds(b.routers, now, (a, t));
}

/// A router that answers ends the soliciting. One that is no default router leaves
/// it as it is, but where no router is left and none was being asked for, the
/// engine asks from now on.
pub proof fn a_router_ends_the_soliciting(
    e: EngineV,
    now: Instant,
    source: Ipv6Addr,
    body: Seq<u8>,
)
    requires
        e.wf(),
        now.nanos <= clock::HORIZON,
        packet::decoded(body) is Some,
    ensures
        ({
            let ra = packet::decoded(body)->0;
            let f = e.receive(now, source, body).0;
            if ra.router_lifetime > 0 {
                f.solicit_at is None
            } else if f.routers.len() == 0 && e.solicit_at is None {
                f.solicit_at == Some(now) && f.solicits == 0 && f.interval.nanos == 4_000_000_000
            } else {
                f.solicit_at == e.solicit_at && f.solicits == e.solicits && f.interval
                    == e.interval
            }
        }),
{
    let ra = packet::decoded(body)->0;
    prefixes_leave_the_rest(e.with_router(now, source, ra), now, ra.prefixes);
    if ra.router_lifetime > 0 {
        let t = Some(Instant { nanos: (now.nanos + ra.router_lifetime * 1_000_000_000) as u64 });
        an_advertisement_tells_of_its_router(e, now, source, body, source, t);
        assert(e.receive(now, source, body).0.routers.contains((source, t)));
    }
}

// ---- servers and domains ----------------------------------------------------

/// Whether one of these lists names this server.
pub open spec fn names_server(r: Seq<RdnssV>, a: Ipv6Addr) -> bool {
    exists|i: int| 0 <= i < r.len() && (#[trigger] r[i]).servers.contains(a)
}

proof fn list_taken(
    s: Expiring,
    now: Instant,
    lifetime: u32,
    servers: Seq<Ipv6Addr>,
    x: (Ipv6Addr, Option<Instant>),
)
    requires
        table::ordered(s),
    ensures
        table::ordered(engine::server_list_taken(s, now, lifetime, servers)),
        engine::server_list_taken(s, now, lifetime, servers).contains(x) <==> if servers.contains(
            x.0,
        ) {
            lifetime > 0 && x.1 == engine::until_time(now, lifetime)
        } else {
            s.contains(x)
        },
    decreases servers.len(),
{
    if servers.len() > 0 {
        let t = servers.drop_last();
        list_taken(s, now, lifetime, t, x);
        let before = engine::server_list_taken(s, now, lifetime, t);
        let k = servers.last();
        table::without_ordered(before, k);
        repeats::without_holds(before, k, x);
        table::put_ordered(before, k, engine::until_time(now, lifetime));
        repeats::put_holds(before, k, engine::until_time(now, lifetime), x);
        assert(servers.contains(x.0) <==> t.contains(x.0) || k == x.0) by {
            if t.contains(x.0) {
                let i = choose|i: int| 0 <= i < t.len() && t[i] == x.0;
                assert(servers[i] == x.0);
            }
            if k == x.0 {
                assert(servers[servers.len() - 1] == x.0);
            }
            if servers.contains(x.0) && k != x.0 {
                let i = choose|i: int| 0 <= i < servers.len() && servers[i] == x.0;
                assert(t[i] == x.0);
            }
        }
    }
}

proof fn lists_taken(
    s: Expiring,
    now: Instant,
    r: Seq<RdnssV>,
    x: (Ipv6Addr, Option<Instant>),
    i: int,
)
    requires
        table::ordered(s),
        0 <= i < r.len() && r[i].servers.contains(x.0) && (forall|j: int|
            i < j < r.len() ==> !(#[trigger] r[j]).servers.contains(x.0)) || !names_server(r, x.0),
    ensures
        table::ordered(engine::servers_taken(s, now, r)),
        engine::servers_taken(s, now, r).contains(x) <==> if names_server(r, x.0) {
            r[i].lifetime > 0 && x.1 == engine::until_time(now, r[i].lifetime)
        } else {
            s.contains(x)
        },
    decreases r.len(),
{
    if r.len() > 0 {
        let t = r.drop_last();
        let n = r.len() - 1;
        let last = r.last();
        assert(r[n] == last);
        if !names_server(r, x.0) {
            assert(!last.servers.contains(x.0));
            assert(!names_server(t, x.0)) by {
                if names_server(t, x.0) {
                    let j = choose|j: int|
                        0 <= j < t.len() && (#[trigger] t[j]).servers.contains(x.0);
                    assert(r[j].servers.contains(x.0));
                }
            }
            lists_taken(s, now, t, x, i);
        } else if i == n {
            let j = if names_server(t, x.0) {
                last_naming(t, x.0)
            } else {
                0
            };
            lists_taken(s, now, t, x, j);
        } else {
            assert(t[i] == r[i]);
            assert forall|j: int| i < j < t.len() implies !(#[trigger] t[j]).servers.contains(
                x.0,
            ) by {
                assert(t[j] == r[j]);
            }
            lists_taken(s, now, t, x, i);
        }
        list_taken(engine::servers_taken(s, now, t), now, last.lifetime, last.servers, x);
    }
}

proof fn last_naming(r: Seq<RdnssV>, a: Ipv6Addr) -> (i: int)
    requires
        names_server(r, a),
    ensures
        0 <= i < r.len(),
        r[i].servers.contains(a),
        forall|j: int| i < j < r.len() ==> !(#[trigger] r[j]).servers.contains(a),
    decreases r.len(),
{
    let n = r.len() - 1;
    if r[n].servers.contains(a) {
        n
    } else {
        let t = r.drop_last();
        let k = choose|k: int| 0 <= k < r.len() && (#[trigger] r[k]).servers.contains(a);
        assert(t[k] == r[k]);
        let i = last_naming(t, a);
        assert forall|j: int| i < j < r.len() implies !(#[trigger] r[j]).servers.contains(a) by {
            if j < n {
                assert(t[j] == r[j]);
            }
        }
        i
    }
}

/// A server that an advertisement names is held for as many seconds as its last list
/// to name it says, forever with the largest number, and not at all with zero. One
/// that it does not name stays as it was, until its time is over.
pub proof fn an_advertisement_tells_of_servers(
    e: EngineV,
    now: Instant,
    source: Ipv6Addr,
    body: Seq<u8>,
    i: int,
    a: Ipv6Addr,
    t: Option<Instant>,
)
    requires
        e.wf(),
        now.nanos <= clock::HORIZON,
        packet::decoded(body) is Some,
    ensures
        ({
            let r = packet::decoded(body)->0.rdnss;
            let f = e.receive(now, source, body).0;
            &&& 0 <= i < r.len() && r[i].servers.contains(a) && (forall|j: int|
                i < j < r.len() ==> !(#[trigger] r[j]).servers.contains(a)) ==> (
            f.rdnss.contains((a, t)) <==> r[i].lifetime > 0 && after(now, r[i].lifetime, t))
            &&& (forall|j: int| 0 <= j < r.len() ==> !(#[trigger] r[j]).servers.contains(a)) ==> (
            f.rdnss.contains((a, t)) <==> e.rdnss.contains((a, t)) && lasting(t, now))
        }),
{
    let ra = packet::decoded(body)->0;
    let r = ra.rdnss;
    prefixes_leave_the_rest(e.with_router(now, source, ra), now, ra.prefixes);
    repeats::live_holds(engine::servers_taken(e.rdnss, now, r), now, (a, t));
    if 0 <= i < r.len() && r[i].servers.contains(a) && (forall|j: int|
        i < j < r.len() ==> !(#[trigger] r[j]).servers.contains(a)) {
        assert(names_server(r, a));
        lists_taken(e.rdnss, now, r, (a, t), i);
        after_is(now, r[i].lifetime, t);
    }
    if forall|j: int| 0 <= j < r.len() ==> !(#[trigger] r[j]).servers.contains(a) {
        assert(!names_server(r, a));
        lists_taken(e.rdnss, now, r, (a, t), 0);
    }
}

/// Whether one of these lists names this domain.
pub open spec fn names_domain(d: Seq<DnsslV>, a: Seq<char>) -> bool {
    exists|i: int| 0 <= i < d.len() && (#[trigger] d[i]).domains.contains(a)
}

proof fn name_list_taken(
    s: Names,
    now: Instant,
    lifetime: u32,
    domains: Seq<Seq<char>>,
    x: (Seq<char>, Option<Instant>),
)
    requires
        table::names_ordered(s),
    ensures
        table::names_ordered(engine::domain_list_taken(s, now, lifetime, domains)),
        engine::domain_list_taken(s, now, lifetime, domains).contains(x) <==> if domains.contains(
            x.0,
        ) {
            lifetime > 0 && x.1 == engine::until_time(now, lifetime)
        } else {
            s.contains(x)
        },
    decreases domains.len(),
{
    if domains.len() > 0 {
        let t = domains.drop_last();
        name_list_taken(s, now, lifetime, t, x);
        let before = engine::domain_list_taken(s, now, lifetime, t);
        let k = domains.last();
        table::name_without_ordered(before, k);
        repeats::name_without_holds(before, k, x);
        table::name_put_ordered(before, k, engine::until_time(now, lifetime));
        repeats::name_put_holds(before, k, engine::until_time(now, lifetime), x);
        assert(domains.contains(x.0) <==> t.contains(x.0) || k == x.0) by {
            if t.contains(x.0) {
                let i = choose|i: int| 0 <= i < t.len() && t[i] == x.0;
                assert(domains[i] == x.0);
            }
            if k == x.0 {
                assert(domains[domains.len() - 1] == x.0);
            }
            if domains.contains(x.0) && k != x.0 {
                let i = choose|i: int| 0 <= i < domains.len() && domains[i] == x.0;
                assert(t[i] == x.0);
            }
        }
    }
}

proof fn name_lists_taken(
    s: Names,
    now: Instant,
    d: Seq<DnsslV>,
    x: (Seq<char>, Option<Instant>),
    i: int,
)
    requires
        table::names_ordered(s),
        0 <= i < d.len() && d[i].domains.contains(x.0) && (forall|j: int|
            i < j < d.len() ==> !(#[trigger] d[j]).domains.contains(x.0)) || !names_domain(d, x.0),
    ensures
        table::names_ordered(engine::domains_taken(s, now, d)),
        engine::domains_taken(s, now, d).contains(x) <==> if names_domain(d, x.0) {
            d[i].lifetime > 0 && x.1 == engine::until_time(now, d[i].lifetime)
        } else {
            s.contains(x)
        },
    decreases d.len(),
{
    if d.len() > 0 {
        let t = d.drop_last();
        let n = d.len() - 1;
        let last = d.last();
        assert(d[n] == last);
        if !names_domain(d, x.0) {
            assert(!last.domains.contains(x.0));
            assert(!names_domain(t, x.0)) by {
                if names_domain(t, x.0) {
                    let j = choose|j: int|
                        0 <= j < t.len() && (#[trigger] t[j]).domains.contains(x.0);
                    assert(d[j].domains.contains(x.0));
                }
            }
            name_lists_taken(s, now, t, x, i);
        } else if i == n {
            let j = if names_domain(t, x.0) {
                last_naming_domain(t, x.0)
            } else {
                0
            };
            name_lists_taken(s, now, t, x, j);
        } else {
            assert(t[i] == d[i]);
            assert forall|j: int| i < j < t.len() implies !(#[trigger] t[j]).domains.contains(
                x.0,
            ) by {
                assert(t[j] == d[j]);
            }
            name_lists_taken(s, now, t, x, i);
        }
        name_list_taken(engine::domains_taken(s, now, t), now, last.lifetime, last.domains, x);
    }
}

proof fn last_naming_domain(d: Seq<DnsslV>, a: Seq<char>) -> (i: int)
    requires
        names_domain(d, a),
    ensures
        0 <= i < d.len(),
        d[i].domains.contains(a),
        forall|j: int| i < j < d.len() ==> !(#[trigger] d[j]).domains.contains(a),
    decreases d.len(),
{
    let n = d.len() - 1;
    if d[n].domains.contains(a) {
        n
    } else {
        let t = d.drop_last();
        let k = choose|k: int| 0 <= k < d.len() && (#[trigger] d[k]).domains.contains(a);
        assert(t[k] == d[k]);
        let i = last_naming_domain(t, a);
        assert forall|j: int| i < j < d.len() implies !(#[trigger] d[j]).domains.contains(a) by {
            if j < n {
                assert(t[j] == d[j]);
            }
        }
        i
    }
}

/// A domain that an advertisement names is held for as many seconds as its last list
/// to name it says, forever with the largest number, and not at all with zero. One
/// that it does not name stays as it was, until its time is over.
pub proof fn an_advertisement_tells_of_domains(
    e: EngineV,
    now: Instant,
    source: Ipv6Addr,
    body: Seq<u8>,
    i: int,
    a: Seq<char>,
    t: Option<Instant>,
)
    requires
        e.wf(),
        now.nanos <= clock::HORIZON,
        packet::decoded(body) is Some,
    ensures
        ({
            let d = packet::decoded(body)->0.dnssl;
            let f = e.receive(now, source, body).0;
            &&& 0 <= i < d.len() && d[i].domains.contains(a) && (forall|j: int|
                i < j < d.len() ==> !(#[trigger] d[j]).domains.contains(a)) ==> (
            f.dnssl.contains((a, t)) <==> d[i].lifetime > 0 && after(now, d[i].lifetime, t))
            &&& (forall|j: int| 0 <= j < d.len() ==> !(#[trigger] d[j]).domains.contains(a)) ==> (
            f.dnssl.contains((a, t)) <==> e.dnssl.contains((a, t)) && lasting(t, now))
        }),
{
    let ra = packet::decoded(body)->0;
    let d = ra.dnssl;
    prefixes_leave_the_rest(e.with_router(now, source, ra), now, ra.prefixes);
    repeats::live_names_hold(engine::domains_taken(e.dnssl, now, d), now, (a, t));
    if 0 <= i < d.len() && d[i].domains.contains(a) && (forall|j: int|
        i < j < d.len() ==> !(#[trigger] d[j]).domains.contains(a)) {
        assert(names_domain(d, a));
        name_lists_taken(e.dnssl, now, d, (a, t), i);
        after_is(now, d[i].lifetime, t);
    }
    if forall|j: int| 0 <= j < d.len() ==> !(#[trigger] d[j]).domains.contains(a) {
        assert(!names_domain(d, a));
        name_lists_taken(e.dnssl, now, d, (a, t), 0);
    }
}

// ---- what can be seen -------------------------------------------------------

/// What can be seen of routers, servers and domains is what is held and not over:
/// the router with the lowest address, every server, every domain.
pub proof fn what_is_held_can_be_seen(e: EngineV, now: Instant)
    requires
        e.wf(),
    ensures
        match e.sight(now).router {
            Some(a) => {
                &&& exists|i: int|
                    0 <= i < e.routers.len() && (#[trigger] e.routers[i]).0 == a && lasting(
                        e.routers[i].1,
                        now,
                    )
                &&& forall|i: int|
                    0 <= i < e.routers.len() && lasting((#[trigger] e.routers[i]).1, now) ==> a.bits
                        <= e.routers[i].0.bits
            },
            None => forall|i: int|
                0 <= i < e.routers.len() ==> !lasting((#[trigger] e.routers[i]).1, now),
        },
        e.sight(now).mtu == e.mtu,
        e.sight(now).dhcp6 == e.dhcp6_wanted,
{
    first_is_lowest(e.routers, now);
}

proof fn first_is_lowest(s: Expiring, now: Instant)
    requires
        table::ordered(s),
    ensures
        match table::first_live(s, now) {
            Some(a) => {
                &&& exists|i: int|
                    0 <= i < s.len() && (#[trigger] s[i]).0 == a && lasting(s[i].1, now)
                &&& forall|i: int|
                    0 <= i < s.len() && lasting((#[trigger] s[i]).1, now) ==> a.bits
                        <= s[i].0.bits
            },
            None => forall|i: int| 0 <= i < s.len() ==> !lasting((#[trigger] s[i]).1, now),
        },
    decreases s.len(),
{
    if s.len() > 0 {
        let t = s.drop_first();
        assert forall|i: int, j: int| 0 <= i < j < t.len() implies (#[trigger] t[i]).0.bits < (
        #[trigger] t[j]).0.bits by {
            assert(s[i + 1].0.bits < s[j + 1].0.bits);
        }
        first_is_lowest(t, now);
        if lasting(s[0].1, now) {
            assert forall|i: int| 0 <= i < s.len() && lasting((#[trigger] s[i]).1, now) implies s[0].0.bits
                <= s[i].0.bits by {}
        } else {
            if let Some(a) = table::first_live(t, now) {
                let k = choose|k: int|
                    0 <= k < t.len() && (#[trigger] t[k]).0 == a && lasting(t[k].1, now);
                assert(s[k + 1] == t[k]);
            }
            assert forall|i: int| 0 <= i < s.len() && lasting((#[trigger] s[i]).1, now) implies
            i > 0 && t[i - 1] == s[i] by {}
        }
    }
}

/// A server is seen exactly where it is held and not over; likewise a domain.
pub proof fn what_is_over_is_not_seen(e: EngineV, now: Instant, a: Ipv6Addr, d: Seq<char>)
    ensures
        e.sight(now).dns.contains(a) <==> exists|t: Option<Instant>|
            #[trigger] e.rdnss.contains((a, t)) && lasting(t, now),
        e.sight(now).search.contains(d) <==> exists|t: Option<Instant>|
            #[trigger] e.dnssl.contains((d, t)) && lasting(t, now),
{
    let l = table::live(e.rdnss, now);
    let keys = table::live_keys(e.rdnss, now);
    if keys.contains(a) {
        let i = choose|i: int| 0 <= i < keys.len() && keys[i] == a;
        assert(l[i] == (a, l[i].1));
        assert(l.contains((a, l[i].1)));
        repeats::live_holds(e.rdnss, now, (a, l[i].1));
    }
    if exists|t: Option<Instant>| #[trigger] e.rdnss.contains((a, t)) && lasting(t, now) {
        let t = choose|t: Option<Instant>|
            #[trigger] e.rdnss.contains((a, t)) && lasting(t, now);
        repeats::live_holds(e.rdnss, now, (a, t));
        let i = choose|i: int| 0 <= i < l.len() && l[i] == (a, t);
        assert(keys[i] == a);
    }
    let ln = table::live_names(e.dnssl, now);
    let texts = table::live_texts(e.dnssl, now);
    if texts.contains(d) {
        let i = choose|i: int| 0 <= i < texts.len() && texts[i] == d;
        assert(ln[i] == (d, ln[i].1));
        assert(ln.contains((d, ln[i].1)));
        repeats::live_names_hold(e.dnssl, now, (d, ln[i].1));
    }
    if exists|t: Option<Instant>| #[trigger] e.dnssl.contains((d, t)) && lasting(t, now) {
        let t = choose|t: Option<Instant>|
            #[trigger] e.dnssl.contains((d, t)) && lasting(t, now);
        repeats::live_names_hold(e.dnssl, now, (d, t));
        let i = choose|i: int| 0 <= i < ln.len() && ln[i] == (d, t);
        assert(texts[i] == d);
    }
}

/// Whether an address is wanted of this prefix: its stable one, deprecated once the
/// prefix is no longer preferred, or a temporary one that is still valid, deprecated
/// once it or the prefix is no longer preferred.
pub open spec fn wanted_of(p: PrefixV, x: DesiredAddress, now: Instant) -> bool {
    &&& lasting(p.valid_until, now)
    &&& x.prefix == 64 && x.on_link == p.on_link
    &&& {
        ||| x.address == p.stable && x.deprecated == !lasting(p.preferred_until, now)
        ||| exists|k: int|
            0 <= k < p.temps.len() && (#[trigger] p.temps[k]).address == x.address
                && p.temps[k].valid_until.nanos > now.nanos && x.deprecated == (!lasting(
                p.preferred_until,
                now,
            ) || p.temps[k].preferred_until.nanos <= now.nanos)
    }
}

proof fn placed_holds(s: Seq<DesiredAddress>, x: DesiredAddress, y: DesiredAddress)
    ensures
        engine::placed(s, x).contains(y) <==> s.contains(y) || y == x,
{
    engine::rank_bound(s, x);
    let n = engine::rank(s, x);
    let t = engine::placed(s, x);
    assert(t[n] == x);
    if s.contains(y) {
        let i = choose|i: int| 0 <= i < s.len() && s[i] == y;
        if i < n {
            assert(t[i] == y);
        } else {
            assert(t[i + 1] == y);
        }
    }
    if t.contains(y) {
        let i = choose|i: int| 0 <= i < t.len() && t[i] == y;
        if i < n {
            assert(s[i] == y);
        } else if i > n {
            assert(s[i - 1] == y);
        }
    }
}

spec fn temp_of(p: PrefixV, n: int, x: DesiredAddress, now: Instant) -> bool {
    exists|k: int|
        0 <= k < n && (#[trigger] p.temps[k]).valid_until.nanos > now.nanos && x
            == engine::temp_wanted(p, p.temps[k], now)
}

proof fn temps_hold(
    acc: Seq<DesiredAddress>,
    p: PrefixV,
    n: nat,
    now: Instant,
    x: DesiredAddress,
)
    requires
        n <= p.temps.len(),
    ensures
        engine::temps_placed(acc, p, n, now).contains(x) <==> acc.contains(x) || temp_of(
            p,
            n as int,
            x,
            now,
        ),
    decreases n,
{
    if n > 0 {
        let m = (n - 1) as nat;
        temps_hold(acc, p, m, now, x);
        let t = p.temps[n - 1];
        placed_holds(
            engine::temps_placed(acc, p, m, now),
            engine::temp_wanted(p, t, now),
            x,
        );
        if temp_of(p, m as int, x, now) {
            let k = choose|k: int|
                0 <= k < m && (#[trigger] p.temps[k]).valid_until.nanos > now.nanos && x
                    == engine::temp_wanted(p, p.temps[k], now);
            assert(temp_of(p, n as int, x, now));
        }
        if temp_of(p, n as int, x, now) {
            let k = choose|k: int|
                0 <= k < n && (#[trigger] p.temps[k]).valid_until.nanos > now.nanos && x
                    == engine::temp_wanted(p, p.temps[k], now);
            if k < m {
                assert(temp_of(p, m as int, x, now));
            }
        }
        if t.valid_until.nanos > now.nanos && x == engine::temp_wanted(p, t, now) {
            assert(p.temps[n - 1] == t);
            assert(temp_of(p, n as int, x, now));
        }
    }
}

proof fn of_a_prefix(p: PrefixV, x: DesiredAddress, now: Instant)
    ensures
        wanted_of(p, x, now) <==> table::ahead(p.valid_until, now) && (x == engine::stable_wanted(
            p,
            now,
        ) || temp_of(p, p.temps.len() as int, x, now)),
{
    if temp_of(p, p.temps.len() as int, x, now) {
        let k = choose|k: int|
            0 <= k < p.temps.len() && (#[trigger] p.temps[k]).valid_until.nanos > now.nanos && x
                == engine::temp_wanted(p, p.temps[k], now);
        assert(p.temps[k].address == x.address);
    }
    if wanted_of(p, x, now) && x != engine::stable_wanted(p, now) {
        let k = choose|k: int|
            0 <= k < p.temps.len() && (#[trigger] p.temps[k]).address == x.address
                && p.temps[k].valid_until.nanos > now.nanos && x.deprecated == (!lasting(
                p.preferred_until,
                now,
            ) || p.temps[k].preferred_until.nanos <= now.nanos);
        assert(x == engine::temp_wanted(p, p.temps[k], now));
    }
}

proof fn wanted_holds(s: Prefixes, now: Instant, x: DesiredAddress)
    ensures
        engine::wanted(s, now).contains(x) <==> exists|j: int|
            0 <= j < s.len() && wanted_of((#[trigger] s[j]).1, x, now),
    decreases s.len(),
{
    if s.len() > 0 {
        let t = s.drop_last();
        let n = s.len() - 1;
        wanted_holds(t, now, x);
        let p = s.last().1;
        assert(s[n] == s.last());
        let before = engine::wanted(t, now);
        of_a_prefix(p, x, now);
        placed_holds(before, engine::stable_wanted(p, now), x);
        temps_hold(
            engine::placed(before, engine::stable_wanted(p, now)),
            p,
            p.temps.len(),
            now,
            x,
        );
        if before.contains(x) {
            let j = choose|j: int| 0 <= j < t.len() && wanted_of((#[trigger] t[j]).1, x, now);
            assert(wanted_of(s[j].1, x, now));
        }
        if wanted_of(p, x, now) {
            assert(wanted_of(s[n].1, x, now));
        }
        if exists|j: int| 0 <= j < s.len() && wanted_of((#[trigger] s[j]).1, x, now) {
            let j = choose|j: int| 0 <= j < s.len() && wanted_of((#[trigger] s[j]).1, x, now);
            if j < n {
                assert(t[j] == s[j]);
            }
        }
    }
}

/// The addresses to carry are exactly those of the prefixes that are still valid.
pub proof fn addresses_are_those_of_valid_prefixes(e: EngineV, now: Instant, x: DesiredAddress)
    ensures
        e.sight(now).addresses.contains(x) <==> exists|j: int|
            0 <= j < e.prefixes.len() && wanted_of((#[trigger] e.prefixes[j]).1, x, now),
{
    wanted_holds(e.prefixes, now, x);
}

// ---- the addresses that are formed ------------------------------------------

/// What is hashed at a try for a stable identifier: a label, the secret, the upper
/// half of the prefix, the interface's identity, and the number of the try.
pub open spec fn hashed(secret: Seq<u8>, prefix: Ipv6Addr, interface: Seq<char>, n: u8) -> Seq<u8> {
    let upper = prefix.bits as int / 0x1_0000_0000_0000_0000;
    encode_utf8("peios-ndp-stable-iid|"@) + secret + layout::in_four(upper / 0x1_0000_0000)
        + layout::in_four(upper) + encode_utf8(interface) + seq![n]
}

/// The identifiers that must not be formed.
pub open spec fn forbidden(iid: int) -> bool {
    ||| iid == 0
    ||| 0x0200_5eff_fe00_0000 <= iid <= 0x0200_5eff_feff_ffff
    ||| 0xfdff_ffff_ffff_ff80 <= iid <= 0xfdff_ffff_ffff_ffff
}

proof fn in_eight(n: nat)
    ensures
        bytes::be_bytes(n, 8) == layout::in_four(n as int / 0x1_0000_0000) + layout::in_four(
            n as int,
        ),
{
    reveal_with_fuel(bytes::be_bytes, 9);
    let m = n / 0x1_0000_0000;
    assert(n / 256 / 256 == n / 0x1_0000);
    assert(n / 256 / 256 / 256 == n / 0x100_0000);
    assert(n / 256 / 256 / 256 / 256 == m);
    assert(m / 256 / 256 == m / 0x1_0000);
    assert(m / 256 / 256 / 256 == m / 0x100_0000);
    assert(bytes::be_bytes(n, 8) =~= layout::in_four(m as int) + layout::in_four(n as int));
}

proof fn eight_is(d: Seq<u8>)
    requires
        d.len() == 20,
    ensures
        bytes::be_nat(d.take(8)) == layout::four(d, 0) * 0x1_0000_0000 + layout::four(d, 4),
        0 <= layout::four(d, 0) < 0x1_0000_0000,
        0 <= layout::four(d, 4) < 0x1_0000_0000,
{
    layout::four_is(d, 0);
    layout::four_is(d, 4);
    reveal_with_fuel(bytes::be_nat, 9);
    let t = d.take(8);
    assert(t.drop_last().drop_last().drop_last().drop_last() =~= d.subrange(0, 4));
}

/// The stable identifier is what the first eight bytes of the first of eight digests
/// spell that must not be avoided; one, where all must be.
pub proof fn the_stable_identifier_is_the_first_allowed(
    secret: Seq<u8>,
    prefix: Ipv6Addr,
    interface: Seq<char>,
    n: u8,
)
    ensures
        ({
            let d = digest::sha1_of(hashed(secret, prefix, interface, n));
            let iid = layout::four(d, 0) * 0x1_0000_0000 + layout::four(d, 4);
            &&& n < 8 && d.len() == 20 ==> engine::stable_iid(secret, prefix, interface, n as nat)
                == if forbidden(iid) {
                engine::stable_iid(secret, prefix, interface, n as nat + 1) as int
            } else {
                iid
            }
            &&& engine::stable_iid(secret, prefix, interface, 8) == 1
        }),
{
    in_eight(prefix.bits as nat / engine::half());
    let i = engine::stable_input(secret, prefix, interface, n as nat);
    assert(i =~= hashed(secret, prefix, interface, n));
    let d = digest::sha1_of(i);
    if d.len() == 20 {
        eight_is(d);
    }
}

/// A new stable address lies in the /64 of its prefix, with the stable identifier in
/// its lower half.
pub proof fn the_stable_address_joins_prefix_and_identifier(
    secret: Seq<u8>,
    prefix: Ipv6Addr,
    interface: Seq<char>,
)
    ensures
        ({
            let a = engine::stable_of(secret, prefix, interface).bits as int;
            &&& a / 0x1_0000_0000_0000_0000 == prefix.bits as int / 0x1_0000_0000_0000_0000
            &&& a % 0x1_0000_0000_0000_0000 == engine::stable_iid(secret, prefix, interface, 0)
        }),
{
    engine::joined_facts(prefix, engine::stable_iid(secret, prefix, interface, 0));
}

/// A new temporary address is preferred for a day, less up to ten minutes, and valid
/// for two, but for neither longer than its prefix.
pub proof fn a_temporary_address_lasts_a_day_or_two(
    rng: u64,
    now: Instant,
    prefix: Ipv6Addr,
    p: PrefixV,
)
    requires
        now.nanos <= clock::HORIZON,
    ensures
        ({
            let t = engine::new_temp_of(rng, now, prefix, p).0;
            let day = now.nanos + 86_400_000_000_000;
            let two = now.nanos + 172_800_000_000_000;
            &&& t.preferred_until.nanos <= day
            &&& p.preferred_until matches Some(l) ==> t.preferred_until.nanos <= l.nanos
            &&& t.preferred_until.nanos > day - 600_000_000_000 || p.preferred_until == Some(
                t.preferred_until,
            )
            &&& match p.valid_until {
                Some(l) => t.valid_until.nanos == if l.nanos < two {
                    l.nanos as int
                } else {
                    two
                },
                None => t.valid_until.nanos == two,
            }
        }),
{
}

// ---- soliciting -------------------------------------------------------------

/// Whether no router is left.
pub open spec fn none_left(e: EngineV, now: Instant) -> bool {
    forall|i: int| 0 <= i < e.routers.len() ==> !lasting((#[trigger] e.routers[i]).1, now)
}

/// A solicitation as it is sent.
pub open spec fn asking(mac: Option<Seq<u8>>) -> Seq<u8> {
    match mac {
        Some(m) => seq![133u8, 0, 0, 0, 0, 0, 0, 0, 1, 1] + m,
        None => seq![133u8, 0, 0, 0, 0, 0, 0, 0],
    }
}

/// One solicitation was sent and the next is set: after the interval, a tenth more or
/// less. The interval is that of before; from the third on it doubles, up to an
/// hour.
pub open spec fn asked(
    f: EngineV,
    actions: Seq<ActionV>,
    now: Instant,
    mac: Option<Seq<u8>>,
    sent: int,
    interval: int,
) -> bool {
    let next = if sent + 1 < 3 {
        interval
    } else if 2 * interval < 3600_000_000_000 {
        2 * interval
    } else {
        3600_000_000_000
    };
    let ms = next / 1_000_000;
    &&& actions.len() >= 1 && actions[0] == ActionV::Solicit(asking(mac))
    &&& forall|i: int| 1 <= i < actions.len() ==> #[trigger] actions[i] is Changed
    &&& f.interval.nanos == next
    &&& f.solicit_at matches Some(at) && now.nanos + (ms - ms / 10) * 1_000_000 <= at.nanos
        <= now.nanos + (ms - ms / 10 + ms / 5) * 1_000_000
    &&& f.solicits == if sent < u32::MAX {
        sent + 1
    } else {
        sent
    }
}

proof fn nobody_left(s: Expiring, now: Instant)
    ensures
        table::live(s, now).len() == 0 <==> forall|i: int|
            0 <= i < s.len() ==> !lasting((#[trigger] s[i]).1, now),
    decreases s.len(),
{
    if s.len() > 0 {
        let t = s.drop_last();
        nobody_left(t, now);
        assert(s[s.len() - 1] == s.last());
        if table::live(s, now).len() == 0 {
            assert forall|i: int| 0 <= i < s.len() implies !lasting((#[trigger] s[i]).1, now) by {
                if i < t.len() {
                    assert(t[i] == s[i]);
                }
            }
        }
        if forall|i: int| 0 <= i < s.len() ==> !lasting((#[trigger] s[i]).1, now) {
            assert forall|i: int| 0 <= i < t.len() implies !lasting((#[trigger] t[i]).1, now) by {
                assert(t[i] == s[i]);
            }
        }
    }
}

proof fn due_is_asked(e: EngineV, now: Instant)
    requires
        e.solicit_at matches Some(at) && at.nanos <= now.nanos,
        4_000_000_000 <= e.interval.nanos <= 3600_000_000_000,
        now.nanos <= clock::HORIZON,
    ensures
        ({
            let (g, sent) = e.solicit_if_due(now);
            let (f, actions) = g.shown(now, sent);
            asked(f, actions, now, e.mac, e.solicits as int, e.interval.nanos as int)
        }),
{
    let next = e.next_interval();
    let ms = next.nanos as int / 1_000_000;
    let r = rng::stirred(e.rng) as int;
    let m = ms / 5 + 1;
    assert(0 <= r % m < m) by (nonlinear_arith)
        requires
            m > 0,
    ;
    assert(EngineV::jittered(next, rng::stirred(e.rng)) == (ms - ms / 10 + r % m) * 1_000_000);
    if let Some(mac) = e.mac {
        reading::a_solicitation_says_who_asks(mac);
    }
}

/// A solicitation goes out when one is due, or when no router is left and none was
/// being asked for, then four seconds apart at first; and at no other time.
pub proof fn a_tick_solicits_when_due(e: EngineV, now: Instant)
    requires
        e.wf(),
        now.nanos <= clock::HORIZON,
    ensures
        ({
            let (f, actions) = e.tick(now);
            if e.solicit_at is None && none_left(e, now) {
                asked(f, actions, now, e.mac, 0, 4_000_000_000)
            } else if e.solicit_at is Some && e.solicit_at->0.nanos <= now.nanos {
                asked(f, actions, now, e.mac, e.solicits as int, e.interval.nanos as int)
            } else {
                &&& f.solicit_at == e.solicit_at && f.interval == e.interval && f.solicits
                    == e.solicits
                &&& forall|i: int| 0 <= i < actions.len() ==> #[trigger] actions[i] is Changed
            }
        }),
{
    nobody_left(e.routers, now);
    let x = e.expired(now);
    if x.solicit_at matches Some(at) && at.nanos <= now.nanos {
        due_is_asked(x, now);
    }
}

/// An engine that starts solicits at once, and then four seconds apart at first.
pub proof fn a_start_solicits_at_once(e: EngineV, now: Instant)
    requires
        e.wf(),
        now.nanos <= clock::HORIZON,
    ensures
        ({
            let (f, actions) = e.start(now);
            asked(f, actions, now, e.mac, 0, 4_000_000_000)
        }),
{
    let s = EngineV {
        solicits: 0,
        interval: (clock::Duration { nanos: engine::SOLICIT_INTERVAL }),
        solicit_at: Some(now),
        ..e
    };
    due_is_asked(s.expired(now), now);
}

/// A tick forgets routers, servers and domains whose time is over, and no others;
/// the MTU and whether DHCPv6 is wanted stay.
pub proof fn a_tick_forgets_what_is_over(
    e: EngineV,
    now: Instant,
    a: Ipv6Addr,
    d: Seq<char>,
    t: Option<Instant>,
)
    ensures
        ({
            let f = e.tick(now).0;
            &&& f.routers.contains((a, t)) <==> e.routers.contains((a, t)) && lasting(t, now)
            &&& f.rdnss.contains((a, t)) <==> e.rdnss.contains((a, t)) && lasting(t, now)
            &&& f.dnssl.contains((d, t)) <==> e.dnssl.contains((d, t)) && lasting(t, now)
            &&& f.mtu == e.mtu && f.dhcp6_wanted == e.dhcp6_wanted
        }),
{
    repeats::live_holds(e.routers, now, (a, t));
    repeats::live_holds(e.rdnss, now, (a, t));
    repeats::live_names_hold(e.dnssl, now, (d, t));
}

} // verus!
