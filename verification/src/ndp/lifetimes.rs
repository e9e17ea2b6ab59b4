//! How long addresses last, and how many there are.

use vstd::prelude::*;
use crate::addr::Ipv6Addr;
use crate::clock;
use crate::clock::Instant;
use super::engine;
use super::engine::{DesiredAddress, EngineV, PrefixV, Prefixes};
use super::kept;
use super::laws;
use super::packet;
use super::packet::PrefixInfo;
use super::repeats;
use super::table;

verus! {

/// Whether an address is among these.
pub open spec fn carries(s: Seq<DesiredAddress>, a: Ipv6Addr) -> bool {
    exists|i: int| 0 <= i < s.len() && (#[trigger] s[i]).address == a
}

/// What is held of a prefix.
pub open spec fn held(s: Prefixes, k: Ipv6Addr) -> Option<PrefixV> {
    let n = table::place(s, k);
    if n < s.len() && s[n].0 == k {
        Some(s[n].1)
    } else {
        None
    }
}

/// When a lifetime of so many seconds ends, in nanoseconds; the largest number is
/// never.
pub open spec fn spelled(now: Instant, seconds: u32) -> Option<int> {
    if seconds == u32::MAX {
        None
    } else {
        Some(now.nanos + seconds * 1_000_000_000)
    }
}

/// When a lifetime ends that an advertisement renews with so many seconds. More
/// than two hours are taken, and more than what remains; less leaves what remains,
/// up to two hours. One that never ends is only renewed with more than two hours.
pub open spec fn ends(valid_until: Option<Instant>, now: Instant, seconds: u32) -> Option<int> {
    let received = seconds * 1_000_000_000;
    match valid_until {
        Some(t) => {
            let left = if t.nanos >= now.nanos {
                t.nanos - now.nanos
            } else {
                0
            };
            if seconds > 7200 || received > left {
                spelled(now, seconds)
            } else if left <= 7200_000_000_000 {
                Some(now.nanos + left)
            } else {
                Some(now.nanos + 7200_000_000_000)
            }
        },
        None => if seconds > 7200 {
            spelled(now, seconds)
        } else {
            None
        },
    }
}

/// Whether a time comes before an end.
pub open spec fn lasts(t: Instant, end: Option<int>) -> bool {
    end matches Some(n) ==> t.nanos < n
}

/// Prefixes in order, each of them sound.
pub open spec fn sound(s: Prefixes) -> bool {
    &&& table::ordered(s)
    &&& forall|i: int| 0 <= i < s.len() ==> engine::prefix_ok((#[trigger] s[i]).0, s[i].1)
}

/// What is held of a prefix is what stands under its key.
pub(crate) proof fn held_is(s: Prefixes, k: Ipv6Addr)
    requires
        table::ordered(s),
    ensures
        forall|i: int| 0 <= i < s.len() && (#[trigger] s[i]).0 == k ==> held(s, k) == Some(s[i].1),
        held(s, k) matches Some(p) ==> exists|i: int| 0 <= i < s.len() && #[trigger] s[i] == (k, p),
        held(s, k) is None ==> forall|i: int| 0 <= i < s.len() ==> (#[trigger] s[i]).0 != k,
{
    table::place_bound(s, k);
    let n = table::place(s, k);
    assert forall|i: int| 0 <= i < s.len() && (#[trigger] s[i]).0 == k implies held(s, k) == Some(
        s[i].1,
    ) by {
        if n < i {
            assert(s[n].0.bits < s[i].0.bits);
        }
    }
    if n < s.len() && s[n].0 == k {
        assert(s[n] == (k, s[n].1));
    } else {
        assert forall|i: int| 0 <= i < s.len() implies (#[trigger] s[i]).0 != k by {
            if n < i {
                assert(s[n].0.bits < s[i].0.bits);
            }
        }
    }
}

// ---- which addresses there are ----------------------------------------------

proof fn placed_carries(s: Seq<DesiredAddress>, x: DesiredAddress, a: Ipv6Addr)
    ensures
        carries(s, a) || x.address == a ==> carries(engine::placed(s, x), a),
{
    engine::rank_bound(s, x);
    let n = engine::rank(s, x);
    let t = engine::placed(s, x);
    assert(t[n] == x);
    if carries(s, a) {
        let i = choose|i: int| 0 <= i < s.len() && (#[trigger] s[i]).address == a;
        if i < n {
            assert(t[i] == s[i]);
        } else {
            assert(t[i + 1] == s[i]);
        }
    }
}

proof fn temps_carry(acc: Seq<DesiredAddress>, p: PrefixV, n: nat, t: Instant, a: Ipv6Addr)
    requires
        carries(acc, a),
    ensures
        carries(engine::temps_placed(acc, p, n, t), a),
    decreases n,
{
    if n > 0 {
        let m = (n - 1) as nat;
        temps_carry(acc, p, m, t, a);
        placed_carries(
            engine::temps_placed(acc, p, m, t),
            engine::temp_wanted(p, p.temps[n - 1], t),
            a,
        );
    }
}

proof fn valid_is_carried(s: Prefixes, j: int, t: Instant)
    requires
        0 <= j < s.len(),
        table::ahead(s[j].1.valid_until, t),
    ensures
        carries(engine::wanted(s, t), s[j].1.stable),
    decreases s.len(),
{
    let a = s[j].1.stable;
    let p = s.last().1;
    let before = engine::wanted(s.drop_last(), t);
    if j < s.len() - 1 {
        assert(s.drop_last()[j] == s[j]);
        valid_is_carried(s.drop_last(), j, t);
    }
    if table::ahead(p.valid_until, t) {
        placed_carries(before, engine::stable_wanted(p, t), a);
        temps_carry(
            engine::placed(before, engine::stable_wanted(p, t)),
            p,
            p.temps.len(),
            t,
            a,
        );
    }
}

proof fn wanted_of_valid(s: Prefixes, t: Instant)
    ensures
        engine::wanted(s, t) == engine::wanted(engine::valid_prefixes(s, t), t),
    decreases s.len(),
{
    if s.len() > 0 {
        let u = s.drop_last();
        wanted_of_valid(u, t);
        let v = engine::valid_prefixes(u, t);
        assert(v.push(s.last()).drop_last() =~= v);
    }
}

/// The stable address of a prefix is there while the prefix is valid; where a
/// prefix is not held, no address of it is.
pub(crate) proof fn carried_while_valid(s: Prefixes, k: Ipv6Addr, a: Ipv6Addr, t: Instant)
    requires
        sound(s),
        engine::home(a) == k,
        held(s, k) matches Some(p) ==> p.stable == a,
    ensures
        carries(engine::wanted(s, t), a) <==> (held(s, k) matches Some(p) && table::ahead(
            p.valid_until,
            t,
        )),
{
    held_is(s, k);
    if let Some(p) = held(s, k) {
        let j = choose|i: int| 0 <= i < s.len() && #[trigger] s[i] == (k, p);
        if table::ahead(p.valid_until, t) {
            valid_is_carried(s, j, t);
        }
    }
    let all = engine::wanted(s, t);
    if carries(all, a) {
        let v = engine::valid_prefixes(s, t);
        wanted_of_valid(s, t);
        engine::valid_prefixes_ok(s, t);
        repeats::valid_prefixes_are(s, t);
        laws::wanted_facts(v, t);
        let i = choose|i: int| 0 <= i < all.len() && (#[trigger] all[i]).address == a;
        let q = choose|q: int| 0 <= q < v.len() && (#[trigger] v[q]).0 == engine::home(all[i].address);
        assert(s.contains(v[q]));
        let m = choose|m: int| 0 <= m < s.len() && s[m] == v[q];
        assert(s[m].0 == k);
    }
}

// ---- what an advertisement changes ------------------------------------------

proof fn others_leave_it(e: EngineV, now: Instant, info: PrefixInfo, k: Ipv6Addr)
    requires
        e.wf(),
        now.nanos <= clock::HORIZON,
        !repeats::counts(info, k),
    ensures
        held(e.with_prefix(now, info).prefixes, k) == held(e.prefixes, k),
{
    let f = e.with_prefix(now, info);
    let h = engine::home(info.prefix);
    let n = table::place(e.prefixes, h);
    table::place_bound(e.prefixes, h);
    kept::prefixes_keep(e, now, seq![info]);
    assert(seq![info].drop_last() =~= Seq::<PrefixInfo>::empty());
    assert(e.with_prefixes(now, Seq::<PrefixInfo>::empty()) == e);
    assert(e.with_prefixes(now, seq![info]) == f);
    held_is(e.prefixes, k);
    held_is(f.prefixes, k);
    match held(e.prefixes, k) {
        Some(p) => {
            let j = choose|i: int| 0 <= i < e.prefixes.len() && #[trigger] e.prefixes[i] == (k, p);
            if f.prefixes.len() == e.prefixes.len() || j < n {
                assert(f.prefixes[j] == e.prefixes[j]);
            } else {
                assert(f.prefixes[j + 1] == e.prefixes[j]);
            }
        },
        None => {
            if let Some(p) = held(f.prefixes, k) {
                let j = choose|i: int|
                    0 <= i < f.prefixes.len() && #[trigger] f.prefixes[i] == (k, p);
                if f.prefixes.len() == e.prefixes.len() || j < n {
                    assert(e.prefixes[j].0 == k);
                } else if j > n {
                    assert(e.prefixes[j - 1] == f.prefixes[j]);
                }
                assert(false);
            }
        },
    }
}

proof fn all_others_leave_it(e: EngineV, now: Instant, s: Seq<PrefixInfo>, k: Ipv6Addr)
    requires
        e.wf(),
        now.nanos <= clock::HORIZON,
        forall|i: int| 0 <= i < s.len() ==> !repeats::counts(#[trigger] s[i], k),
    ensures
        held(e.with_prefixes(now, s).prefixes, k) == held(e.prefixes, k),
    decreases s.len(),
{
    if s.len() > 0 {
        let u = s.drop_last();
        assert forall|i: int| 0 <= i < u.len() implies !repeats::counts(#[trigger] u[i], k) by {
            assert(u[i] == s[i]);
        }
        assert(!repeats::counts(s[s.len() - 1], k));
        all_others_leave_it(e, now, u, k);
        kept::prefixes_keep(e, now, u);
        others_leave_it(e.with_prefixes(now, u), now, s.last(), k);
    }
}

/// What the engine is told at the start does not change.
pub(crate) proof fn identity_stays(e: EngineV, now: Instant, s: Seq<PrefixInfo>)
    ensures
        e.with_prefixes(now, s).secret == e.secret,
        e.with_prefixes(now, s).interface == e.interface,
        e.with_prefixes(now, s).temporary == e.temporary,
    decreases s.len(),
{
    if s.len() > 0 {
        identity_stays(e, now, s.drop_last());
    }
}

/// What is held of a prefix once one advertisement of it is taken in: its stable
/// address, whether it is on the link, and until when it is preferred and valid.
pub open spec fn renewed(e: EngineV, now: Instant, info: PrefixInfo) -> Option<
    (Ipv6Addr, repeats::Gist),
> {
    let k = engine::home(info.prefix);
    match held(e.prefixes, k) {
        Some(p) => Some(
            (
                p.stable,
                repeats::Gist {
                    on_link: info.on_link,
                    preferred_until: engine::until_time(now, info.preferred),
                    valid_until: engine::revised(p.valid_until, now, info.valid),
                },
            ),
        ),
        None => if info.valid > 0 {
            Some(
                (
                    engine::stable_of(e.secret, k, e.interface),
                    repeats::Gist {
                        on_link: info.on_link,
                        preferred_until: engine::until_time(now, info.preferred),
                        valid_until: engine::until_time(now, info.valid),
                    },
                ),
            )
        } else {
            None
        },
    }
}

/// The same of what is held.
pub open spec fn outline(p: Option<PrefixV>) -> Option<(Ipv6Addr, repeats::Gist)> {
    match p {
        Some(p) => Some((p.stable, repeats::gist(p))),
        None => None,
    }
}

proof fn one_is_taken_in(e: EngineV, now: Instant, info: PrefixInfo)
    requires
        e.wf(),
        now.nanos <= clock::HORIZON,
        repeats::counts(info, engine::home(info.prefix)),
    ensures
        outline(held(e.with_prefix(now, info).prefixes, engine::home(info.prefix))) == renewed(
            e,
            now,
            info,
        ),
{
    let f = e.with_prefix(now, info);
    let k = engine::home(info.prefix);
    let n = table::place(e.prefixes, k);
    table::place_bound(e.prefixes, k);
    kept::prefixes_keep(e, now, seq![info]);
    assert(seq![info].drop_last() =~= Seq::<PrefixInfo>::empty());
    assert(e.with_prefixes(now, Seq::<PrefixInfo>::empty()) == e);
    assert(e.with_prefixes(now, seq![info]) == f);
    held_is(f.prefixes, k);
    if held(e.prefixes, k) is Some || info.valid > 0 {
        assert(f.prefixes[n].0 == k);
    }
}

proof fn the_one_is_taken_in(e: EngineV, now: Instant, s: Seq<PrefixInfo>, i: int)
    requires
        e.wf(),
        now.nanos <= clock::HORIZON,
        0 <= i < s.len(),
        repeats::counts(s[i], engine::home(s[i].prefix)),
        forall|j: int|
            0 <= j < s.len() && j != i ==> !repeats::counts(
                #[trigger] s[j],
                engine::home(s[i].prefix),
            ),
    ensures
        outline(held(e.with_prefixes(now, s).prefixes, engine::home(s[i].prefix))) == renewed(
            e,
            now,
            s[i],
        ),
    decreases s.len(),
{
    let k = engine::home(s[i].prefix);
    let u = s.drop_last();
    assert forall|j: int| 0 <= j < u.len() && j != i implies !repeats::counts(
        #[trigger] u[j],
        k,
    ) by {
        assert(u[j] == s[j]);
    }
    kept::prefixes_keep(e, now, u);
    identity_stays(e, now, u);
    if i == s.len() - 1 {
        assert forall|j: int| 0 <= j < u.len() implies !repeats::counts(#[trigger] u[j], k) by {
            assert(u[j] == s[j]);
        }
        all_others_leave_it(e, now, u, k);
        one_is_taken_in(e.with_prefixes(now, u), now, s[i]);
    } else {
        assert(u[i] == s[i]);
        the_one_is_taken_in(e, now, u, i);
        assert(!repeats::counts(s[s.len() - 1], k));
        others_leave_it(e.with_prefixes(now, u), now, s.last(), k);
    }
}

/// Dropping what is outdated leaves a prefix that is valid as it stands, and
/// none that is not.
proof fn expired_holds(e: EngineV, now: Instant, k: Ipv6Addr)
    requires
        e.wf(),
        now.nanos <= clock::HORIZON,
    ensures
        outline(held(e.expired(now).prefixes, k)) == (match outline(held(e.prefixes, k)) {
            Some((a, g)) => if table::ahead(g.valid_until, now) {
                Some((a, g))
            } else {
                None
            },
            None => None,
        }),
{
    let v = engine::valid_prefixes(e.prefixes, now);
    let d = e.expired(now).prefixes;
    kept::expired_keeps(e, now);
    engine::valid_prefixes_ok(e.prefixes, now);
    repeats::valid_prefixes_are(e.prefixes, now);
    repeats::refreshed_is(v, e.rng, e.temporary, now);
    held_is(e.prefixes, k);
    held_is(d, k);
    if let Some(q) = held(d, k) {
        let i = choose|i: int| 0 <= i < d.len() && #[trigger] d[i] == (k, q);
        assert(d[i].0 == v[i].0);
        assert(e.prefixes.contains(v[i]));
        let m = choose|m: int| 0 <= m < e.prefixes.len() && e.prefixes[m] == v[i];
        assert(e.prefixes[m].0 == k);
        assert(repeats::gist(d[i].1) == repeats::gist(v[i].1));
    }
    if let Some(p) = held(e.prefixes, k) {
        let m = choose|m: int| 0 <= m < e.prefixes.len() && #[trigger] e.prefixes[m] == (k, p);
        if table::ahead(p.valid_until, now) {
            assert(v.contains(e.prefixes[m]));
            let i = choose|i: int| 0 <= i < v.len() && v[i] == e.prefixes[m];
            assert(d[i].0 == k);
        }
    }
}

/// An address lasts as long as its prefix. After an advertisement that names a
/// prefix once, for `v` seconds, and until another one comes, the stable address
/// of the prefix is there exactly until: `v` seconds from now, where that is more
/// than two hours or than what remained; else what remained, but no more than two
/// hours. Where the prefix was to last forever, more than two hours cut it and
/// less does not. Where it was not held, `v` seconds from now. The largest number
/// is forever.
pub proof fn an_address_lasts_as_long_as_its_prefix(
    e: EngineV,
    now: Instant,
    source: Ipv6Addr,
    body: Seq<u8>,
    i: int,
    t: Instant,
)
    requires
        e.wf(),
        now.nanos <= clock::HORIZON,
        now.nanos <= t.nanos,
        packet::decoded(body) matches Some(ra) && {
            &&& 0 <= i < ra.prefixes.len()
            &&& repeats::counts(ra.prefixes[i], engine::home(ra.prefixes[i].prefix))
            &&& forall|j: int|
                0 <= j < ra.prefixes.len() && j != i ==> !repeats::counts(
                    #[trigger] ra.prefixes[j],
                    engine::home(ra.prefixes[i].prefix),
                )
        },
    ensures
        packet::decoded(body) matches Some(ra) && {
            let k = engine::home(ra.prefixes[i].prefix);
            let v = ra.prefixes[i].valid;
            let after = e.receive(now, source, body).0.sight(t).addresses;
            match held(e.prefixes, k) {
                Some(p) => carries(after, p.stable) <==> lasts(t, ends(p.valid_until, now, v)),
                None => carries(after, engine::stable_of(e.secret, k, e.interface)) <==> lasts(
                    t,
                    spelled(now, v),
                ),
            }
        },
{
    let ra = packet::decoded(body)->0;
    let info = ra.prefixes[i];
    let k = engine::home(info.prefix);
    let b = e.with_router(now, source, ra);
    table::put_ordered(
        e.routers,
        source,
        Some(Instant { nanos: (now.nanos + ra.router_lifetime * 1_000_000_000) as u64 }),
    );
    table::without_ordered(e.routers, source);
    assert(b.wf());
    the_one_is_taken_in(b, now, ra.prefixes, i);
    assert(renewed(b, now, info) == renewed(e, now, info));
    let c = b.with_prefixes(now, ra.prefixes);
    kept::prefixes_keep(b, now, ra.prefixes);
    // What is said of servers and names does not touch the prefixes.
    let plain = c.expired(now);
    expired_holds(c, now, k);
    kept::expired_keeps(c, now);
    let d = EngineV {
        rdnss: engine::servers_taken(c.rdnss, now, ra.rdnss),
        dnssl: engine::domains_taken(c.dnssl, now, ra.dnssl),
        ..c
    };
    assert(d.expired(now).prefixes == plain.prefixes);
    let f = e.receive(now, source, body).0;
    assert(f.prefixes == plain.prefixes);
    held_is(e.prefixes, k);
    let a = match held(e.prefixes, k) {
        Some(p) => p.stable,
        None => engine::stable_of(e.secret, k, e.interface),
    };
    assert(engine::home(a) == k) by {
        match held(e.prefixes, k) {
            Some(p) => {
                let j = choose|j: int|
                    0 <= j < e.prefixes.len() && #[trigger] e.prefixes[j] == (k, p);
                assert(engine::prefix_ok(e.prefixes[j].0, e.prefixes[j].1));
            },
            None => {
                engine::joined_facts(info.prefix, 0);
                engine::joined_facts(k, engine::stable_iid(e.secret, k, e.interface, 0));
            },
        }
    }
    carried_while_valid(f.prefixes, k, a, t);
}

/// A prefix is as it was last advertised. After an advertisement that names a prefix
/// once, and as long as it is valid, it is on the link as its L bit says, and
/// preferred for as many seconds as it says; the largest number is forever.
pub proof fn a_prefix_is_as_it_was_advertised(
    e: EngineV,
    now: Instant,
    source: Ipv6Addr,
    body: Seq<u8>,
    i: int,
)
    requires
        e.wf(),
        now.nanos <= clock::HORIZON,
        packet::decoded(body) matches Some(ra) && {
            &&& 0 <= i < ra.prefixes.len()
            &&& repeats::counts(ra.prefixes[i], engine::home(ra.prefixes[i].prefix))
            &&& forall|j: int|
                0 <= j < ra.prefixes.len() && j != i ==> !repeats::counts(
                    #[trigger] ra.prefixes[j],
                    engine::home(ra.prefixes[i].prefix),
                )
        },
    ensures
        packet::decoded(body) matches Some(ra) && {
            let info = ra.prefixes[i];
            let f = e.receive(now, source, body).0;
            held(f.prefixes, engine::home(info.prefix)) matches Some(p) ==> {
                &&& p.on_link == info.on_link
                &&& match (p.preferred_until, spelled(now, info.preferred)) {
                    (Some(t), Some(n)) => t.nanos == n,
                    (None, None) => true,
                    _ => false,
                }
            }
        },
{
    let ra = packet::decoded(body)->0;
    let info = ra.prefixes[i];
    let k = engine::home(info.prefix);
    let b = e.with_router(now, source, ra);
    table::put_ordered(
        e.routers,
        source,
        Some(Instant { nanos: (now.nanos + ra.router_lifetime * 1_000_000_000) as u64 }),
    );
    table::without_ordered(e.routers, source);
    assert(b.wf());
    the_one_is_taken_in(b, now, ra.prefixes, i);
    let c = b.with_prefixes(now, ra.prefixes);
    kept::prefixes_keep(b, now, ra.prefixes);
    expired_holds(c, now, k);
    let d = EngineV {
        rdnss: engine::servers_taken(c.rdnss, now, ra.rdnss),
        dnssl: engine::domains_taken(c.dnssl, now, ra.dnssl),
        ..c
    };
    assert(d.expired(now).prefixes == c.expired(now).prefixes);
    assert(e.receive(now, source, body).0.prefixes == c.expired(now).prefixes);
}

/// A prefix that an advertisement does not name, or names with A clear, with a length
/// other than 64, or preferred for longer than it is valid, stays as it was.
pub proof fn a_prefix_not_advertised_stays(
    e: EngineV,
    now: Instant,
    source: Ipv6Addr,
    body: Seq<u8>,
    k: Ipv6Addr,
)
    requires
        e.wf(),
        now.nanos <= clock::HORIZON,
        packet::decoded(body) matches Some(ra) && forall|j: int|
            0 <= j < ra.prefixes.len() ==> {
                let p = #[trigger] ra.prefixes[j];
                !p.autonomous || p.length != 64 || p.preferred > p.valid || engine::home(p.prefix)
                    != k
            },
    ensures
        ({
            let f = e.receive(now, source, body).0;
            match (held(e.prefixes, k), held(f.prefixes, k)) {
                (Some(p), Some(q)) => q.stable == p.stable && repeats::gist(q) == repeats::gist(p),
                (Some(p), None) => p.valid_until matches Some(t) && t.nanos <= now.nanos,
                (None, None) => true,
                (None, Some(_)) => false,
            }
        }),
{
    let ra = packet::decoded(body)->0;
    let b = e.with_router(now, source, ra);
    table::put_ordered(
        e.routers,
        source,
        Some(Instant { nanos: (now.nanos + ra.router_lifetime * 1_000_000_000) as u64 }),
    );
    table::without_ordered(e.routers, source);
    assert(b.wf());
    assert forall|j: int| 0 <= j < ra.prefixes.len() implies !repeats::counts(
        #[trigger] ra.prefixes[j],
        k,
    ) by {}
    all_others_leave_it(b, now, ra.prefixes, k);
    let c = b.with_prefixes(now, ra.prefixes);
    kept::prefixes_keep(b, now, ra.prefixes);
    expired_holds(c, now, k);
    let d = EngineV {
        rdnss: engine::servers_taken(c.rdnss, now, ra.rdnss),
        dnssl: engine::domains_taken(c.dnssl, now, ra.dnssl),
        ..c
    };
    assert(d.expired(now).prefixes == c.expired(now).prefixes);
    assert(e.receive(now, source, body).0.prefixes == c.expired(now).prefixes);
}

/// A tick cuts no lifetime: before and after it, the stable address of a prefix
/// is there while the prefix is valid.
pub proof fn a_tick_cuts_no_lifetime(e: EngineV, now: Instant, k: Ipv6Addr, t: Instant)
    requires
        e.wf(),
        now.nanos <= clock::HORIZON,
        now.nanos <= t.nanos,
        held(e.prefixes, k) is Some,
    ensures
        held(e.prefixes, k) matches Some(p) && {
            &&& carries(e.sight(t).addresses, p.stable) <==> table::ahead(p.valid_until, t)
            &&& carries(e.tick(now).0.sight(t).addresses, p.stable) <==> table::ahead(
                p.valid_until,
                t,
            )
        },
{
    let p = held(e.prefixes, k)->0;
    held_is(e.prefixes, k);
    let j = choose|j: int| 0 <= j < e.prefixes.len() && #[trigger] e.prefixes[j] == (k, p);
    assert(engine::prefix_ok(e.prefixes[j].0, e.prefixes[j].1));
    kept::expired_keeps(e, now);
    expired_holds(e, now, k);
    carried_while_valid(e.prefixes, k, p.stable, t);
    let f = e.expired(now);
    assert(e.tick(now).0.prefixes == f.prefixes);
    carried_while_valid(f.prefixes, k, p.stable, t);
}

} // verus!
