//! What the SLAAC engine keeps to, whatever the network does.

use vstd::prelude::*;
use crate::addr::Ipv6Addr;
use crate::clock;
use crate::clock::Instant;
use super::engine;
use super::engine::{ActionV, DesiredAddress, EngineV, PrefixV, Prefixes, Temp};
use super::packet::{PrefixInfo, RouterAdvertV};
use super::repeats;
use super::table;
use super::table::{Expiring, Names};

verus! {

/// Addresses of /64s, each once.
pub open spec fn distinct_64s(s: Seq<DesiredAddress>) -> bool {
    &&& forall|i: int| 0 <= i < s.len() ==> (#[trigger] s[i]).prefix == 64
    &&& forall|i: int| 0 <= i < s.len() ==> !engine::reserved(engine::iid_of((#[trigger] s[i]).address))
    &&& forall|i: int, j: int|
        0 <= i < j < s.len() ==> (#[trigger] s[i]).address != (#[trigger] s[j]).address
}

spec fn absent(s: Seq<DesiredAddress>, a: Ipv6Addr) -> bool {
    forall|i: int| 0 <= i < s.len() ==> (#[trigger] s[i]).address != a
}

proof fn placed_facts(s: Seq<DesiredAddress>, x: DesiredAddress)
    requires
        distinct_64s(s),
        x.prefix == 64,
        !engine::reserved(engine::iid_of(x.address)),
        absent(s, x.address),
    ensures
        distinct_64s(engine::placed(s, x)),
        forall|i: int|
            0 <= i < engine::placed(s, x).len() ==> (#[trigger] engine::placed(s, x)[i]) == x
                || s.contains(engine::placed(s, x)[i]),
{
    engine::rank_bound(s, x);
    let n = engine::rank(s, x);
    let t = engine::placed(s, x);
    assert forall|i: int| 0 <= i < t.len() implies (#[trigger] t[i]) == x || s.contains(t[i]) by {
        if i < n {
            assert(t[i] == s[i]);
        } else if i > n {
            assert(t[i] == s[i - 1]);
        }
    }
    assert forall|i: int| 0 <= i < t.len() implies (#[trigger] t[i]).prefix == 64
        && !engine::reserved(engine::iid_of(t[i].address)) by {
        if i < n {
            assert(t[i] == s[i]);
        } else if i > n {
            assert(t[i] == s[i - 1]);
        }
    }
    assert forall|i: int, j: int| 0 <= i < j < t.len() implies (#[trigger] t[i]).address != (
    #[trigger] t[j]).address by {
        if j < n {
            assert(t[i] == s[i] && t[j] == s[j]);
        } else if j == n {
            assert(t[i] == s[i]);
        } else if i < n {
            assert(t[i] == s[i] && t[j] == s[j - 1]);
        } else if i == n {
            assert(t[j] == s[j - 1]);
        } else {
            assert(t[i] == s[i - 1] && t[j] == s[j - 1]);
        }
    }
}

proof fn temps_facts(acc: Seq<DesiredAddress>, k: Ipv6Addr, p: PrefixV, n: nat, now: Instant)
    requires
        engine::prefix_ok(k, p),
        n <= p.temps.len(),
        distinct_64s(acc),
        forall|i: int|
            0 <= i < acc.len() ==> (#[trigger] acc[i]).address == p.stable || engine::home(
                acc[i].address,
            ) != k,
    ensures
        distinct_64s(engine::temps_placed(acc, p, n, now)),
        forall|i: int|
            0 <= i < engine::temps_placed(acc, p, n, now).len() ==> acc.contains(
                #[trigger] engine::temps_placed(acc, p, n, now)[i],
            ) || (exists|j: int|
                0 <= j < n && (#[trigger] p.temps[j]).address == engine::temps_placed(
                    acc,
                    p,
                    n,
                    now,
                )[i].address),
    decreases n,
{
    if n > 0 {
        let m = (n - 1) as nat;
        temps_facts(acc, k, p, m, now);
        let before = engine::temps_placed(acc, p, m, now);
        let t = p.temps[n - 1];
        let after = engine::temps_placed(acc, p, n, now);
        assert(engine::home(t.address) == k && t.address != p.stable);
        if t.valid_until.nanos > now.nanos {
            assert forall|i: int| 0 <= i < before.len() implies (#[trigger] before[i]).address
                != t.address by {
                if acc.contains(before[i]) {
                    let j = choose|j: int| 0 <= j < acc.len() && acc[j] == before[i];
                    assert(acc[j] == before[i]);
                } else {
                    let j = choose|j: int|
                        0 <= j < m && (#[trigger] p.temps[j]).address == before[i].address;
                    assert(p.temps[j].address != p.temps[n - 1].address);
                }
            }
            let x = engine::temp_wanted(p, t, now);
            placed_facts(before, x);
            assert forall|i: int| 0 <= i < after.len() implies acc.contains(#[trigger] after[i]) || (
            exists|j: int| 0 <= j < n && (#[trigger] p.temps[j]).address == after[i].address) by {
                if after[i] == x {
                    assert(p.temps[n - 1].address == after[i].address);
                } else {
                    assert(before.contains(after[i]));
                    let q = choose|q: int| 0 <= q < before.len() && before[q] == after[i];
                    assert(before[q] == after[i]);
                    if !acc.contains(before[q]) {
                        let j = choose|j: int|
                            0 <= j < m && (#[trigger] p.temps[j]).address == before[q].address;
                        assert(p.temps[j].address == after[i].address);
                    }
                }
            }
        } else {
            assert forall|i: int| 0 <= i < after.len() implies acc.contains(#[trigger] after[i]) || (
            exists|j: int| 0 <= j < n && (#[trigger] p.temps[j]).address == after[i].address) by {
                assert(after[i] == before[i]);
                if !acc.contains(before[i]) {
                    let j = choose|j: int|
                        0 <= j < m && (#[trigger] p.temps[j]).address == before[i].address;
                    assert(p.temps[j].address == after[i].address);
                }
            }
        }
    }
}

pub(crate) proof fn wanted_facts(s: Prefixes, now: Instant)
    requires
        table::ordered(s),
        forall|i: int| 0 <= i < s.len() ==> engine::prefix_ok((#[trigger] s[i]).0, s[i].1),
    ensures
        distinct_64s(engine::wanted(s, now)),
        forall|i: int|
            0 <= i < engine::wanted(s, now).len() ==> exists|j: int|
                0 <= j < s.len() && (#[trigger] s[j]).0 == engine::home(
                    (#[trigger] engine::wanted(s, now)[i]).address,
                ),
    decreases s.len(),
{
    if s.len() > 0 {
        let t = s.drop_last();
        assert forall|i: int| 0 <= i < t.len() implies engine::prefix_ok(
            (#[trigger] t[i]).0,
            t[i].1,
        ) by {
            assert(t[i] == s[i]);
        }
        wanted_facts(t, now);
        let before = engine::wanted(t, now);
        let k = s.last().0;
        let p = s.last().1;
        assert(s[s.len() - 1] == s.last());
        assert(engine::prefix_ok(k, p));
        assert forall|i: int| 0 <= i < before.len() implies engine::home(
            (#[trigger] before[i]).address,
        ) != k by {
            let j = choose|j: int|
                0 <= j < t.len() && (#[trigger] t[j]).0 == engine::home(before[i].address);
            assert(t[j] == s[j]);
        }
        let after = engine::wanted(s, now);
        if table::ahead(p.valid_until, now) {
            let x = engine::stable_wanted(p, now);
            assert(absent(before, x.address));
            placed_facts(before, x);
            let acc = engine::placed(before, x);
            assert forall|i: int| 0 <= i < acc.len() implies (#[trigger] acc[i]).address == p.stable
                || engine::home(acc[i].address) != k by {
                if acc[i] != x {
                    assert(before.contains(acc[i]));
                    let q = choose|q: int| 0 <= q < before.len() && before[q] == acc[i];
                    assert(before[q] == acc[i]);
                }
            }
            temps_facts(acc, k, p, p.temps.len(), now);
            assert forall|i: int| 0 <= i < after.len() implies exists|j: int|
                0 <= j < s.len() && (#[trigger] s[j]).0 == engine::home(
                    (#[trigger] after[i]).address,
                ) by {
                if acc.contains(after[i]) {
                    let q = choose|q: int| 0 <= q < acc.len() && acc[q] == after[i];
                    assert(acc[q] == after[i]);
                    if acc[q] != x {
                        assert(before.contains(acc[q]));
                        let w = choose|w: int| 0 <= w < before.len() && before[w] == acc[q];
                        assert(before[w] == after[i]);
                        let j = choose|j: int|
                            0 <= j < t.len() && (#[trigger] t[j]).0 == engine::home(
                                before[w].address,
                            );
                        assert(s[j] == t[j]);
                    } else {
                        assert(s[s.len() - 1].0 == engine::home(after[i].address));
                    }
                } else {
                    let j = choose|j: int|
                        0 <= j < p.temps.len() && (#[trigger] p.temps[j]).address
                            == after[i].address;
                    assert(engine::home(p.temps[j].address) == k);
                    assert(s[s.len() - 1].0 == engine::home(after[i].address));
                }
            }
        } else {
            assert forall|i: int| 0 <= i < after.len() implies exists|j: int|
                0 <= j < s.len() && (#[trigger] s[j]).0 == engine::home(
                    (#[trigger] after[i]).address,
                ) by {
                assert(after[i] == before[i]);
                let j = choose|j: int|
                    0 <= j < t.len() && (#[trigger] t[j]).0 == engine::home(before[i].address);
                assert(s[j] == t[j]);
            }
        }
    }
}

/// At any time every address is in a /64, none has a reserved identifier, and
/// no address repeats.
pub proof fn addresses_are_distinct(e: EngineV, now: Instant)
    requires
        e.wf(),
    ensures
        distinct_64s(e.sight(now).addresses),
{
    wanted_facts(e.prefixes, now);
}

/// `Changed` is emitted exactly when what can be observed differs from what
/// was last seen, and what was last seen is then what can be observed.
pub proof fn changes_are_reported_exactly(e: EngineV, now: Instant, actions: Seq<ActionV>)
    requires
        !actions.contains(ActionV::Changed),
    ensures
        e.shown(now, actions).1.contains(ActionV::Changed) <==> e.sight(now) != e.seen,
        e.shown(now, actions).0.seen == e.sight(now),
        e.shown(now, actions).0.sight(now) == e.sight(now),
{
    let after = e.shown(now, actions).1;
    if e.sight(now) != e.seen {
        assert(after[after.len() - 1] == ActionV::Changed);
    }
}

/// After each step what was last seen is what can be observed.
pub proof fn nothing_goes_unreported(e: EngineV, now: Instant, source: Ipv6Addr, body: Seq<u8>)
    ensures
        e.tick(now).0.seen == e.tick(now).0.sight(now),
        e.start(now).0.seen == e.start(now).0.sight(now),
        super::packet::decoded(body) is Some ==> e.receive(now, source, body).0.seen == e.receive(
            now,
            source,
            body,
        ).0.sight(now),
{
}

/// An advertisement that is no advertisement changes nothing.
pub proof fn noise_is_ignored(e: EngineV, now: Instant, source: Ipv6Addr, body: Seq<u8>)
    requires
        super::packet::decoded(body) is None,
    ensures
        e.receive(now, source, body) == (e, Seq::<ActionV>::empty()),
{
}

/// However short a lifetime an advertisement names, what remains of a prefix
/// is not cut below two hours, or below what it was where that was less.
pub proof fn a_spoofed_lifetime_cannot_kill(valid_until: Option<Instant>, now: Instant, seconds: u32)
    requires
        now.nanos <= clock::HORIZON,
    ensures
        match (valid_until, engine::revised(valid_until, now, seconds)) {
            (Some(t), Some(u)) => u.nanos >= t.nanos || u.nanos >= now.nanos + engine::TWO_HOURS,
            (None, Some(u)) => u.nanos >= now.nanos + engine::TWO_HOURS,
            (_, None) => true,
        },
{
}

/// While no router is known the engine is soliciting: a host keeps looking.
pub proof fn without_a_router_it_solicits(e: EngineV, now: Instant)
    ensures
        e.expired(now).routers.len() == 0 ==> e.expired(now).solicit_at is Some,
        e.tick(now).0.routers.len() == 0 ==> e.tick(now).0.solicit_at is Some,
{
}

/// A router that withdraws takes only its route with it.
pub proof fn a_prefix_outlives_its_router(
    e: EngineV,
    now: Instant,
    source: Ipv6Addr,
    ra: RouterAdvertV,
)
    requires
        ra.router_lifetime == 0,
    ensures
        e.with_router(now, source, ra).prefixes == e.prefixes,
        e.with_router(now, source, ra).routers == table::without(e.routers, source),
{
}

proof fn prefixes_keep_the_flag(e: EngineV, now: Instant, s: Seq<PrefixInfo>)
    ensures
        e.with_prefixes(now, s).dhcp6_wanted == e.dhcp6_wanted,
    decreases s.len(),
{
    if s.len() > 0 {
        prefixes_keep_the_flag(e, now, s.drop_last());
    }
}

/// Once a router has asked for DHCPv6, it stays wanted.
pub proof fn dhcp6_stays_wanted(e: EngineV, now: Instant, source: Ipv6Addr, body: Seq<u8>)
    requires
        e.dhcp6_wanted,
    ensures
        e.tick(now).0.dhcp6_wanted,
        e.receive(now, source, body).0.dhcp6_wanted,
{
    match super::packet::decoded(body) {
        Some(ra) => {
            prefixes_keep_the_flag(e.with_router(now, source, ra), now, ra.prefixes);
        },
        None => {},
    }
}

/// Whether a time comes after `t`, where there is one.
spec fn later(e: Option<Instant>, t: Instant) -> bool {
    e matches Some(x) ==> x.nanos > t.nanos
}

proof fn quiet_list(s: Expiring, t: Instant)
    requires
        later(table::soonest(s), t),
    ensures
        table::live(s, t) == s,
        forall|i: int| 0 <= i < s.len() ==> table::ahead((#[trigger] s[i]).1, t),
    decreases s.len(),
{
    if s.len() > 0 {
        quiet_list(s.drop_last(), t);
        assert(s.drop_last().push(s.last()) =~= s);
        assert forall|i: int| 0 <= i < s.len() implies table::ahead((#[trigger] s[i]).1, t) by {
            if i < s.len() - 1 {
                assert(s.drop_last()[i] == s[i]);
            }
        }
    }
}

proof fn quiet_names(s: Names, t: Instant)
    requires
        later(table::names_soonest(s), t),
    ensures
        table::live_names(s, t) == s,
    decreases s.len(),
{
    if s.len() > 0 {
        quiet_names(s.drop_last(), t);
        assert(s.drop_last().push(s.last()) =~= s);
    }
}

/// Whether a preferred lifetime looks the same at both times: it is over at the
/// first or lasts beyond the second.
spec fn steady(e: Option<Instant>, now: Instant, t: Instant) -> bool {
    e matches Some(x) ==> x.nanos <= now.nanos || x.nanos > t.nanos
}

proof fn quiet_temps(acc: Seq<DesiredAddress>, p: PrefixV, n: nat, now: Instant, t: Instant)
    requires
        n <= p.temps.len(),
        now.nanos <= t.nanos,
        steady(p.preferred_until, now, t),
        forall|i: int|
            0 <= i < p.temps.len() ==> (#[trigger] p.temps[i]).valid_until.nanos > t.nanos
                && steady(Some(p.temps[i].preferred_until), now, t),
    ensures
        engine::temps_placed(acc, p, n, now) == engine::temps_placed(acc, p, n, t),
    decreases n,
{
    if n > 0 {
        quiet_temps(acc, p, (n - 1) as nat, now, t);
        assert(p.temps[n - 1].valid_until.nanos > t.nanos);
    }
}

proof fn temps_all_later(s: Seq<Temp>, at: Instant, now: Instant, t: Instant)
    requires
        at.nanos <= now.nanos,
        later(engine::temps_soonest(s, at), t),
    ensures
        forall|i: int|
            0 <= i < s.len() ==> (#[trigger] s[i]).valid_until.nanos > t.nanos && steady(
                Some(s[i].preferred_until),
                now,
                t,
            ),
    decreases s.len(),
{
    if s.len() > 0 {
        temps_all_later(s.drop_last(), at, now, t);
        assert forall|i: int| 0 <= i < s.len() implies (#[trigger] s[i]).valid_until.nanos > t.nanos
            && steady(Some(s[i].preferred_until), now, t) by {
            if i < s.len() - 1 {
                assert(s.drop_last()[i] == s[i]);
            }
        }
    }
}

proof fn quiet_prefixes(s: Prefixes, at: Instant, now: Instant, t: Instant)
    requires
        at.nanos <= now.nanos <= t.nanos,
        later(engine::prefixes_soonest(s, at), t),
    ensures
        engine::wanted(s, now) == engine::wanted(s, t),
    decreases s.len(),
{
    if s.len() > 0 {
        quiet_prefixes(s.drop_last(), at, now, t);
        let p = s.last().1;
        temps_all_later(p.temps, at, now, t);
        let before = engine::wanted(s.drop_last(), t);
        quiet_temps(
            engine::placed(before, engine::stable_wanted(p, t)),
            p,
            p.temps.len(),
            now,
            t,
        );
    }
}

/// Nothing that can be observed changes by itself between the last call and the
/// next deadline: a caller that waits until then misses nothing.
pub proof fn nothing_changes_before_the_deadline(e: EngineV, now: Instant, t: Instant)
    requires
        e.at.nanos <= now.nanos <= t.nanos,
        e.next_deadline() matches Some(d) ==> t.nanos < d.nanos,
    ensures
        e.sight(t) == e.sight(now),
{
    quiet_list(e.routers, t);
    quiet_list(e.routers, now);
    quiet_list(e.rdnss, t);
    quiet_list(e.rdnss, now);
    quiet_names(e.dnssl, t);
    quiet_names(e.dnssl, now);
    quiet_prefixes(e.prefixes, e.at, now, t);
    if e.routers.len() > 0 {
        assert(table::ahead(e.routers[0].1, t));
        assert(table::ahead(e.routers[0].1, now));
    }
}

proof fn live_list_is_ahead(s: Expiring, now: Instant)
    ensures
        later(table::soonest(table::live(s, now)), now),
    decreases s.len(),
{
    if s.len() > 0 {
        live_list_is_ahead(s.drop_last(), now);
        let before = table::live(s.drop_last(), now);
        assert(before.push(s.last()).drop_last() =~= before);
    }
}

proof fn live_names_are_ahead(s: Names, now: Instant)
    ensures
        later(table::names_soonest(table::live_names(s, now)), now),
    decreases s.len(),
{
    if s.len() > 0 {
        live_names_are_ahead(s.drop_last(), now);
        let before = table::live_names(s.drop_last(), now);
        assert(before.push(s.last()).drop_last() =~= before);
    }
}

proof fn temps_are_ahead(s: Seq<Temp>, now: Instant)
    requires
        forall|i: int| 0 <= i < s.len() ==> (#[trigger] s[i]).valid_until.nanos > now.nanos,
    ensures
        later(engine::temps_soonest(s, now), now),
    decreases s.len(),
{
    if s.len() > 0 {
        let u = s.drop_last();
        assert forall|i: int| 0 <= i < u.len() implies (#[trigger] u[i]).valid_until.nanos
            > now.nanos by {
            assert(u[i] == s[i]);
        }
        temps_are_ahead(u, now);
        assert(s[s.len() - 1] == s.last());
    }
}

proof fn refreshed_is_ahead(s: Prefixes, rng: u64, temporary: bool, now: Instant)
    requires
        now.nanos <= clock::HORIZON,
        forall|i: int| 0 <= i < s.len() ==> table::ahead((#[trigger] s[i]).1.valid_until, now),
    ensures
        later(engine::prefixes_soonest(engine::refreshed(s, rng, temporary, now).0, now), now),
    decreases s.len(),
{
    if s.len() > 0 {
        let u = s.drop_last();
        assert forall|i: int| 0 <= i < u.len() implies table::ahead(
            (#[trigger] u[i]).1.valid_until,
            now,
        ) by {
            assert(u[i] == s[i]);
        }
        refreshed_is_ahead(u, rng, temporary, now);
        let done = engine::refreshed(u, rng, temporary, now).0;
        let after = engine::refreshed(s, rng, temporary, now).0;
        assert(s[s.len() - 1] == s.last());
        assert(after.drop_last() =~= done);
        let p = engine::pruned(s.last().1, now);
        repeats::valid_temps_are(s.last().1.temps, now);
        let last = after.last().1;
        assert forall|i: int| 0 <= i < last.temps.len() implies (
        #[trigger] last.temps[i]).valid_until.nanos > now.nanos by {
            let room = engine::roomy(p).temps;
            if temporary && engine::wants_temp(p, now) && i < room.len() {
                assert(last.temps[i] == room[i]);
                assert(room[i] == p.temps[i + p.temps.len() - room.len()]);
            }
        }
        temps_are_ahead(last.temps, now);
    }
}

proof fn valid_prefixes_are_ahead(s: Prefixes, now: Instant)
    ensures
        forall|i: int|
            0 <= i < engine::valid_prefixes(s, now).len() ==> table::ahead(
                (#[trigger] engine::valid_prefixes(s, now)[i]).1.valid_until,
                now,
            ),
    decreases s.len(),
{
    if s.len() > 0 {
        valid_prefixes_are_ahead(s.drop_last(), now);
        let before = engine::valid_prefixes(s.drop_last(), now);
        let v = engine::valid_prefixes(s, now);
        assert forall|i: int| 0 <= i < v.len() implies table::ahead(
            (#[trigger] v[i]).1.valid_until,
            now,
        ) by {
            if i < before.len() {
                assert(v[i] == before[i]);
            }
        }
    }
}

proof fn soliciting_is_ahead(e: EngineV, now: Instant)
    requires
        engine::SOLICIT_INTERVAL <= e.interval.nanos <= engine::MAX_SOLICIT_INTERVAL,
        now.nanos <= clock::HORIZON,
    ensures
        later(e.solicit_if_due(now).0.solicit_at, now),
        e.solicit_if_due(now).0 == (EngineV {
            rng: e.solicit_if_due(now).0.rng,
            solicits: e.solicit_if_due(now).0.solicits,
            interval: e.solicit_if_due(now).0.interval,
            solicit_at: e.solicit_if_due(now).0.solicit_at,
            ..e
        }),
{
}

proof fn ticked_is_ahead(e: EngineV, now: Instant)
    requires
        engine::SOLICIT_INTERVAL <= e.interval.nanos <= engine::MAX_SOLICIT_INTERVAL,
        now.nanos <= clock::HORIZON,
    ensures
        later(e.tick(now).0.next_deadline(), now),
{
    live_list_is_ahead(e.routers, now);
    live_list_is_ahead(e.rdnss, now);
    live_names_are_ahead(e.dnssl, now);
    valid_prefixes_are_ahead(e.prefixes, now);
    refreshed_is_ahead(engine::valid_prefixes(e.prefixes, now), e.rng, e.temporary, now);
    let x = e.expired(now);
    soliciting_is_ahead(x, now);
    let f = e.tick(now).0;
    assert(f.routers == x.routers && f.prefixes == x.prefixes && f.rdnss == x.rdnss && f.dnssl
        == x.dnssl && f.at == now);
}

/// After a tick, or a start, the next deadline lies ahead: a caller that sleeps
/// until it does not spin.
pub proof fn the_next_deadline_lies_ahead(e: EngineV, now: Instant)
    requires
        e.wf(),
        now.nanos <= clock::HORIZON,
    ensures
        e.tick(now).0.next_deadline() matches Some(d) ==> d.nanos > now.nanos,
        e.start(now).0.next_deadline() matches Some(d) ==> d.nanos > now.nanos,
{
    ticked_is_ahead(e, now);
    ticked_is_ahead(
        EngineV {
            solicits: 0,
            interval: (clock::Duration { nanos: engine::SOLICIT_INTERVAL }),
            solicit_at: Some(now),
            ..e
        },
        now,
    );
}

/// Whether none but the newest temporary address of a prefix is preferred at
/// `at` or later.
pub open spec fn newest_alone(p: PrefixV, at: Instant) -> bool {
    forall|i: int|
        0 <= i < p.temps.len() - 1 ==> (#[trigger] p.temps[i]).preferred_until.nanos <= at.nanos
}

/// The same of every prefix.
pub open spec fn all_newest_alone(s: Prefixes, at: Instant) -> bool {
    forall|i: int| 0 <= i < s.len() ==> newest_alone((#[trigger] s[i]).1, at)
}

proof fn over_stays_over(s: Seq<Temp>, now: Instant, at: Instant)
    requires
        forall|i: int| 0 <= i < s.len() ==> (#[trigger] s[i]).preferred_until.nanos <= at.nanos,
    ensures
        forall|i: int|
            0 <= i < engine::valid_temps(s, now).len() ==> (#[trigger] engine::valid_temps(
                s,
                now,
            )[i]).preferred_until.nanos <= at.nanos,
    decreases s.len(),
{
    if s.len() > 0 {
        let u = s.drop_last();
        assert forall|i: int| 0 <= i < u.len() implies (#[trigger] u[i]).preferred_until.nanos
            <= at.nanos by {
            assert(u[i] == s[i]);
        }
        over_stays_over(u, now, at);
        let before = engine::valid_temps(u, now);
        let v = engine::valid_temps(s, now);
        assert(s[s.len() - 1] == s.last());
        assert forall|i: int| 0 <= i < v.len() implies (#[trigger] v[i]).preferred_until.nanos
            <= at.nanos by {
            if i < before.len() {
                assert(v[i] == before[i]);
            }
        }
    }
}

proof fn pruned_newest_alone(p: PrefixV, now: Instant, at: Instant)
    requires
        newest_alone(p, at),
    ensures
        newest_alone(engine::pruned(p, now), at),
{
    if p.temps.len() > 0 {
        let u = p.temps.drop_last();
        assert forall|i: int| 0 <= i < u.len() implies (#[trigger] u[i]).preferred_until.nanos
            <= at.nanos by {
            assert(u[i] == p.temps[i]);
        }
        over_stays_over(u, now, at);
        let before = engine::valid_temps(u, now);
        let v = engine::valid_temps(p.temps, now);
        assert forall|i: int| 0 <= i < v.len() - 1 implies (#[trigger] v[i]).preferred_until.nanos
            <= at.nanos by {
            assert(v[i] == before[i]);
        }
    }
}

proof fn refreshed_newest_alone(
    s: Prefixes,
    rng: u64,
    temporary: bool,
    now: Instant,
    at: Instant,
)
    requires
        at.nanos <= now.nanos,
        all_newest_alone(s, at),
    ensures
        all_newest_alone(engine::refreshed(s, rng, temporary, now).0, now),
        engine::refreshed(s, rng, temporary, now).0.len() == s.len(),
    decreases s.len(),
{
    if s.len() > 0 {
        let u = s.drop_last();
        assert forall|i: int| 0 <= i < u.len() implies newest_alone((#[trigger] u[i]).1, at) by {
            assert(u[i] == s[i]);
        }
        refreshed_newest_alone(u, rng, temporary, now, at);
        let done = engine::refreshed(u, rng, temporary, now).0;
        let after = engine::refreshed(s, rng, temporary, now).0;
        assert(s[s.len() - 1] == s.last());
        pruned_newest_alone(s.last().1, now, at);
        let p = engine::pruned(s.last().1, now);
        let q = after.last().1;
        let room = engine::roomy(p).temps;
        assert forall|i: int| 0 <= i < q.temps.len() - 1 implies (
        #[trigger] q.temps[i]).preferred_until.nanos <= now.nanos by {
            if temporary && engine::wants_temp(p, now) {
                let o = p.temps.len() - room.len();
                assert(q.temps[i] == room[i]);
                assert(room[i] == p.temps[i + o]);
                if i + o == p.temps.len() - 1 {
                    assert(p.temps[i + o] == p.temps.last());
                }
            } else {
                assert(q.temps[i] == p.temps[i]);
            }
        }
        assert forall|i: int| 0 <= i < after.len() implies newest_alone(
            (#[trigger] after[i]).1,
            now,
        ) by {
            if i < u.len() {
                assert(after[i] == done[i]);
            }
        }
    }
}

proof fn valid_prefixes_newest_alone(s: Prefixes, now: Instant, at: Instant)
    requires
        all_newest_alone(s, at),
    ensures
        all_newest_alone(engine::valid_prefixes(s, now), at),
    decreases s.len(),
{
    if s.len() > 0 {
        let u = s.drop_last();
        assert forall|i: int| 0 <= i < u.len() implies newest_alone((#[trigger] u[i]).1, at) by {
            assert(u[i] == s[i]);
        }
        valid_prefixes_newest_alone(u, now, at);
        let before = engine::valid_prefixes(u, now);
        let v = engine::valid_prefixes(s, now);
        assert(s[s.len() - 1] == s.last());
        assert forall|i: int| 0 <= i < v.len() implies newest_alone((#[trigger] v[i]).1, at) by {
            if i < before.len() {
                assert(v[i] == before[i]);
            }
        }
    }
}

pub(crate) proof fn expired_newest_alone(e: EngineV, now: Instant)
    requires
        e.at.nanos <= now.nanos,
        all_newest_alone(e.prefixes, e.at),
    ensures
        all_newest_alone(e.expired(now).prefixes, now),
{
    valid_prefixes_newest_alone(e.prefixes, now, e.at);
    refreshed_newest_alone(
        engine::valid_prefixes(e.prefixes, now),
        e.rng,
        e.temporary,
        now,
        e.at,
    );
}

pub(crate) proof fn prefixes_newest_alone(e: EngineV, now: Instant, s: Seq<PrefixInfo>)
    requires
        all_newest_alone(e.prefixes, e.at),
    ensures
        all_newest_alone(e.with_prefixes(now, s).prefixes, e.at),
        e.with_prefixes(now, s).at == e.at,
    decreases s.len(),
{
    if s.len() > 0 {
        prefixes_newest_alone(e, now, s.drop_last());
        let f = e.with_prefixes(now, s.drop_last());
        let info = s.last();
        let k = engine::home(info.prefix);
        let n = table::place(f.prefixes, k);
        table::place_bound(f.prefixes, k);
        let g = e.with_prefixes(now, s);
        assert forall|i: int| 0 <= i < g.prefixes.len() implies newest_alone(
            (#[trigger] g.prefixes[i]).1,
            e.at,
        ) by {
            if g.prefixes.len() == f.prefixes.len() {
                assert(newest_alone(f.prefixes[i].1, e.at));
                assert(g.prefixes[i].1.temps == f.prefixes[i].1.temps);
            } else if i < n {
                assert(g.prefixes[i] == f.prefixes[i]);
            } else if i > n {
                assert(g.prefixes[i] == f.prefixes[i - 1]);
            }
        }
    }
}

/// While time goes forward, at most one temporary address of a prefix is
/// preferred, the newest: the others are survivors kept for existing
/// connections. An engine that has heard nothing begins so, and every call
/// keeps it so.
pub proof fn only_the_newest_temporary_address_is_preferred(
    config: engine::Config,
    e: EngineV,
    now: Instant,
    source: Ipv6Addr,
    body: Seq<u8>,
)
    requires
        e.at.nanos <= now.nanos,
        all_newest_alone(e.prefixes, e.at),
    ensures
        all_newest_alone(engine::idle(config).prefixes, engine::idle(config).at),
        ({
            let f = e.tick(now).0;
            all_newest_alone(f.prefixes, f.at) && f.at == now
        }),
        ({
            let f = e.start(now).0;
            all_newest_alone(f.prefixes, f.at) && f.at == now
        }),
        ({
            let f = e.receive(now, source, body).0;
            all_newest_alone(f.prefixes, f.at) && f.at.nanos <= now.nanos
        }),
{
    expired_newest_alone(e, now);
    match super::packet::decoded(body) {
        Some(ra) => {
            let b = e.with_router(now, source, ra);
            prefixes_newest_alone(b, now, ra.prefixes);
            let c = b.with_prefixes(now, ra.prefixes);
            expired_newest_alone(
                EngineV {
                    rdnss: engine::servers_taken(c.rdnss, now, ra.rdnss),
                    dnssl: engine::domains_taken(c.dnssl, now, ra.dnssl),
                    ..c
                },
                now,
            );
        },
        None => {},
    }
}

proof fn refreshed_is_current(s: Prefixes, rng: u64, now: Instant, i: int)
    requires
        now.nanos <= clock::HORIZON,
        0 <= i < engine::refreshed(s, rng, true, now).0.len(),
    ensures
        ({
            let p = engine::refreshed(s, rng, true, now).0[i].1;
            table::ahead(p.preferred_until, now) ==> p.temps.len() > 0
                && p.temps.last().preferred_until.nanos > now.nanos
        }),
    decreases s.len(),
{
    if s.len() > 0 {
        let u = s.drop_last();
        let done = engine::refreshed(u, rng, true, now).0;
        if i < done.len() {
            refreshed_is_current(u, rng, now, i);
            assert(engine::refreshed(s, rng, true, now).0[i] == done[i]);
        }
    }
}

/// After a tick of an engine that forms temporary addresses, every prefix that
/// is preferred has a temporary address that is preferred.
pub proof fn a_preferred_prefix_has_a_preferred_temporary_address(
    e: EngineV,
    now: Instant,
    i: int,
)
    requires
        e.temporary,
        now.nanos <= clock::HORIZON,
        0 <= i < e.tick(now).0.prefixes.len(),
    ensures
        ({
            let p = e.tick(now).0.prefixes[i].1;
            table::ahead(p.preferred_until, now) ==> p.temps.len() > 0
                && p.temps.last().preferred_until.nanos > now.nanos
        }),
{
    refreshed_is_current(engine::valid_prefixes(e.prefixes, now), e.rng, now, i);
}

} // verus!
