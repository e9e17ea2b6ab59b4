//! What every call of the engine keeps.

use vstd::prelude::*;
use crate::addr::Ipv6Addr;
use crate::clock;
use crate::clock::Instant;
use super::engine;
use super::engine::{EngineV, PrefixV, Prefixes};
use super::packet;
use super::packet::{DnsslV, PrefixInfo, RdnssV};
use super::table;
use super::table::{Expiring, Names};

verus! {

proof fn stable_is_usable(secret: Seq<u8>, k: Ipv6Addr, interface: Seq<char>, counter: nat)
    ensures
        !engine::reserved(engine::stable_iid(secret, k, interface, counter) as nat),
    decreases 8 - counter,
{
    if counter < 8 {
        stable_is_usable(secret, k, interface, counter + 1);
    }
}

/// A new temporary address lies in its prefix and is none of those in use.
pub(crate) proof fn new_temp_is_usable(rng: u64, now: Instant, k: Ipv6Addr, p: PrefixV)
    requires
        engine::prefix_ok(k, p),
    ensures
        ({
            let t = engine::new_temp_of(rng, now, k, p).0;
            &&& engine::home(t.address) == k
            &&& !engine::reserved(engine::iid_of(t.address))
            &&& !engine::taken(p, t.address)
        }),
{
    engine::temp_is_free(rng, k, p, engine::MAX_DRAWS as nat);
    engine::joined_facts(k, engine::temp_iid(rng, k, p, engine::MAX_DRAWS as nat).0);
}

proof fn refreshed_keeps(s: Prefixes, rng: u64, temporary: bool, now: Instant)
    requires
        now.nanos <= clock::HORIZON,
        table::ordered(s),
        forall|i: int| 0 <= i < s.len() ==> engine::prefix_ok((#[trigger] s[i]).0, s[i].1),
    ensures
        ({
            let r = engine::refreshed(s, rng, temporary, now).0;
            &&& table::ordered(r)
            &&& r.len() == s.len()
            &&& forall|i: int| 0 <= i < r.len() ==> engine::prefix_ok((#[trigger] r[i]).0, r[i].1)
        }),
    decreases s.len(),
{
    engine::refreshed_ok(s, rng, temporary, now);
    if s.len() > 0 {
        let u = s.drop_last();
        assert forall|i: int| 0 <= i < u.len() implies engine::prefix_ok(
            (#[trigger] u[i]).0,
            u[i].1,
        ) by {
            assert(u[i] == s[i]);
        }
        refreshed_keeps(u, rng, temporary, now);
        let (done, r) = engine::refreshed(u, rng, temporary, now);
        let after = engine::refreshed(s, rng, temporary, now).0;
        let k = s.last().0;
        assert(s[s.len() - 1] == s.last());
        engine::pruned_ok(k, s.last().1, now);
        let p = engine::pruned(s.last().1, now);
        if temporary && engine::wants_temp(p, now) {
            engine::roomy_ok(k, p);
            let q = engine::roomy(p);
            new_temp_is_usable(r, now, k, q);
            engine::pushed_ok(k, q, engine::new_temp_of(r, now, k, q).0);
        }
        assert forall|i: int| 0 <= i < after.len() implies engine::prefix_ok(
            (#[trigger] after[i]).0,
            after[i].1,
        ) by {
            if i < done.len() {
                assert(after[i] == done[i]);
            }
        }
    }
}

/// Dropping what is outdated keeps the invariant.
pub(crate) proof fn expired_keeps(e: EngineV, now: Instant)
    requires
        e.wf(),
        now.nanos <= clock::HORIZON,
    ensures
        e.expired(now).wf(),
{
    table::live_ordered(e.routers, now);
    table::live_ordered(e.rdnss, now);
    table::live_names_ordered(e.dnssl, now);
    engine::valid_prefixes_ok(e.prefixes, now);
    refreshed_keeps(engine::valid_prefixes(e.prefixes, now), e.rng, e.temporary, now);
}

proof fn prefix_keeps(e: EngineV, now: Instant, info: PrefixInfo)
    requires
        e.wf(),
        now.nanos <= clock::HORIZON,
    ensures
        e.with_prefix(now, info).wf(),
{
    let k = engine::home(info.prefix);
    let n = table::place(e.prefixes, k);
    table::place_bound(e.prefixes, k);
    let f = e.with_prefix(now, info);
    if !info.autonomous || info.length != 64 || info.preferred > info.valid {
    } else if n < e.prefixes.len() && e.prefixes[n].0 == k {
        assert(engine::prefix_ok(e.prefixes[n].0, e.prefixes[n].1));
        assert forall|i: int| 0 <= i < f.prefixes.len() implies engine::prefix_ok(
            (#[trigger] f.prefixes[i]).0,
            f.prefixes[i].1,
        ) by {
            if i != n {
                assert(f.prefixes[i] == e.prefixes[i]);
            }
        }
    } else if info.valid > 0 {
        engine::joined_facts(info.prefix, 0);
        stable_is_usable(e.secret, k, e.interface, 0);
        engine::joined_facts(k, engine::stable_iid(e.secret, k, e.interface, 0));
        let p = PrefixV {
            on_link: info.on_link,
            valid_until: engine::until_time(now, info.valid),
            preferred_until: engine::until_time(now, info.preferred),
            stable: engine::stable_of(e.secret, k, e.interface),
            temps: Seq::empty(),
        };
        assert(engine::home(k) == k);
        assert(engine::prefix_ok(k, p));
        new_temp_is_usable(e.rng, now, k, p);
        let t = engine::new_temp_of(e.rng, now, k, p).0;
        engine::pushed_ok(k, p, t);
        assert(p.temps.push(t) =~= seq![t]);
        table::put_ordered(e.prefixes, k, f.prefixes[n].1);
        assert(f.prefixes =~= table::put(e.prefixes, k, f.prefixes[n].1));
        assert forall|i: int| 0 <= i < f.prefixes.len() implies engine::prefix_ok(
            (#[trigger] f.prefixes[i]).0,
            f.prefixes[i].1,
        ) by {
            if i < n {
                assert(f.prefixes[i] == e.prefixes[i]);
            } else if i > n {
                assert(f.prefixes[i] == e.prefixes[i - 1]);
            }
        }
    }
}

/// Taking in advertised prefixes keeps the invariant.
pub(crate) proof fn prefixes_keep(e: EngineV, now: Instant, s: Seq<PrefixInfo>)
    requires
        e.wf(),
        now.nanos <= clock::HORIZON,
    ensures
        e.with_prefixes(now, s).wf(),
    decreases s.len(),
{
    if s.len() > 0 {
        prefixes_keep(e, now, s.drop_last());
        prefix_keeps(e.with_prefixes(now, s.drop_last()), now, s.last());
    }
}

proof fn server_list_keeps(s: Expiring, now: Instant, lifetime: u32, servers: Seq<Ipv6Addr>)
    requires
        table::ordered(s),
    ensures
        table::ordered(engine::server_list_taken(s, now, lifetime, servers)),
    decreases servers.len(),
{
    if servers.len() > 0 {
        server_list_keeps(s, now, lifetime, servers.drop_last());
        let before = engine::server_list_taken(s, now, lifetime, servers.drop_last());
        table::without_ordered(before, servers.last());
        table::put_ordered(before, servers.last(), engine::until_time(now, lifetime));
    }
}

proof fn servers_keep(s: Expiring, now: Instant, r: Seq<RdnssV>)
    requires
        table::ordered(s),
    ensures
        table::ordered(engine::servers_taken(s, now, r)),
    decreases r.len(),
{
    if r.len() > 0 {
        servers_keep(s, now, r.drop_last());
        server_list_keeps(
            engine::servers_taken(s, now, r.drop_last()),
            now,
            r.last().lifetime,
            r.last().servers,
        );
    }
}

proof fn domain_list_keeps(s: Names, now: Instant, lifetime: u32, domains: Seq<Seq<char>>)
    requires
        table::names_ordered(s),
    ensures
        table::names_ordered(engine::domain_list_taken(s, now, lifetime, domains)),
    decreases domains.len(),
{
    if domains.len() > 0 {
        domain_list_keeps(s, now, lifetime, domains.drop_last());
        let before = engine::domain_list_taken(s, now, lifetime, domains.drop_last());
        table::name_without_ordered(before, domains.last());
        table::name_put_ordered(before, domains.last(), engine::until_time(now, lifetime));
    }
}

proof fn domains_keep(s: Names, now: Instant, d: Seq<DnsslV>)
    requires
        table::names_ordered(s),
    ensures
        table::names_ordered(engine::domains_taken(s, now, d)),
    decreases d.len(),
{
    if d.len() > 0 {
        domains_keep(s, now, d.drop_last());
        domain_list_keeps(
            engine::domains_taken(s, now, d.drop_last()),
            now,
            d.last().lifetime,
            d.last().domains,
        );
    }
}

/// The invariant of the engine holds of one that has heard nothing, and every
/// call keeps it, whatever the network does.
pub proof fn the_invariant_is_kept(
    config: engine::Config,
    e: EngineV,
    now: Instant,
    source: Ipv6Addr,
    body: Seq<u8>,
)
    requires
        e.wf(),
        now.nanos <= clock::HORIZON,
    ensures
        engine::idle(config).wf(),
        e.tick(now).0.wf(),
        e.start(now).0.wf(),
        e.receive(now, source, body).0.wf(),
{
    expired_keeps(e, now);
    expired_keeps(
        EngineV {
            solicits: 0,
            interval: (clock::Duration { nanos: engine::SOLICIT_INTERVAL }),
            solicit_at: Some(now),
            ..e
        },
        now,
    );
    match packet::decoded(body) {
        Some(ra) => {
            table::put_ordered(
                e.routers,
                source,
                Some(Instant { nanos: (now.nanos + ra.router_lifetime * 1_000_000_000) as u64 }),
            );
            table::without_ordered(e.routers, source);
            let b = e.with_router(now, source, ra);
            prefixes_keep(b, now, ra.prefixes);
            let c = b.with_prefixes(now, ra.prefixes);
            servers_keep(c.rdnss, now, ra.rdnss);
            domains_keep(c.dnssl, now, ra.dnssl);
            expired_keeps(
                EngineV {
                    rdnss: engine::servers_taken(c.rdnss, now, ra.rdnss),
                    dnssl: engine::domains_taken(c.dnssl, now, ra.dnssl),
                    ..c
                },
                now,
            );
        },
        None => {},
    }
}

} // verus!
