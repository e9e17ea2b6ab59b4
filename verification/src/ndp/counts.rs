//! How many addresses a run of calls leaves.

use vstd::prelude::*;
use crate::addr::Ipv6Addr;
use crate::clock;
use crate::clock::Instant;
use super::engine;
use super::engine::{DesiredAddress, EngineV, PrefixV, Prefixes};
use super::kept;
use super::laws;
use super::lifetimes;
use super::packet;
use super::repeats;
use super::table;

verus! {

/// A call of the engine.
pub enum Call {
    Start,
    Tick,
    /// An advertisement from this source.
    Receive(Ipv6Addr, Seq<u8>),
}

/// The engine after these calls, each at its time.
pub open spec fn after(e: EngineV, run: Seq<(Instant, Call)>) -> EngineV
    decreases run.len(),
{
    if run.len() == 0 {
        e
    } else {
        let before = after(e, run.drop_last());
        let now = run.last().0;
        match run.last().1 {
            Call::Start => before.start(now).0,
            Call::Tick => before.tick(now).0,
            Call::Receive(source, body) => before.receive(now, source, body).0,
        }
    }
}

/// Whether time goes forward from call to call.
pub open spec fn forward(run: Seq<(Instant, Call)>) -> bool {
    &&& forall|i: int| 0 <= i < run.len() ==> (#[trigger] run[i]).0.nanos <= clock::HORIZON
    &&& forall|i: int, j: int|
        0 <= i <= j < run.len() ==> (#[trigger] run[i]).0.nanos <= (#[trigger] run[j]).0.nanos
}

/// How many of these are such.
pub open spec fn tally(s: Seq<DesiredAddress>, f: spec_fn(DesiredAddress) -> bool) -> nat
    decreases s.len(),
{
    if s.len() == 0 {
        0
    } else {
        tally(s.drop_last(), f) + if f(s.last()) {
            1nat
        } else {
            0nat
        }
    }
}

/// An address of this prefix.
pub open spec fn of_prefix(k: Ipv6Addr) -> spec_fn(DesiredAddress) -> bool {
    |x: DesiredAddress| engine::home(x.address) == k
}

/// A temporary address of this prefix, told apart from its stable one, that is
/// not deprecated.
pub open spec fn fresh(k: Ipv6Addr, stable: Ipv6Addr) -> spec_fn(DesiredAddress) -> bool {
    |x: DesiredAddress| engine::home(x.address) == k && x.address != stable && !x.deprecated
}

spec fn one(b: bool) -> nat {
    if b {
        1
    } else {
        0
    }
}

proof fn tally_insert(
    s: Seq<DesiredAddress>,
    n: int,
    x: DesiredAddress,
    f: spec_fn(DesiredAddress) -> bool,
)
    requires
        0 <= n <= s.len(),
    ensures
        tally(s.insert(n, x), f) == tally(s, f) + one(f(x)),
    decreases s.len(),
{
    let t = s.insert(n, x);
    if n == s.len() {
        assert(t.drop_last() =~= s);
    } else {
        tally_insert(s.drop_last(), n, x, f);
        assert(t.drop_last() =~= s.drop_last().insert(n, x));
        assert(t.last() == s.last());
    }
}

proof fn tally_placed(
    s: Seq<DesiredAddress>,
    x: DesiredAddress,
    f: spec_fn(DesiredAddress) -> bool,
)
    ensures
        tally(engine::placed(s, x), f) == tally(s, f) + one(f(x)),
{
    engine::rank_bound(s, x);
    tally_insert(s, engine::rank(s, x), x, f);
}

proof fn temps_at_most(
    acc: Seq<DesiredAddress>,
    p: PrefixV,
    n: nat,
    t: Instant,
    f: spec_fn(DesiredAddress) -> bool,
)
    ensures
        tally(acc, f) <= tally(engine::temps_placed(acc, p, n, t), f) <= tally(acc, f) + n,
    decreases n,
{
    if n > 0 {
        let m = (n - 1) as nat;
        temps_at_most(acc, p, m, t, f);
        tally_placed(
            engine::temps_placed(acc, p, m, t),
            engine::temp_wanted(p, p.temps[n - 1], t),
            f,
        );
    }
}

/// Addresses of one prefix do not count for another.
proof fn temps_elsewhere(
    acc: Seq<DesiredAddress>,
    h: Ipv6Addr,
    p: PrefixV,
    n: nat,
    t: Instant,
    k: Ipv6Addr,
    f: spec_fn(DesiredAddress) -> bool,
)
    requires
        engine::prefix_ok(h, p),
        h != k,
        n <= p.temps.len(),
        forall|x: DesiredAddress| #[trigger] f(x) ==> engine::home(x.address) == k,
    ensures
        tally(engine::temps_placed(acc, p, n, t), f) == tally(acc, f),
    decreases n,
{
    if n > 0 {
        let m = (n - 1) as nat;
        temps_elsewhere(acc, h, p, m, t, k, f);
        assert(engine::home(p.temps[n - 1].address) == h);
        let x = engine::temp_wanted(p, p.temps[n - 1], t);
        assert(!f(x));
        tally_placed(engine::temps_placed(acc, p, m, t), x, f);
    }
}

proof fn sound_before(s: Prefixes)
    requires
        lifetimes::sound(s),
        s.len() > 0,
    ensures
        lifetimes::sound(s.drop_last()),
        engine::prefix_ok(s.last().0, s.last().1),
        forall|i: int| 0 <= i < s.len() - 1 ==> (#[trigger] s.drop_last()[i]).0 != s.last().0,
{
    let u = s.drop_last();
    assert forall|i: int| 0 <= i < u.len() implies engine::prefix_ok((#[trigger] u[i]).0, u[i].1) by {
        assert(u[i] == s[i]);
    }
    assert(s[s.len() - 1] == s.last());
    assert forall|i: int| 0 <= i < s.len() - 1 implies (#[trigger] u[i]).0 != s.last().0 by {
        assert(u[i] == s[i]);
    }
}

proof fn none_elsewhere(
    s: Prefixes,
    t: Instant,
    k: Ipv6Addr,
    f: spec_fn(DesiredAddress) -> bool,
)
    requires
        lifetimes::sound(s),
        forall|i: int| 0 <= i < s.len() ==> (#[trigger] s[i]).0 != k,
        forall|x: DesiredAddress| #[trigger] f(x) ==> engine::home(x.address) == k,
    ensures
        tally(engine::wanted(s, t), f) == 0,
    decreases s.len(),
{
    if s.len() > 0 {
        let u = s.drop_last();
        sound_before(s);
        assert forall|i: int| 0 <= i < u.len() implies (#[trigger] u[i]).0 != k by {
            assert(u[i] == s[i]);
        }
        none_elsewhere(u, t, k, f);
        assert(s[s.len() - 1] == s.last());
        let p = s.last().1;
        let x = engine::stable_wanted(p, t);
        assert(!f(x));
        let before = engine::wanted(u, t);
        tally_placed(before, x, f);
        temps_elsewhere(engine::placed(before, x), s.last().0, p, p.temps.len(), t, k, f);
    }
}

/// The count for a prefix is the count over its own addresses.
proof fn counted_where_held(
    s: Prefixes,
    j: int,
    t: Instant,
    f: spec_fn(DesiredAddress) -> bool,
) -> (acc: Seq<DesiredAddress>)
    requires
        lifetimes::sound(s),
        0 <= j < s.len(),
        forall|x: DesiredAddress| #[trigger] f(x) ==> engine::home(x.address) == s[j].0,
    ensures
        tally(acc, f) == 0,
        tally(engine::wanted(s, t), f) == (if table::ahead(s[j].1.valid_until, t) {
            tally(
                engine::temps_placed(
                    engine::placed(acc, engine::stable_wanted(s[j].1, t)),
                    s[j].1,
                    s[j].1.temps.len(),
                    t,
                ),
                f,
            )
        } else {
            0
        }),
    decreases s.len(),
{
    let u = s.drop_last();
    let k = s[j].0;
    sound_before(s);
    if j == s.len() - 1 {
        none_elsewhere(u, t, k, f);
        engine::wanted(u, t)
    } else {
        assert(u[j] == s[j]);
        let acc = counted_where_held(u, j, t, f);
        let p = s.last().1;
        assert(s.last().0 != k);
        let x = engine::stable_wanted(p, t);
        assert(!f(x));
        let before = engine::wanted(u, t);
        tally_placed(before, x, f);
        temps_elsewhere(engine::placed(before, x), s.last().0, p, p.temps.len(), t, k, f);
        acc
    }
}

/// Whatever the network does, a prefix has at most one stable address and a few
/// temporary ones.
pub proof fn a_prefix_has_few_addresses(e: EngineV, k: Ipv6Addr, t: Instant)
    requires
        e.wf(),
    ensures
        tally(e.sight(t).addresses, of_prefix(k)) <= 1 + engine::MAX_TEMPS,
{
    let s = e.prefixes;
    let f = of_prefix(k);
    lifetimes::held_is(s, k);
    match lifetimes::held(s, k) {
        Some(p) => {
            let j = choose|i: int| 0 <= i < s.len() && #[trigger] s[i] == (k, p);
            assert(engine::prefix_ok(s[j].0, s[j].1));
            let acc = counted_where_held(s, j, t, f);
            let x = engine::stable_wanted(p, t);
            tally_placed(acc, x, f);
            temps_at_most(engine::placed(acc, x), p, p.temps.len(), t, f);
        },
        None => {
            none_elsewhere(s, t, k, f);
        },
    }
}

/// Whether the temporary addresses of every prefix are kept up to the last call:
/// the outdated are gone, none but the newest is preferred, and where the prefix
/// is preferred there is a newest that is.
pub open spec fn up_to_date(e: EngineV) -> bool {
    &&& laws::all_newest_alone(e.prefixes, e.at)
    &&& forall|i: int|
        0 <= i < e.prefixes.len() ==> repeats::kept_up(
            (#[trigger] e.prefixes[i]).1,
            e.temporary,
            e.at,
        )
}

proof fn expired_is_up_to_date(e: EngineV, now: Instant)
    requires
        e.wf(),
        e.at.nanos <= now.nanos <= clock::HORIZON,
        laws::all_newest_alone(e.prefixes, e.at),
    ensures
        up_to_date(e.expired(now)),
        e.expired(now).at == now,
        e.expired(now).temporary == e.temporary,
{
    laws::expired_newest_alone(e, now);
    let v = engine::valid_prefixes(e.prefixes, now);
    repeats::valid_prefixes_are(e.prefixes, now);
    repeats::refreshed_is(v, e.rng, e.temporary, now);
}

proof fn fresh_counted(
    acc: Seq<DesiredAddress>,
    k: Ipv6Addr,
    p: PrefixV,
    n: nat,
    now: Instant,
)
    requires
        engine::prefix_ok(k, p),
        n <= p.temps.len(),
        table::ahead(p.preferred_until, now),
        laws::newest_alone(p, now),
        repeats::kept_up(p, true, now),
    ensures
        tally(engine::temps_placed(acc, p, n, now), fresh(k, p.stable)) == tally(
            acc,
            fresh(k, p.stable),
        ) + one(n == p.temps.len() && n > 0),
    decreases n,
{
    if n > 0 {
        let m = (n - 1) as nat;
        let f = fresh(k, p.stable);
        fresh_counted(acc, k, p, m, now);
        let temp = p.temps[n - 1];
        assert(temp.valid_until.nanos > now.nanos);
        assert(engine::home(temp.address) == k && temp.address != p.stable);
        let x = engine::temp_wanted(p, temp, now);
        tally_placed(engine::temps_placed(acc, p, m, now), x, f);
        if n < p.temps.len() {
            assert(p.temps[n - 1].preferred_until.nanos <= now.nanos);
        } else {
            assert(p.temps.last() == temp);
        }
    }
}

/// The calls keep the engine sound and its temporary addresses up to date.
proof fn a_run_keeps_up(config: engine::Config, run: Seq<(Instant, Call)>)
    requires
        forward(run),
    ensures
        ({
            let f = after(engine::idle(config), run);
            &&& f.wf()
            &&& up_to_date(f)
            &&& f.temporary == config.temporary
            &&& f.at.nanos <= clock::HORIZON
            &&& run.len() == 0 ==> f.at.nanos == 0
            &&& run.len() > 0 ==> f.at.nanos <= run.last().0.nanos
        }),
    decreases run.len(),
{
    let start = engine::idle(config);
    if run.len() == 0 {
        kept::the_invariant_is_kept(
            config,
            start,
            Instant { nanos: 0 },
            Ipv6Addr { bits: 0 },
            Seq::empty(),
        );
    } else {
        let earlier = run.drop_last();
        assert(forward(earlier)) by {
            assert forall|i: int| 0 <= i < earlier.len() implies (
            #[trigger] earlier[i]).0.nanos <= clock::HORIZON by {
                assert(earlier[i] == run[i]);
            }
            assert forall|i: int, j: int| 0 <= i <= j < earlier.len() implies (
            #[trigger] earlier[i]).0.nanos <= (#[trigger] earlier[j]).0.nanos by {
                assert(earlier[i] == run[i] && earlier[j] == run[j]);
            }
        }
        a_run_keeps_up(config, earlier);
        let e = after(start, earlier);
        let now = run.last().0;
        assert(run[run.len() - 1] == run.last());
        if earlier.len() > 0 {
            assert(run[earlier.len() - 1] == earlier.last());
            assert(run[earlier.len() - 1].0.nanos <= run[run.len() - 1].0.nanos);
        }
        match run.last().1 {
            Call::Start => {
                kept::the_invariant_is_kept(config, e, now, Ipv6Addr { bits: 0 }, Seq::empty());
                let g = EngineV {
                    solicits: 0,
                    interval: (clock::Duration { nanos: engine::SOLICIT_INTERVAL }),
                    solicit_at: Some(now),
                    ..e
                };
                expired_is_up_to_date(g, now);
                assert(e.start(now).0.prefixes == g.expired(now).prefixes);
            },
            Call::Tick => {
                kept::the_invariant_is_kept(config, e, now, Ipv6Addr { bits: 0 }, Seq::empty());
                expired_is_up_to_date(e, now);
                assert(e.tick(now).0.prefixes == e.expired(now).prefixes);
            },
            Call::Receive(source, body) => {
                kept::the_invariant_is_kept(config, e, now, source, body);
                if packet::decoded(body) is Some {
                    received_is_up_to_date(e, now, source, body);
                }
            },
        }
    }
}

proof fn received_is_up_to_date(e: EngineV, now: Instant, source: Ipv6Addr, body: Seq<u8>)
    requires
        e.wf(),
        e.at.nanos <= now.nanos <= clock::HORIZON,
        laws::all_newest_alone(e.prefixes, e.at),
        packet::decoded(body) is Some,
    ensures
        ({
            let f = e.receive(now, source, body).0;
            up_to_date(f) && f.at == now && f.temporary == e.temporary
        }),
{
    let ra = packet::decoded(body)->0;
    let b = e.with_router(now, source, ra);
    table::put_ordered(
        e.routers,
        source,
        Some(Instant { nanos: (now.nanos + ra.router_lifetime * 1_000_000_000) as u64 }),
    );
    table::without_ordered(e.routers, source);
    laws::prefixes_newest_alone(b, now, ra.prefixes);
    kept::prefixes_keep(b, now, ra.prefixes);
    let c = b.with_prefixes(now, ra.prefixes);
    lifetimes::identity_stays(b, now, ra.prefixes);
    expired_is_up_to_date(c, now);
    let d = EngineV {
        rdnss: engine::servers_taken(c.rdnss, now, ra.rdnss),
        dnssl: engine::domains_taken(c.dnssl, now, ra.dnssl),
        ..c
    };
    assert(d.expired(now).prefixes == c.expired(now).prefixes);
}

/// Over any run of calls on a new engine, while time goes forward: of a prefix
/// there are never more than its stable address and a few temporary ones; and, at
/// the last call that was heeded, where the engine forms temporary addresses and
/// the prefix is valid and preferred, its stable address is there, and exactly
/// one temporary address is not deprecated.
pub proof fn a_run_of_calls_leaves_few_addresses(
    config: engine::Config,
    run: Seq<(Instant, Call)>,
    k: Ipv6Addr,
    t: Instant,
)
    requires
        forward(run),
    ensures
        ({
            let f = after(engine::idle(config), run);
            &&& f.wf()
            &&& tally(f.sight(t).addresses, of_prefix(k)) <= 1 + engine::MAX_TEMPS
            &&& config.temporary ==> (lifetimes::held(f.prefixes, k) matches Some(p) ==> (
            table::ahead(p.valid_until, f.at) && table::ahead(p.preferred_until, f.at) ==> {
                &&& lifetimes::carries(f.sight(f.at).addresses, p.stable)
                &&& tally(f.sight(f.at).addresses, fresh(k, p.stable)) == 1
            }))
        }),
{
    a_run_keeps_up(config, run);
    let f = after(engine::idle(config), run);
    a_prefix_has_few_addresses(f, k, t);
    let s = f.prefixes;
    lifetimes::held_is(s, k);
    if let Some(p) = lifetimes::held(s, k) {
        let j = choose|i: int| 0 <= i < s.len() && #[trigger] s[i] == (k, p);
        assert(engine::prefix_ok(s[j].0, s[j].1));
        if config.temporary && table::ahead(p.valid_until, f.at) && table::ahead(
            p.preferred_until,
            f.at,
        ) {
            let g = fresh(k, p.stable);
            let acc = counted_where_held(s, j, f.at, g);
            let x = engine::stable_wanted(p, f.at);
            tally_placed(acc, x, g);
            assert(!g(x));
            assert(repeats::kept_up(s[j].1, true, f.at));
            assert(laws::newest_alone(s[j].1, f.at));
            fresh_counted(engine::placed(acc, x), k, p, p.temps.len(), f.at);
            lifetimes::carried_while_valid(s, k, p.stable, f.at);
        }
    }
}

} // verus!
