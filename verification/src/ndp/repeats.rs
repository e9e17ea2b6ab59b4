//! The same advertisement again changes nothing.

use vstd::prelude::*;
use crate::addr::Ipv6Addr;
use crate::clock;
use crate::clock::Instant;
use crate::text;
use super::engine;
use super::engine::{ActionV, EngineV, PrefixV, Prefixes, Temp};
use super::packet;
use super::packet::{DnsslV, PrefixInfo, RdnssV, RouterAdvertV};
use super::table;
use super::table::{Expiring, Names};

verus! {

// ---- lists of servers and routers ------------------------------------------

proof fn same_entries(a: Expiring, b: Expiring)
    requires
        table::ordered(a),
        table::ordered(b),
        forall|x: (Ipv6Addr, Option<Instant>)| #[trigger] a.contains(x) <==> b.contains(x),
    ensures
        a == b,
    decreases a.len(),
{
    if a.len() == 0 || b.len() == 0 {
        if b.len() > 0 {
            assert(b.contains(b[0]));
            assert(a.contains(b[0]));
        }
        if a.len() > 0 {
            assert(a.contains(a[0]));
        }
        assert(a =~= b);
    } else {
        let n = a.len() - 1;
        let m = b.len() - 1;
        assert(a.contains(a[n]));
        assert(b.contains(b[m]));
        assert(a.contains(b[m]));
        let j = choose|j: int| 0 <= j < b.len() && b[j] == a[n];
        let i = choose|i: int| 0 <= i < a.len() && a[i] == b[m];
        assert(a[n] == b[m]);
        let c = a.drop_last();
        let d = b.drop_last();
        assert forall|x: (Ipv6Addr, Option<Instant>)| #[trigger] c.contains(x) <==> d.contains(
            x,
        ) by {
            if c.contains(x) {
                let p = choose|p: int| 0 <= p < c.len() && c[p] == x;
                assert(a[p] == x);
                assert(a.contains(x));
                let q = choose|q: int| 0 <= q < b.len() && b[q] == x;
                assert(q < m);
                assert(d[q] == x);
            }
            if d.contains(x) {
                let q = choose|q: int| 0 <= q < d.len() && d[q] == x;
                assert(b[q] == x);
                assert(b.contains(x));
                assert(a.contains(x));
                let p = choose|p: int| 0 <= p < a.len() && a[p] == x;
                assert(p < n);
                assert(c[p] == x);
            }
        }
        same_entries(c, d);
        assert(a =~= c.push(a[n]));
        assert(b =~= d.push(b[m]));
    }
}

pub(crate) proof fn put_holds(s: Expiring, k: Ipv6Addr, v: Option<Instant>, x: (Ipv6Addr, Option<Instant>))
    requires
        table::ordered(s),
    ensures
        table::put(s, k, v).contains(x) <==> if x.0 == k {
            x.1 == v
        } else {
            s.contains(x)
        },
{
    table::place_bound(s, k);
    let i = table::place(s, k);
    let t = table::put(s, k, v);
    assert(t[i] == (k, v));
    if s.contains(x) && x.0 != k {
        let j = choose|j: int| 0 <= j < s.len() && s[j] == x;
        if i < s.len() && s[i].0 == k {
            assert(t[j] == x);
        } else if j < i {
            assert(t[j] == x);
        } else {
            assert(t[j + 1] == x);
        }
    }
    if t.contains(x) {
        let j = choose|j: int| 0 <= j < t.len() && t[j] == x;
        if i < s.len() && s[i].0 == k {
            if j != i {
                assert(s[j] == x);
            }
        } else if j < i {
            assert(s[j] == x);
        } else if j > i {
            assert(s[j - 1] == x);
        }
    }
}

pub(crate) proof fn without_holds(s: Expiring, k: Ipv6Addr, x: (Ipv6Addr, Option<Instant>))
    requires
        table::ordered(s),
    ensures
        table::without(s, k).contains(x) <==> x.0 != k && s.contains(x),
{
    table::place_bound(s, k);
    let i = table::place(s, k);
    let t = table::without(s, k);
    if s.contains(x) && x.0 != k {
        let j = choose|j: int| 0 <= j < s.len() && s[j] == x;
        if i < s.len() && s[i].0 == k {
            if j < i {
                assert(t[j] == x);
            } else {
                assert(t[j - 1] == x);
            }
        }
    }
    if t.contains(x) {
        let j = choose|j: int| 0 <= j < t.len() && t[j] == x;
        if i < s.len() && s[i].0 == k {
            if j < i {
                assert(s[j] == x);
            } else {
                assert(s[j + 1] == x);
            }
        } else {
            assert(s[j] == x);
        }
    }
}

pub(crate) proof fn live_holds(s: Expiring, now: Instant, x: (Ipv6Addr, Option<Instant>))
    ensures
        table::live(s, now).contains(x) <==> s.contains(x) && table::ahead(x.1, now),
    decreases s.len(),
{
    if s.len() > 0 {
        let t = s.drop_last();
        live_holds(t, now, x);
        let l = table::live(t, now);
        let whole = table::live(s, now);
        assert(s.contains(x) <==> t.contains(x) || x == s.last()) by {
            if t.contains(x) {
                let j = choose|j: int| 0 <= j < t.len() && t[j] == x;
                assert(s[j] == x);
            }
            assert(s[s.len() - 1] == s.last());
            if s.contains(x) {
                let j = choose|j: int| 0 <= j < s.len() && s[j] == x;
                if j < t.len() {
                    assert(t[j] == x);
                }
            }
        }
        if table::ahead(s.last().1, now) {
            assert(whole.contains(x) <==> l.contains(x) || x == s.last()) by {
                if l.contains(x) {
                    let j = choose|j: int| 0 <= j < l.len() && l[j] == x;
                    assert(whole[j] == x);
                }
                assert(whole[l.len() as int] == s.last());
                if whole.contains(x) {
                    let j = choose|j: int| 0 <= j < whole.len() && whole[j] == x;
                    if j < l.len() {
                        assert(l[j] == x);
                    }
                }
            }
        }
    }
}

/// What becomes of a key: nothing, or that it is gone, or that it has this
/// expiry.
enum Fate {
    Untouched,
    Gone,
    Until(Option<Instant>),
}

spec fn fate_of(now: Instant, lifetime: u32) -> Fate {
    if lifetime == 0 {
        Fate::Gone
    } else {
        Fate::Until(engine::until_time(now, lifetime))
    }
}

spec fn list_fate(now: Instant, lifetime: u32, servers: Seq<Ipv6Addr>, k: Ipv6Addr, f: Fate) -> Fate
    decreases servers.len(),
{
    if servers.len() == 0 {
        f
    } else if servers.last() == k {
        fate_of(now, lifetime)
    } else {
        list_fate(now, lifetime, servers.drop_last(), k, f)
    }
}

spec fn server_fate(now: Instant, r: Seq<RdnssV>, k: Ipv6Addr) -> Fate
    decreases r.len(),
{
    if r.len() == 0 {
        Fate::Untouched
    } else {
        list_fate(
            now,
            r.last().lifetime,
            r.last().servers,
            k,
            server_fate(now, r.drop_last(), k),
        )
    }
}

/// Whether a key with this fate has this expiry, given whether it had it.
spec fn left_with(f: Fate, e: Option<Instant>, had: bool) -> bool {
    match f {
        Fate::Untouched => had,
        Fate::Gone => false,
        Fate::Until(v) => e == v,
    }
}

proof fn list_holds(
    s: Expiring,
    now: Instant,
    lifetime: u32,
    servers: Seq<Ipv6Addr>,
    x: (Ipv6Addr, Option<Instant>),
    f: Fate,
    had: bool,
)
    requires
        table::ordered(s),
        s.contains(x) <==> left_with(f, x.1, had),
    ensures
        table::ordered(engine::server_list_taken(s, now, lifetime, servers)),
        engine::server_list_taken(s, now, lifetime, servers).contains(x) <==> left_with(
            list_fate(now, lifetime, servers, x.0, f),
            x.1,
            had,
        ),
    decreases servers.len(),
{
    if servers.len() > 0 {
        list_holds(s, now, lifetime, servers.drop_last(), x, f, had);
        let before = engine::server_list_taken(s, now, lifetime, servers.drop_last());
        let k = servers.last();
        if lifetime == 0 {
            table::without_ordered(before, k);
            without_holds(before, k, x);
        } else {
            table::put_ordered(before, k, engine::until_time(now, lifetime));
            put_holds(before, k, engine::until_time(now, lifetime), x);
        }
    }
}

proof fn servers_hold(s: Expiring, now: Instant, r: Seq<RdnssV>, x: (Ipv6Addr, Option<Instant>))
    requires
        table::ordered(s),
    ensures
        table::ordered(engine::servers_taken(s, now, r)),
        engine::servers_taken(s, now, r).contains(x) <==> left_with(
            server_fate(now, r, x.0),
            x.1,
            s.contains(x),
        ),
    decreases r.len(),
{
    if r.len() > 0 {
        servers_hold(s, now, r.drop_last(), x);
        list_holds(
            engine::servers_taken(s, now, r.drop_last()),
            now,
            r.last().lifetime,
            r.last().servers,
            x,
            server_fate(now, r.drop_last(), x.0),
            s.contains(x),
        );
    }
}

proof fn servers_again(s: Expiring, now: Instant, r: Seq<RdnssV>)
    requires
        table::ordered(s),
    ensures
        ({
            let once = table::live(engine::servers_taken(s, now, r), now);
            table::live(engine::servers_taken(once, now, r), now) == once
        }),
{
    let first = engine::servers_taken(s, now, r);
    let once = table::live(first, now);
    let arbitrary = (Ipv6Addr { bits: 0 }, None::<Instant>);
    servers_hold(s, now, r, arbitrary);
    table::live_ordered(first, now);
    servers_hold(once, now, r, arbitrary);
    let second = engine::servers_taken(once, now, r);
    let twice = table::live(second, now);
    table::live_ordered(second, now);
    assert forall|x: (Ipv6Addr, Option<Instant>)| #[trigger] twice.contains(x) <==> once.contains(
        x,
    ) by {
        servers_hold(s, now, r, x);
        servers_hold(once, now, r, x);
        live_holds(first, now, x);
        live_holds(second, now, x);
    }
    same_entries(twice, once);
}

proof fn router_again(s: Expiring, now: Instant, k: Ipv6Addr, e: Option<Instant>)
    requires
        table::ordered(s),
    ensures
        ({
            let once = table::live(table::put(s, k, e), now);
            table::live(table::put(once, k, e), now) == once
        }),
        ({
            let once = table::live(table::without(s, k), now);
            table::live(table::without(once, k), now) == once
        }),
{
    let put = table::put(s, k, e);
    table::put_ordered(s, k, e);
    let once = table::live(put, now);
    table::live_ordered(put, now);
    let again = table::put(once, k, e);
    table::put_ordered(once, k, e);
    let twice = table::live(again, now);
    table::live_ordered(again, now);
    assert forall|x: (Ipv6Addr, Option<Instant>)| #[trigger] twice.contains(x) <==> once.contains(
        x,
    ) by {
        put_holds(s, k, e, x);
        put_holds(once, k, e, x);
        live_holds(put, now, x);
        live_holds(again, now, x);
    }
    same_entries(twice, once);
    let cut = table::without(s, k);
    table::without_ordered(s, k);
    let once = table::live(cut, now);
    table::live_ordered(cut, now);
    let again = table::without(once, k);
    table::without_ordered(once, k);
    let twice = table::live(again, now);
    table::live_ordered(again, now);
    assert forall|x: (Ipv6Addr, Option<Instant>)| #[trigger] twice.contains(x) <==> once.contains(
        x,
    ) by {
        without_holds(s, k, x);
        without_holds(once, k, x);
        live_holds(cut, now, x);
        live_holds(again, now, x);
    }
    same_entries(twice, once);
}

// ---- lists of names --------------------------------------------------------

proof fn same_names(a: Names, b: Names)
    requires
        table::names_ordered(a),
        table::names_ordered(b),
        forall|x: (Seq<char>, Option<Instant>)| #[trigger] a.contains(x) <==> b.contains(x),
    ensures
        a == b,
    decreases a.len(),
{
    if a.len() == 0 || b.len() == 0 {
        if b.len() > 0 {
            assert(b.contains(b[0]));
            assert(a.contains(b[0]));
        }
        if a.len() > 0 {
            assert(a.contains(a[0]));
        }
        assert(a =~= b);
    } else {
        let n = a.len() - 1;
        let m = b.len() - 1;
        assert(a.contains(a[n]));
        assert(b.contains(b[m]));
        assert(a.contains(b[m]));
        let j = choose|j: int| 0 <= j < b.len() && b[j] == a[n];
        let i = choose|i: int| 0 <= i < a.len() && a[i] == b[m];
        text::before_total(a[n].0, b[m].0);
        assert(a[n] == b[m]);
        text::before_total(a[n].0, a[n].0);
        let c = a.drop_last();
        let d = b.drop_last();
        assert forall|x: (Seq<char>, Option<Instant>)| #[trigger] c.contains(x) <==> d.contains(
            x,
        ) by {
            if c.contains(x) {
                let p = choose|p: int| 0 <= p < c.len() && c[p] == x;
                assert(a[p] == x);
                assert(a.contains(x));
                let q = choose|q: int| 0 <= q < b.len() && b[q] == x;
                assert(q < m);
                assert(d[q] == x);
            }
            if d.contains(x) {
                let q = choose|q: int| 0 <= q < d.len() && d[q] == x;
                assert(b[q] == x);
                assert(b.contains(x));
                assert(a.contains(x));
                let p = choose|p: int| 0 <= p < a.len() && a[p] == x;
                assert(p < n);
                assert(c[p] == x);
            }
        }
        same_names(c, d);
        assert(a =~= c.push(a[n]));
        assert(b =~= d.push(b[m]));
    }
}

pub(crate) proof fn name_put_holds(s: Names, k: Seq<char>, v: Option<Instant>, x: (Seq<char>, Option<Instant>))
    requires
        table::names_ordered(s),
    ensures
        table::name_put(s, k, v).contains(x) <==> if x.0 == k {
            x.1 == v
        } else {
            s.contains(x)
        },
{
    table::name_place_bound(s, k);
    let i = table::name_place(s, k);
    if i < s.len() {
        text::before_total(s[i].0, k);
    }
    text::before_total(k, k);
    let t = table::name_put(s, k, v);
    assert(t[i] == (k, v));
    if s.contains(x) && x.0 != k {
        let j = choose|j: int| 0 <= j < s.len() && s[j] == x;
        if i < s.len() && s[i].0 == k {
            assert(t[j] == x);
        } else if j < i {
            assert(t[j] == x);
        } else {
            assert(t[j + 1] == x);
        }
    }
    if t.contains(x) {
        let j = choose|j: int| 0 <= j < t.len() && t[j] == x;
        if i < s.len() && s[i].0 == k {
            if j != i {
                assert(s[j] == x);
            }
        } else if j < i {
            assert(s[j] == x);
        } else if j > i {
            assert(s[j - 1] == x);
        }
    }
}

pub(crate) proof fn name_without_holds(s: Names, k: Seq<char>, x: (Seq<char>, Option<Instant>))
    requires
        table::names_ordered(s),
    ensures
        table::name_without(s, k).contains(x) <==> x.0 != k && s.contains(x),
{
    table::name_place_bound(s, k);
    let i = table::name_place(s, k);
    if i < s.len() {
        text::before_total(s[i].0, k);
    }
    text::before_total(k, k);
    let t = table::name_without(s, k);
    if s.contains(x) && x.0 != k {
        let j = choose|j: int| 0 <= j < s.len() && s[j] == x;
        if i < s.len() && s[i].0 == k {
            if j < i {
                assert(t[j] == x);
            } else {
                assert(t[j - 1] == x);
            }
        }
    }
    if t.contains(x) {
        let j = choose|j: int| 0 <= j < t.len() && t[j] == x;
        if i < s.len() && s[i].0 == k {
            if j < i {
                assert(s[j] == x);
            } else {
                assert(s[j + 1] == x);
            }
        } else {
            assert(s[j] == x);
        }
    }
}

pub(crate) proof fn live_names_hold(s: Names, now: Instant, x: (Seq<char>, Option<Instant>))
    ensures
        table::live_names(s, now).contains(x) <==> s.contains(x) && table::ahead(x.1, now),
    decreases s.len(),
{
    if s.len() > 0 {
        let t = s.drop_last();
        live_names_hold(t, now, x);
        let l = table::live_names(t, now);
        let whole = table::live_names(s, now);
        assert(s.contains(x) <==> t.contains(x) || x == s.last()) by {
            if t.contains(x) {
                let j = choose|j: int| 0 <= j < t.len() && t[j] == x;
                assert(s[j] == x);
            }
            assert(s[s.len() - 1] == s.last());
            if s.contains(x) {
                let j = choose|j: int| 0 <= j < s.len() && s[j] == x;
                if j < t.len() {
                    assert(t[j] == x);
                }
            }
        }
        if table::ahead(s.last().1, now) {
            assert(whole.contains(x) <==> l.contains(x) || x == s.last()) by {
                if l.contains(x) {
                    let j = choose|j: int| 0 <= j < l.len() && l[j] == x;
                    assert(whole[j] == x);
                }
                assert(whole[l.len() as int] == s.last());
                if whole.contains(x) {
                    let j = choose|j: int| 0 <= j < whole.len() && whole[j] == x;
                    if j < l.len() {
                        assert(l[j] == x);
                    }
                }
            }
        }
    }
}

spec fn name_list_fate(now: Instant, lifetime: u32, domains: Seq<Seq<char>>, k: Seq<char>, f: Fate) -> Fate
    decreases domains.len(),
{
    if domains.len() == 0 {
        f
    } else if domains.last() == k {
        fate_of(now, lifetime)
    } else {
        name_list_fate(now, lifetime, domains.drop_last(), k, f)
    }
}

spec fn domain_fate(now: Instant, r: Seq<DnsslV>, k: Seq<char>) -> Fate
    decreases r.len(),
{
    if r.len() == 0 {
        Fate::Untouched
    } else {
        name_list_fate(
            now,
            r.last().lifetime,
            r.last().domains,
            k,
            domain_fate(now, r.drop_last(), k),
        )
    }
}

proof fn name_list_holds(
    s: Names,
    now: Instant,
    lifetime: u32,
    domains: Seq<Seq<char>>,
    x: (Seq<char>, Option<Instant>),
    f: Fate,
    had: bool,
)
    requires
        table::names_ordered(s),
        s.contains(x) <==> left_with(f, x.1, had),
    ensures
        table::names_ordered(engine::domain_list_taken(s, now, lifetime, domains)),
        engine::domain_list_taken(s, now, lifetime, domains).contains(x) <==> left_with(
            name_list_fate(now, lifetime, domains, x.0, f),
            x.1,
            had,
        ),
    decreases domains.len(),
{
    if domains.len() > 0 {
        name_list_holds(s, now, lifetime, domains.drop_last(), x, f, had);
        let before = engine::domain_list_taken(s, now, lifetime, domains.drop_last());
        let k = domains.last();
        if lifetime == 0 {
            table::name_without_ordered(before, k);
            name_without_holds(before, k, x);
        } else {
            table::name_put_ordered(before, k, engine::until_time(now, lifetime));
            name_put_holds(before, k, engine::until_time(now, lifetime), x);
        }
    }
}

proof fn domains_hold(s: Names, now: Instant, r: Seq<DnsslV>, x: (Seq<char>, Option<Instant>))
    requires
        table::names_ordered(s),
    ensures
        table::names_ordered(engine::domains_taken(s, now, r)),
        engine::domains_taken(s, now, r).contains(x) <==> left_with(
            domain_fate(now, r, x.0),
            x.1,
            s.contains(x),
        ),
    decreases r.len(),
{
    if r.len() > 0 {
        domains_hold(s, now, r.drop_last(), x);
        name_list_holds(
            engine::domains_taken(s, now, r.drop_last()),
            now,
            r.last().lifetime,
            r.last().domains,
            x,
            domain_fate(now, r.drop_last(), x.0),
            s.contains(x),
        );
    }
}

proof fn domains_again(s: Names, now: Instant, r: Seq<DnsslV>)
    requires
        table::names_ordered(s),
    ensures
        ({
            let once = table::live_names(engine::domains_taken(s, now, r), now);
            table::live_names(engine::domains_taken(once, now, r), now) == once
        }),
{
    let first = engine::domains_taken(s, now, r);
    let once = table::live_names(first, now);
    let arbitrary = (Seq::<char>::empty(), None::<Instant>);
    domains_hold(s, now, r, arbitrary);
    table::live_names_ordered(first, now);
    domains_hold(once, now, r, arbitrary);
    let second = engine::domains_taken(once, now, r);
    let twice = table::live_names(second, now);
    table::live_names_ordered(second, now);
    assert forall|x: (Seq<char>, Option<Instant>)| #[trigger] twice.contains(x) <==> once.contains(
        x,
    ) by {
        domains_hold(s, now, r, x);
        domains_hold(once, now, r, x);
        live_names_hold(first, now, x);
        live_names_hold(second, now, x);
    }
    same_names(twice, once);
}

// ---- prefixes ---------------------------------------------------------------

/// What an advertisement settles of a prefix.
pub struct Gist {
    pub on_link: bool,
    pub preferred_until: Option<Instant>,
    pub valid_until: Option<Instant>,
}

/// What is settled of a prefix.
pub open spec fn gist(p: PrefixV) -> Gist {
    Gist {
        on_link: p.on_link,
        preferred_until: p.preferred_until,
        valid_until: p.valid_until,
    }
}

/// Whether an advertised prefix is one that forms addresses, in this /64.
pub open spec fn counts(info: PrefixInfo, k: Ipv6Addr) -> bool {
    info.autonomous && info.length == 64 && info.preferred <= info.valid && engine::home(
        info.prefix,
    ) == k
}

spec fn told(c: Gist, now: Instant, info: PrefixInfo) -> Gist {
    Gist {
        on_link: info.on_link,
        preferred_until: engine::until_time(now, info.preferred),
        valid_until: engine::revised(c.valid_until, now, info.valid),
    }
}

/// What is settled of the prefix `k` after these.
spec fn told_all(c: Gist, now: Instant, s: Seq<PrefixInfo>, k: Ipv6Addr) -> Gist
    decreases s.len(),
{
    if s.len() == 0 {
        c
    } else {
        let before = told_all(c, now, s.drop_last(), k);
        if counts(s.last(), k) {
            told(before, now, s.last())
        } else {
            before
        }
    }
}

/// Whether anything is said of `k`.
spec fn named(s: Seq<PrefixInfo>, k: Ipv6Addr) -> bool {
    exists|i: int| 0 <= i < s.len() && counts(#[trigger] s[i], k)
}

/// Whether something is said of `k` that lets it live.
spec fn granted(s: Seq<PrefixInfo>, k: Ipv6Addr) -> bool {
    exists|i: int| 0 <= i < s.len() && counts(#[trigger] s[i], k) && s[i].valid > 0
}

/// Whether `k` is given more than two hours.
spec fn long_granted(s: Seq<PrefixInfo>, k: Ipv6Addr) -> bool {
    exists|i: int|
        0 <= i < s.len() && counts(#[trigger] s[i], k) && s[i].valid * 1_000_000_000
            > engine::TWO_HOURS
}

proof fn split_last(s: Seq<PrefixInfo>, k: Ipv6Addr)
    requires
        s.len() > 0,
    ensures
        named(s, k) <==> named(s.drop_last(), k) || counts(s.last(), k),
        granted(s, k) <==> granted(s.drop_last(), k) || (counts(s.last(), k) && s.last().valid > 0),
        long_granted(s, k) <==> long_granted(s.drop_last(), k) || (counts(s.last(), k)
            && s.last().valid * 1_000_000_000 > engine::TWO_HOURS),
{
    let t = s.drop_last();
    let n = s.len() - 1;
    assert(s[n] == s.last());
    assert forall|i: int| 0 <= i < n implies #[trigger] s[i] == t[i] by {}
    assert forall|i: int| 0 <= i < n implies s[i] == #[trigger] t[i] by {}
    if named(s, k) {
        let i = choose|i: int| 0 <= i < s.len() && counts(#[trigger] s[i], k);
        if i < n {
            assert(counts(t[i], k));
        }
    }
    if named(t, k) {
        let i = choose|i: int| 0 <= i < t.len() && counts(#[trigger] t[i], k);
        assert(counts(s[i], k));
    }
    if granted(s, k) {
        let i = choose|i: int| 0 <= i < s.len() && counts(#[trigger] s[i], k) && s[i].valid > 0;
        if i < n {
            assert(counts(t[i], k));
        }
    }
    if granted(t, k) {
        let i = choose|i: int| 0 <= i < t.len() && counts(#[trigger] t[i], k) && t[i].valid > 0;
        assert(counts(s[i], k));
    }
    if long_granted(s, k) {
        let i = choose|i: int|
            0 <= i < s.len() && counts(#[trigger] s[i], k) && s[i].valid * 1_000_000_000
                > engine::TWO_HOURS;
        if i < n {
            assert(counts(t[i], k));
        }
    }
    if long_granted(t, k) {
        let i = choose|i: int|
            0 <= i < t.len() && counts(#[trigger] t[i], k) && t[i].valid * 1_000_000_000
                > engine::TWO_HOURS;
        assert(counts(s[i], k));
    }
}

proof fn granted_lives(c: Gist, now: Instant, s: Seq<PrefixInfo>, k: Ipv6Addr)
    requires
        now.nanos <= clock::HORIZON,
    ensures
        granted(s, k) || table::ahead(c.valid_until, now) ==> table::ahead(
            told_all(c, now, s, k).valid_until,
            now,
        ),
    decreases s.len(),
{
    if s.len() > 0 {
        split_last(s, k);
        granted_lives(c, now, s.drop_last(), k);
    }
}

proof fn long_grant_decides(c: Gist, d: Gist, now: Instant, s: Seq<PrefixInfo>, k: Ipv6Addr)
    requires
        long_granted(s, k),
    ensures
        told_all(c, now, s, k).valid_until == told_all(d, now, s, k).valid_until,
    decreases s.len(),
{
    if s.len() > 0 {
        split_last(s, k);
        if long_granted(s.drop_last(), k) {
            long_grant_decides(c, d, now, s.drop_last(), k);
        }
    }
}

/// Whether a lifetime is one that nothing of two hours or less would move.
spec fn steady(v: Option<Instant>, now: Instant, s: Seq<PrefixInfo>, k: Ipv6Addr) -> bool {
    match v {
        None => true,
        Some(t) => {
            &&& now.nanos <= t.nanos <= now.nanos + engine::TWO_HOURS
            &&& forall|i: int|
                0 <= i < s.len() && counts(#[trigger] s[i], k) ==> s[i].valid * 1_000_000_000
                    <= t.nanos - now.nanos
        },
    }
}

proof fn short_grants_settle(c: Gist, now: Instant, s: Seq<PrefixInfo>, k: Ipv6Addr)
    requires
        now.nanos <= clock::HORIZON,
        named(s, k),
        !long_granted(s, k),
    ensures
        steady(told_all(c, now, s, k).valid_until, now, s, k),
    decreases s.len(),
{
    if s.len() > 0 {
        split_last(s, k);
        let t = s.drop_last();
        let n = s.len() - 1;
        let before = told_all(c, now, t, k);
        let after = told_all(c, now, s, k);
        if named(t, k) {
            short_grants_settle(c, now, t, k);
        }
        match after.valid_until {
            None => {},
            Some(u) => {
                assert forall|i: int| 0 <= i < s.len() && counts(#[trigger] s[i], k) implies s[i].valid
                    * 1_000_000_000 <= u.nanos - now.nanos by {
                    if i < n {
                        assert(t[i] == s[i]);
                        assert(counts(t[i], k));
                    }
                }
            },
        }
    }
}

proof fn steady_stays(c: Gist, now: Instant, s: Seq<PrefixInfo>, k: Ipv6Addr)
    requires
        now.nanos <= clock::HORIZON,
        !long_granted(s, k),
        steady(c.valid_until, now, s, k),
    ensures
        told_all(c, now, s, k).valid_until == c.valid_until,
    decreases s.len(),
{
    if s.len() > 0 {
        split_last(s, k);
        let t = s.drop_last();
        assert(steady(c.valid_until, now, t, k)) by {
            if let Some(u) = c.valid_until {
                assert forall|i: int| 0 <= i < t.len() && counts(#[trigger] t[i], k) implies t[i].valid
                    * 1_000_000_000 <= u.nanos - now.nanos by {
                    assert(s[i] == t[i]);
                    assert(counts(s[i], k));
                }
            }
        }
        steady_stays(c, now, t, k);
        if counts(s.last(), k) {
            assert(s[s.len() - 1] == s.last());
        }
    }
}

/// The last word on a prefix is the last word however it stood before.
proof fn last_word(c: Gist, d: Gist, now: Instant, s: Seq<PrefixInfo>, k: Ipv6Addr)
    ensures
        named(s, k) ==> {
            &&& told_all(c, now, s, k).on_link == told_all(d, now, s, k).on_link
            &&& told_all(c, now, s, k).preferred_until == told_all(d, now, s, k).preferred_until
        },
        !named(s, k) ==> told_all(c, now, s, k) == c,
    decreases s.len(),
{
    if s.len() > 0 {
        split_last(s, k);
        last_word(c, d, now, s.drop_last(), k);
    }
}

/// Saying it all twice settles no more than saying it once.
proof fn told_twice(c: Gist, now: Instant, s: Seq<PrefixInfo>, k: Ipv6Addr)
    requires
        now.nanos <= clock::HORIZON,
    ensures
        told_all(told_all(c, now, s, k), now, s, k) == told_all(c, now, s, k),
{
    let once = told_all(c, now, s, k);
    last_word(c, once, now, s, k);
    last_word(once, c, now, s, k);
    if named(s, k) {
        if long_granted(s, k) {
            long_grant_decides(c, once, now, s, k);
        } else {
            short_grants_settle(c, now, s, k);
            steady_stays(once, now, s, k);
        }
    }
}

spec fn has(s: Prefixes, k: Ipv6Addr) -> bool {
    exists|i: int| 0 <= i < s.len() && (#[trigger] s[i]).0 == k
}

proof fn has_place(s: Prefixes, k: Ipv6Addr)
    requires
        table::ordered(s),
    ensures
        0 <= table::place(s, k) <= s.len(),
        has(s, k) <==> table::place(s, k) < s.len() && s[table::place(s, k)].0 == k,
        forall|i: int| 0 <= i < s.len() && (#[trigger] s[i]).0 == k ==> i == table::place(s, k),
{
    table::place_bound(s, k);
}

/// Whether what is settled of a prefix is what these say, however it stood
/// before.
spec fn settled(p: PrefixV, now: Instant, s: Seq<PrefixInfo>, k: Ipv6Addr) -> bool {
    exists|c: Gist| gist(p) == #[trigger] told_all(c, now, s, k)
}

proof fn nothing_granted(c: Gist, now: Instant, s: Seq<PrefixInfo>, k: Ipv6Addr)
    requires
        !granted(s, k),
        c.valid_until == Some(now),
    ensures
        told_all(c, now, s, k).valid_until == Some(now),
    decreases s.len(),
{
    if s.len() > 0 {
        split_last(s, k);
        nothing_granted(c, now, s.drop_last(), k);
    }
}

proof fn first_time(e: EngineV, now: Instant, s: Seq<PrefixInfo>)
    requires
        table::ordered(e.prefixes),
        now.nanos <= clock::HORIZON,
    ensures
        ({
            let r = e.with_prefixes(now, s);
            &&& table::ordered(r.prefixes)
            &&& r == (EngineV { prefixes: r.prefixes, rng: r.rng, ..e })
            &&& forall|i: int|
                0 <= i < r.prefixes.len() ==> settled(
                    (#[trigger] r.prefixes[i]).1,
                    now,
                    s,
                    r.prefixes[i].0,
                )
            &&& forall|k: Ipv6Addr| #[trigger] granted(s, k) ==> has(r.prefixes, k)
        }),
    decreases s.len(),
{
    let r = e.with_prefixes(now, s);
    if s.len() == 0 {
        assert forall|i: int| 0 <= i < r.prefixes.len() implies settled(
            (#[trigger] r.prefixes[i]).1,
            now,
            s,
            r.prefixes[i].0,
        ) by {
            let c = gist(r.prefixes[i].1);
            assert(told_all(c, now, s, r.prefixes[i].0) == c);
        }
    } else {
        let t = s.drop_last();
        let info = s.last();
        let b = e.with_prefixes(now, t);
        first_time(e, now, t);
        let k = engine::home(info.prefix);
        let at = table::place(b.prefixes, k);
        has_place(b.prefixes, k);
        split_last(s, k);
        let named_now = counts(info, k);
        assert forall|q: Ipv6Addr, c: Gist| !named_now || q != k implies #[trigger] told_all(
            c,
            now,
            s,
            q,
        ) == told_all(c, now, t, q) by {
            assert(!counts(info, q));
        }
        // What each of the others was settled by settles it still.
        assert forall|i: int|
            0 <= i < b.prefixes.len() && (!named_now || b.prefixes[i].0 != k) implies settled(
            (#[trigger] b.prefixes[i]).1,
            now,
            s,
            b.prefixes[i].0,
        ) by {
            let q = b.prefixes[i].0;
            let c = choose|c: Gist| gist(b.prefixes[i].1) == #[trigger] told_all(c, now, t, q);
            assert(told_all(c, now, s, q) == told_all(c, now, t, q));
        }
        if named_now {
            if at < b.prefixes.len() && b.prefixes[at].0 == k {
                let c = choose|c: Gist| gist(b.prefixes[at].1) == #[trigger] told_all(c, now, t, k);
                assert(gist(r.prefixes[at].1) == told_all(c, now, s, k));
                assert(settled(r.prefixes[at].1, now, s, k));
                assert forall|i: int| 0 <= i < r.prefixes.len() implies settled(
                    (#[trigger] r.prefixes[i]).1,
                    now,
                    s,
                    r.prefixes[i].0,
                ) by {
                    if i != at {
                        assert(r.prefixes[i] == b.prefixes[i]);
                    }
                }
            } else if info.valid > 0 {
                let c = Gist {
                    on_link: false,
                    preferred_until: None,
                    valid_until: Some(now),
                };
                nothing_granted(c, now, t, k);
                assert(gist(r.prefixes[at].1) == told_all(c, now, s, k));
                assert(settled(r.prefixes[at].1, now, s, k));
                assert forall|i: int| 0 <= i < r.prefixes.len() implies settled(
                    (#[trigger] r.prefixes[i]).1,
                    now,
                    s,
                    r.prefixes[i].0,
                ) by {
                    if i < at {
                        assert(r.prefixes[i] == b.prefixes[i]);
                    } else if i > at {
                        assert(r.prefixes[i] == b.prefixes[i - 1]);
                    }
                }
                table::place_bound(b.prefixes, k);
            }
        }
        assert forall|q: Ipv6Addr| #[trigger] granted(s, q) implies has(r.prefixes, q) by {
            split_last(s, q);
            if granted(t, q) {
                let i = choose|i: int| 0 <= i < b.prefixes.len() && (#[trigger] b.prefixes[i]).0 == q;
                if r.prefixes.len() == b.prefixes.len() || i < at {
                    assert(r.prefixes[i].0 == q);
                } else {
                    assert(r.prefixes[i + 1].0 == q);
                }
            } else {
                assert(r.prefixes[at].0 == k);
            }
        }
    }
}

/// A prefix with this settled of it.
spec fn resettled(p: PrefixV, g: Gist) -> PrefixV {
    PrefixV {
        on_link: g.on_link,
        preferred_until: g.preferred_until,
        valid_until: g.valid_until,
        ..p
    }
}

proof fn another_time(e: EngineV, now: Instant, s: Seq<PrefixInfo>)
    requires
        table::ordered(e.prefixes),
        forall|k: Ipv6Addr| #[trigger] granted(s, k) ==> has(e.prefixes, k),
    ensures
        ({
            let r = e.with_prefixes(now, s);
            &&& r == (EngineV { prefixes: r.prefixes, ..e })
            &&& r.prefixes.len() == e.prefixes.len()
            &&& forall|i: int|
                0 <= i < r.prefixes.len() ==> #[trigger] r.prefixes[i] == (
                    e.prefixes[i].0,
                    resettled(
                        e.prefixes[i].1,
                        told_all(gist(e.prefixes[i].1), now, s, e.prefixes[i].0),
                    ),
                )
        }),
    decreases s.len(),
{
    if s.len() > 0 {
        let t = s.drop_last();
        let info = s.last();
        assert forall|k: Ipv6Addr| #[trigger] granted(t, k) implies has(e.prefixes, k) by {
            split_last(s, k);
            assert(granted(s, k));
        }
        another_time(e, now, t);
        let b = e.with_prefixes(now, t);
        let r = e.with_prefixes(now, s);
        assert(table::ordered(b.prefixes));
        let k = engine::home(info.prefix);
        let at = table::place(b.prefixes, k);
        has_place(b.prefixes, k);
        split_last(s, k);
        if counts(info, k) && info.valid > 0 {
            assert(granted(s, k));
            let i = choose|i: int| 0 <= i < e.prefixes.len() && (#[trigger] e.prefixes[i]).0 == k;
            assert(b.prefixes[i].0 == k);
        }
        assert forall|i: int| 0 <= i < r.prefixes.len() implies #[trigger] r.prefixes[i] == (
            e.prefixes[i].0,
            resettled(
                e.prefixes[i].1,
                told_all(gist(e.prefixes[i].1), now, s, e.prefixes[i].0),
            ),
        ) by {
            let q = e.prefixes[i].0;
            assert(b.prefixes[i].0 == q);
            if counts(info, q) {
                assert(q == k);
                assert(i == at);
            }
        }
    }
}

// ---- temporary addresses ----------------------------------------------------

pub(crate) proof fn valid_temps_are(t: Seq<Temp>, now: Instant)
    ensures
        forall|i: int|
            0 <= i < engine::valid_temps(t, now).len() ==> (#[trigger] engine::valid_temps(
                t,
                now,
            )[i]).valid_until.nanos > now.nanos,
    decreases t.len(),
{
    if t.len() > 0 {
        let before = engine::valid_temps(t.drop_last(), now);
        let after = engine::valid_temps(t, now);
        valid_temps_are(t.drop_last(), now);
        assert forall|i: int| 0 <= i < after.len() implies (#[trigger] after[i]).valid_until.nanos
            > now.nanos by {
            if i < before.len() {
                assert(after[i] == before[i]);
            }
        }
    }
}

proof fn valid_temps_stay(t: Seq<Temp>, now: Instant)
    requires
        forall|i: int| 0 <= i < t.len() ==> (#[trigger] t[i]).valid_until.nanos > now.nanos,
    ensures
        engine::valid_temps(t, now) == t,
    decreases t.len(),
{
    if t.len() > 0 {
        valid_temps_stay(t.drop_last(), now);
        assert(t =~= t.drop_last().push(t.last()));
    }
}

/// Whether nothing is due about a prefix's temporary addresses.
pub open spec fn kept_up(p: PrefixV, temporary: bool, now: Instant) -> bool {
    &&& forall|i: int| 0 <= i < p.temps.len() ==> (#[trigger] p.temps[i]).valid_until.nanos > now.nanos
    &&& !(temporary && engine::wants_temp(p, now))
}

proof fn new_temps_last(rng: u64, now: Instant, k: Ipv6Addr, p: PrefixV)
    requires
        now.nanos <= clock::HORIZON,
        table::ahead(p.valid_until, now),
        table::ahead(p.preferred_until, now),
    ensures
        engine::new_temp_of(rng, now, k, p).0.preferred_until.nanos > now.nanos,
        engine::new_temp_of(rng, now, k, p).0.valid_until.nanos > now.nanos,
{
}

pub(crate) proof fn refreshed_is(s: Prefixes, rng: u64, temporary: bool, now: Instant)
    requires
        now.nanos <= clock::HORIZON,
        forall|i: int| 0 <= i < s.len() ==> table::ahead((#[trigger] s[i]).1.valid_until, now),
    ensures
        ({
            let d = engine::refreshed(s, rng, temporary, now).0;
            &&& d.len() == s.len()
            &&& forall|i: int|
                0 <= i < d.len() ==> (#[trigger] d[i]).0 == s[i].0 && d[i].1.stable == s[i].1.stable
                    && gist(d[i].1) == gist(s[i].1) && kept_up(d[i].1, temporary, now)
        }),
    decreases s.len(),
{
    if s.len() > 0 {
        let t = s.drop_last();
        assert forall|i: int| 0 <= i < t.len() implies table::ahead(
            (#[trigger] t[i]).1.valid_until,
            now,
        ) by {
            assert(t[i] == s[i]);
        }
        refreshed_is(t, rng, temporary, now);
        let (done, r) = engine::refreshed(t, rng, temporary, now);
        let k = s.last().0;
        let p = engine::pruned(s.last().1, now);
        assert(s[s.len() - 1] == s.last());
        valid_temps_are(s.last().1.temps, now);
        if temporary && engine::wants_temp(p, now) {
            new_temps_last(r, now, k, engine::roomy(p));
        }
        let d = engine::refreshed(s, rng, temporary, now).0;
        assert forall|i: int| 0 <= i < d.len() implies (#[trigger] d[i]).0 == s[i].0
            && d[i].1.stable == s[i].1.stable && gist(d[i].1) == gist(s[i].1) && kept_up(
            d[i].1,
            temporary,
            now,
        ) by {
            if i < t.len() {
                assert(d[i] == done[i]);
                assert(t[i] == s[i]);
            }
        }
    }
}

proof fn refreshed_stays(s: Prefixes, rng: u64, temporary: bool, now: Instant)
    requires
        forall|i: int|
            0 <= i < s.len() ==> kept_up((#[trigger] s[i]).1, temporary, now) && table::ahead(
                s[i].1.valid_until,
                now,
            ),
    ensures
        engine::valid_prefixes(s, now) == s,
        engine::refreshed(s, rng, temporary, now) == (s, rng),
    decreases s.len(),
{
    if s.len() > 0 {
        let t = s.drop_last();
        assert forall|i: int| 0 <= i < t.len() implies kept_up(
            (#[trigger] t[i]).1,
            temporary,
            now,
        ) && table::ahead(t[i].1.valid_until, now) by {
            assert(t[i] == s[i]);
        }
        refreshed_stays(t, rng, temporary, now);
        assert(s[s.len() - 1] == s.last());
        valid_temps_stay(s.last().1.temps, now);
        assert(engine::pruned(s.last().1, now) == s.last().1);
        assert(s =~= t.push(s.last()));
    }
}

pub(crate) proof fn valid_prefixes_are(s: Prefixes, now: Instant)
    requires
        table::ordered(s),
    ensures
        ({
            let v = engine::valid_prefixes(s, now);
            &&& v.len() <= s.len()
            &&& table::ordered(v)
            &&& forall|i: int|
                0 <= i < v.len() ==> s.contains(#[trigger] v[i]) && table::ahead(
                    v[i].1.valid_until,
                    now,
                )
            &&& forall|i: int|
                0 <= i < s.len() && table::ahead((#[trigger] s[i]).1.valid_until, now)
                    ==> v.contains(s[i])
        }),
    decreases s.len(),
{
    if s.len() > 0 {
        let t = s.drop_last();
        valid_prefixes_are(t, now);
        let w = engine::valid_prefixes(t, now);
        let v = engine::valid_prefixes(s, now);
        let n = s.len() - 1;
        assert(s[n] == s.last());
        assert forall|i: int| 0 <= i < w.len() implies s.contains(#[trigger] w[i])
            && w[i].0.bits < s.last().0.bits by {
            assert(t.contains(w[i]));
            let j = choose|j: int| 0 <= j < t.len() && t[j] == w[i];
            assert(s[j] == w[i]);
        }
        assert forall|i: int| 0 <= i < v.len() implies s.contains(#[trigger] v[i]) && table::ahead(
            v[i].1.valid_until,
            now,
        ) by {
            if i < w.len() {
                assert(v[i] == w[i]);
            }
        }
        assert forall|i: int|
            0 <= i < s.len() && table::ahead((#[trigger] s[i]).1.valid_until, now) implies v.contains(
            s[i],
        ) by {
            if i < n {
                assert(t[i] == s[i]);
                assert(w.contains(t[i]));
                let j = choose|j: int| 0 <= j < w.len() && w[j] == t[i];
                assert(v[j] == s[i]);
            } else {
                assert(v[w.len() as int] == s[i]);
            }
        }
    }
}

// ---- the law ----------------------------------------------------------------

proof fn prefixes_again(a: EngineV, f: EngineV, now: Instant, s: Seq<PrefixInfo>)
    requires
        table::ordered(a.prefixes),
        now.nanos <= clock::HORIZON,
        ({
            let b = a.with_prefixes(now, s);
            let kept = engine::refreshed(
                engine::valid_prefixes(b.prefixes, now),
                b.rng,
                a.temporary,
                now,
            );
            &&& f.prefixes == kept.0
            &&& f.rng == kept.1
            &&& f.temporary == a.temporary
        }),
    ensures
        f.with_prefixes(now, s) == f,
        engine::refreshed(engine::valid_prefixes(f.prefixes, now), f.rng, f.temporary, now) == (
            f.prefixes,
            f.rng,
        ),
{
    let b = a.with_prefixes(now, s);
    first_time(a, now, s);
    valid_prefixes_are(b.prefixes, now);
    let v = engine::valid_prefixes(b.prefixes, now);
    refreshed_is(v, b.rng, a.temporary, now);
    let p = f.prefixes;
    assert(table::ordered(p)) by {
        assert forall|i: int, j: int| 0 <= i < j < p.len() implies (#[trigger] p[i]).0.bits < (
        #[trigger] p[j]).0.bits by {
            assert(p[i].0 == v[i].0 && p[j].0 == v[j].0);
        }
    }
    assert forall|i: int| 0 <= i < p.len() implies table::ahead(
        (#[trigger] p[i]).1.valid_until,
        now,
    ) by {
        assert(gist(p[i].1) == gist(v[i].1));
    }
    refreshed_stays(p, f.rng, f.temporary, now);
    assert forall|k: Ipv6Addr| #[trigger] granted(s, k) implies has(p, k) by {
        let i = choose|i: int| 0 <= i < b.prefixes.len() && (#[trigger] b.prefixes[i]).0 == k;
        let c = choose|c: Gist| gist(b.prefixes[i].1) == #[trigger] told_all(c, now, s, k);
        granted_lives(c, now, s, k);
        assert(v.contains(b.prefixes[i]));
        let j = choose|j: int| 0 <= j < v.len() && v[j] == b.prefixes[i];
        assert(p[j].0 == k);
    }
    another_time(f, now, s);
    let g = f.with_prefixes(now, s);
    assert forall|i: int| 0 <= i < p.len() implies #[trigger] g.prefixes[i] == p[i] by {
        let k = p[i].0;
        assert(gist(p[i].1) == gist(v[i].1));
        assert(b.prefixes.contains(v[i]));
        let j = choose|j: int| 0 <= j < b.prefixes.len() && b.prefixes[j] == v[i];
        assert(settled(b.prefixes[j].1, now, s, k));
        let c = choose|c: Gist| gist(b.prefixes[j].1) == #[trigger] told_all(c, now, s, k);
        told_twice(c, now, s, k);
        assert(resettled(p[i].1, gist(p[i].1)) == p[i].1);
    }
    assert(g.prefixes =~= p);
}

/// The engine after an advertisement has been taken in, before it is shown.
spec fn taken_in(e: EngineV, now: Instant, source: Ipv6Addr, ra: RouterAdvertV) -> EngineV {
    let b = e.with_router(now, source, ra).with_prefixes(now, ra.prefixes);
    EngineV {
        rdnss: engine::servers_taken(b.rdnss, now, ra.rdnss),
        dnssl: engine::domains_taken(b.dnssl, now, ra.dnssl),
        ..b
    }.expired(now)
}

proof fn taken_in_again(e: EngineV, now: Instant, source: Ipv6Addr, ra: RouterAdvertV, f: EngineV)
    requires
        e.wf(),
        now.nanos <= clock::HORIZON,
        f == (EngineV { seen: f.seen, ..taken_in(e, now, source, ra) }),
    ensures
        taken_in(f, now, source, ra) == f,
{
    let a = e.with_router(now, source, ra);
    let b = a.with_prefixes(now, ra.prefixes);
    first_time(a, now, ra.prefixes);
    let a2 = f.with_router(now, source, ra);
    let until = Some(Instant { nanos: (now.nanos + ra.router_lifetime * 1_000_000_000) as u64 });
    router_again(e.routers, now, source, until);
    servers_again(e.rdnss, now, ra.rdnss);
    domains_again(e.dnssl, now, ra.dnssl);
    if ra.router_lifetime > 0 {
        let x = (source, until);
        put_holds(e.routers, source, until, x);
        live_holds(table::put(e.routers, source, until), now, x);
        assert(f.routers.contains(x));
        assert(f.routers.len() > 0);
    }
    prefixes_again(a, a2, now, ra.prefixes);
    let b2 = a2.with_prefixes(now, ra.prefixes);
    assert(b2 == a2);
    let g = taken_in(f, now, source, ra);
    assert(g.routers == f.routers);
    assert(g.rdnss == f.rdnss);
    assert(g.dnssl == f.dnssl);
    assert(g.prefixes == f.prefixes);
    assert(g.rng == f.rng);
    assert(g.solicit_at == f.solicit_at);
}

/// The same advertisement again, at the same time, changes nothing and is not
/// reported: neither its lifetimes nor the addresses it gave move.
pub proof fn the_same_advertisement_changes_nothing(
    e: EngineV,
    now: Instant,
    source: Ipv6Addr,
    body: Seq<u8>,
)
    requires
        e.wf(),
        now.nanos <= clock::HORIZON,
    ensures
        ({
            let once = e.receive(now, source, body).0;
            once.receive(now, source, body) == (once, Seq::<ActionV>::empty())
        }),
{
    let once = e.receive(now, source, body).0;
    match packet::decoded(body) {
        Some(ra) => {
            taken_in_again(e, now, source, ra, once);
        },
        None => {},
    }
}

} // verus!
