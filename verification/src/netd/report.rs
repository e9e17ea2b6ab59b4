//! What is told of the interfaces: the status an operator sees, and the DNS
//! picture for resolvd.

use vstd::prelude::*;
use vstd::string::*;
use crate::addr;
use crate::addr::{IpAddr, Ipv4Addr};
use crate::addr6;
use crate::clock::Instant;
use crate::dhcp4::client::{Client, ClientV};
use crate::libnetd;
use crate::libnetd::{
    DnsScope, DnsScopeV, InterfaceStatus, InterfaceStatusV, LeaseStatus, LeaseStatusV, Level, Snapshot,
    SnapshotV, Status, StatusV,
};
use crate::text;
use super::interface::{DnsFacts, Interface, InterfaceV};
use super::matching;
use super::model;
use super::model::{Address, Observed, ObservedV, Route};

verus! {

/// Interfaces as values.
pub open spec fn table(s: Seq<Interface>) -> Seq<InterfaceV> {
    s.map_values(|i: Interface| i@)
}

// ---- texts -----------------------------------------------------------------

/// An address with its prefix in text.
pub open spec fn cidr(a: Address) -> Seq<char> {
    addr6::ip_text(a.address) + "/"@ + text::decimal(a.prefix as nat)
}

/// Addresses with their prefixes in text.
pub open spec fn cidrs(s: Seq<Address>) -> Seq<Seq<char>> {
    s.map_values(|a: Address| cidr(a))
}

/// Addresses in text.
pub open spec fn v4_texts(s: Seq<Ipv4Addr>) -> Seq<Seq<char>> {
    s.map_values(|a: Ipv4Addr| addr::v4_text(a))
}

fn cidr_list(v: &Vec<Address>) -> (out: Vec<String>)
    ensures
        text::list_view(out@) == cidrs(v@),
{
    let mut out: Vec<String> = Vec::new();
    let mut i: usize = 0;
    while i < v.len()
        invariant
            i <= v@.len(),
            out@.len() == i,
            forall|k: int| 0 <= k < i ==> (#[trigger] out@[k])@ == cidr(v@[k]),
        decreases v@.len() - i,
    {
        let a: String = v[i].address.to_text();
        let p: String = text::decimal_of(v[i].prefix as u64);
        out.push(text::cat3(a.as_str(), "/", p.as_str()));
        i = i + 1;
    }
    assert(text::list_view(out@) =~= cidrs(v@));
    out
}

fn text_list(v: &Vec<Ipv4Addr>) -> (out: Vec<String>)
    ensures
        text::list_view(out@) == v4_texts(v@),
{
    let mut out: Vec<String> = Vec::new();
    let mut i: usize = 0;
    while i < v.len()
        invariant
            i <= v@.len(),
            out@.len() == i,
            forall|k: int| 0 <= k < i ==> (#[trigger] out@[k])@ == addr::v4_text(v@[k]),
        decreases v@.len() - i,
    {
        out.push(v[i].to_text());
        i = i + 1;
    }
    assert(text::list_view(out@) =~= v4_texts(v@));
    out
}

/// The text of an optional name, nothing where there is none.
pub open spec fn or_empty(s: Option<Seq<char>>) -> Seq<char> {
    match s {
        Some(s) => s,
        None => Seq::empty(),
    }
}

fn copy_or_empty(s: &Option<String>) -> (r: String)
    ensures
        r@ == or_empty(text::opt_view(*s)),
{
    match s {
        Some(s) => s.clone(),
        None => String::new(),
    }
}

// ---- the DNS picture -------------------------------------------------------

/// Whether an interface comes before another: by its metric, then its index.
pub open spec fn ranks_before(a: InterfaceV, b: InterfaceV) -> bool {
    a.metric() < b.metric() || (a.metric() == b.metric() && a.link.index < b.link.index)
}

/// Where an interface belongs among interfaces in order: before the first that
/// it comes before.
pub open spec fn rank_place(s: Seq<InterfaceV>, i: InterfaceV) -> int
    decreases s.len(),
{
    if s.len() == 0 || ranks_before(i, s[0]) {
        0
    } else {
        1 + rank_place(s.drop_first(), i)
    }
}

/// The managed interfaces of a table, in order.
pub open spec fn ranked(s: Seq<InterfaceV>) -> Seq<InterfaceV>
    decreases s.len(),
{
    if s.len() == 0 {
        Seq::empty()
    } else {
        let before = ranked(s.drop_last());
        if s.last().managed() {
            before.insert(rank_place(before, s.last()), s.last())
        } else {
            before
        }
    }
}

/// What an interface contributes to name resolution.
pub open spec fn scope_of(i: InterfaceV, o: ObservedV) -> DnsScopeV {
    DnsScopeV {
        ifid: i.ifid,
        name: i.link.name,
        servers: v4_texts(i.dns_servers()),
        domains: i.dns_search(),
        ntp: match i.lease {
            Some(l) => v4_texts(l.ntp),
            None => Seq::empty(),
        },
        addresses: cidrs(model::addresses_on(o.addresses, i.link.index)),
        default_route: match i.profile {
            Some(p) => match p.dns.default_route {
                Some(b) => b,
                None => i.level(o) == Level::Routed,
            },
            None => i.level(o) == Level::Routed,
        },
        exclusive: i.profile matches Some(p) && p.dns.exclusive,
        metric: i.metric(),
        level: i.level(o),
    }
}

/// What interfaces contribute, those without a link left out.
pub open spec fn scopes_of(s: Seq<InterfaceV>, o: ObservedV) -> Seq<DnsScopeV>
    decreases s.len(),
{
    if s.len() == 0 {
        Seq::empty()
    } else if s.last().level(o) == Level::Absent {
        scopes_of(s.drop_last(), o)
    } else {
        scopes_of(s.drop_last(), o).push(scope_of(s.last(), o))
    }
}

/// The DNS picture for resolvd: every managed interface with a link, in metric
/// order.
pub open spec fn snapshot_of(
    s: Seq<InterfaceV>,
    o: ObservedV,
    hostname: Option<Seq<char>>,
) -> SnapshotV {
    SnapshotV { hostname: or_empty(hostname), scopes: scopes_of(ranked(s), o) }
}

fn comes_before(a: &Interface, b: &Interface) -> (r: bool)
    ensures
        r == ranks_before(a@, b@),
{
    let m: u32 = a.metric();
    let n: u32 = b.metric();
    m < n || (m == n && a.link.index < b.link.index)
}

/// The interfaces at these places.
pub open spec fn picked(s: Seq<Interface>, order: Seq<usize>) -> Seq<InterfaceV> {
    order.map_values(|k: usize| s[k as int]@)
}

proof fn rank_place_at(s: Seq<InterfaceV>, i: InterfaceV, n: int)
    requires
        0 <= n <= s.len(),
        forall|k: int| 0 <= k < n ==> !ranks_before(i, #[trigger] s[k]),
        n < s.len() ==> ranks_before(i, s[n]),
    ensures
        rank_place(s, i) == n,
    decreases n,
{
    if n > 0 {
        let t = s.drop_first();
        assert(!ranks_before(i, s[0]));
        assert forall|k: int| 0 <= k < n - 1 implies !ranks_before(i, #[trigger] t[k]) by {
            assert(t[k] == s[k + 1]);
        }
        rank_place_at(t, i, n - 1);
    }
}

fn place(order: &mut Vec<usize>, s: &Vec<Interface>, at: usize)
    requires
        at < s@.len(),
        forall|k: int| 0 <= k < old(order)@.len() ==> (#[trigger] old(order)@[k]) < s@.len(),
    ensures
        forall|k: int| 0 <= k < final(order)@.len() ==> (#[trigger] final(order)@[k]) < s@.len(),
        picked(s@, final(order)@) == picked(s@, old(order)@).insert(
            rank_place(picked(s@, old(order)@), s@[at as int]@),
            s@[at as int]@,
        ),
{
    let ghost before = picked(s@, order@);
    let ghost i = s@[at as int]@;
    let mut n: usize = 0;
    while n < order.len() && !comes_before(&s[at], &s[order[n]])
        invariant
            n <= order@.len(),
            at < s@.len(),
            i == s@[at as int]@,
            order@ == old(order)@,
            before == picked(s@, order@),
            forall|k: int| 0 <= k < order@.len() ==> (#[trigger] order@[k]) < s@.len(),
            forall|k: int| 0 <= k < n ==> !ranks_before(i, #[trigger] before[k]),
        decreases order@.len() - n,
    {
        assert(before[n as int] == s@[order@[n as int] as int]@);
        n = n + 1;
    }
    proof {
        if n < order@.len() {
            assert(before[n as int] == s@[order@[n as int] as int]@);
        }
        rank_place_at(before, i, n as int);
    }
    order.insert(n, at);
    assert(picked(s@, order@) =~= before.insert(n as int, i));
}

fn rank(s: &Vec<Interface>) -> (order: Vec<usize>)
    ensures
        forall|k: int| 0 <= k < order@.len() ==> (#[trigger] order@[k]) < s@.len(),
        picked(s@, order@) == ranked(table(s@)),
{
    let ghost all = table(s@);
    let mut order: Vec<usize> = Vec::new();
    let mut i: usize = 0;
    assert(picked(s@, order@) =~= Seq::empty());
    while i < s.len()
        invariant
            i <= s@.len(),
            all == table(s@),
            forall|k: int| 0 <= k < order@.len() ==> (#[trigger] order@[k]) < s@.len(),
            picked(s@, order@) == ranked(all.take(i as int)),
        decreases s@.len() - i,
    {
        assert(all.take(i + 1).drop_last() =~= all.take(i as int));
        assert(all.take(i + 1).last() == s@[i as int]@);
        if s[i].managed() {
            place(&mut order, s, i);
        }
        i = i + 1;
    }
    assert(all.take(i as int) =~= all);
    order
}

fn scope(i: &Interface, observed: &Observed, level: Level) -> (r: DnsScope)
    requires
        level == i@.level(observed@),
    ensures
        r@ == scope_of(i@, observed@),
{
    let facts: DnsFacts = i.dns();
    let addresses: Vec<Address> = observed.addresses_of(i.link.index);
    let ntp: Vec<String> = match &i.lease {
        Some(l) => text_list(&l.ntp),
        None => Vec::new(),
    };
    let (default_route, exclusive): (bool, bool) = match &i.profile {
        Some(p) => (
            match p.dns.default_route {
                Some(b) => b,
                None => level == Level::Routed,
            },
            p.dns.exclusive,
        ),
        None => (level == Level::Routed, false),
    };
    let r: DnsScope = DnsScope {
        ifid: i.ifid.clone(),
        name: i.link.name.clone(),
        servers: text_list(&facts.servers),
        domains: facts.search,
        ntp,
        addresses: cidr_list(&addresses),
        default_route,
        exclusive,
        metric: i.metric(),
        level,
    };
    assert(r@ =~= scope_of(i@, observed@));
    r
}

/// The DNS picture for resolvd: every managed interface with a link, in metric
/// order.
pub fn snapshot(interfaces: &Vec<Interface>, observed: &Observed, hostname: &Option<String>) -> (r:
    Snapshot)
    ensures
        r@ == snapshot_of(table(interfaces@), observed@, text::opt_view(*hostname)),
{
    let order: Vec<usize> = rank(interfaces);
    let ghost all = picked(interfaces@, order@);
    let mut scopes: Vec<DnsScope> = Vec::new();
    let mut k: usize = 0;
    assert(libnetd::scopes_view(scopes@) =~= Seq::empty());
    while k < order.len()
        invariant
            k <= order@.len(),
            forall|j: int| 0 <= j < order@.len() ==> (#[trigger] order@[j]) < interfaces@.len(),
            all == picked(interfaces@, order@),
            libnetd::scopes_view(scopes@) == scopes_of(all.take(k as int), observed@),
        decreases order@.len() - k,
    {
        let i: &Interface = &interfaces[order[k]];
        assert(all.take(k + 1).drop_last() =~= all.take(k as int));
        assert(all.take(k + 1).last() == i@);
        let level: Level = i.level(observed);
        if level != Level::Absent {
            let ghost before = libnetd::scopes_view(scopes@);
            let s: DnsScope = scope(i, observed, level);
            scopes.push(s);
            assert(libnetd::scopes_view(scopes@) =~= before.push(s@));
        }
        k = k + 1;
    }
    assert(all.take(k as int) =~= all);
    Snapshot { hostname: copy_or_empty(hostname), scopes }
}

fn same_scope(a: &DnsScope, b: &DnsScope) -> (r: bool)
    ensures
        r == (a@ == b@),
{
    let r: bool = text::same(a.ifid.as_str(), b.ifid.as_str()) && text::same(
        a.name.as_str(),
        b.name.as_str(),
    ) && text::same_list(&a.servers, &b.servers) && text::same_list(&a.domains, &b.domains)
        && text::same_list(&a.ntp, &b.ntp) && text::same_list(&a.addresses, &b.addresses)
        && a.default_route == b.default_route && a.exclusive == b.exclusive && a.metric == b.metric
        && a.level == b.level;
    proof {
        if r {
            assert(a@ =~= b@);
        }
    }
    r
}

/// Whether two pictures say the same.
pub fn same_snapshot(a: &Snapshot, b: &Snapshot) -> (r: bool)
    ensures
        r == (a@ == b@),
{
    if !text::same(a.hostname.as_str(), b.hostname.as_str()) || a.scopes.len() != b.scopes.len() {
        assert(a@.scopes.len() == a.scopes@.len());
        assert(b@.scopes.len() == b.scopes@.len());
        return false;
    }
    let mut i: usize = 0;
    while i < a.scopes.len()
        invariant
            i <= a.scopes@.len(),
            a.scopes@.len() == b.scopes@.len(),
            forall|k: int| 0 <= k < i ==> (#[trigger] a.scopes@[k])@ == b.scopes@[k]@,
        decreases a.scopes@.len() - i,
    {
        if !same_scope(&a.scopes[i], &b.scopes[i]) {
            assert(a@.scopes[i as int] != b@.scopes[i as int]);
            return false;
        }
        i = i + 1;
    }
    assert(a@.scopes =~= b@.scopes);
    true
}

// ---- the status ------------------------------------------------------------

/// The gateway of the first default route of a list.
pub open spec fn first_gateway(s: Seq<Route>) -> Option<IpAddr>
    decreases s.len(),
{
    if s.len() == 0 {
        None
    } else if s[0].prefix == 0 {
        s[0].gateway
    } else {
        first_gateway(s.drop_first())
    }
}

/// The lease of a client as reported.
pub open spec fn lease_of(c: Option<ClientV>, now: Instant) -> Option<LeaseStatusV> {
    match c {
        Some(c) => match c.lease {
            Some(l) => Some(
                LeaseStatusV {
                    server: addr::v4_text(l.server),
                    expires_in: match c.expires_in(now) {
                        Some(n) => n,
                        None => 0,
                    },
                    state: c.state.name(),
                },
            ),
            None => None,
        },
        None => None,
    }
}

/// An interface as reported.
pub open spec fn report_of(i: InterfaceV, o: ObservedV, now: Instant) -> InterfaceStatusV {
    InterfaceStatusV {
        ifid: i.ifid,
        name: i.link.name,
        index: i.link.index,
        mac: or_empty(matching::mac_text(i.link.mac)),
        path: i.path,
        driver: i.driver,
        profile: match i.profile {
            Some(p) => Some(p.name),
            None => None,
        },
        managed: i.managed(),
        enabled: i.enabled,
        up: i.link.up,
        carrier: i.link.carrier,
        level: i.level(o),
        addresses: cidrs(model::addresses_on(o.addresses, i.link.index)),
        gateway: match first_gateway(model::routes_on(o.routes, i.link.index)) {
            Some(g) => Some(addr6::ip_text(g)),
            None => None,
        },
        dns: v4_texts(i.dns_servers()),
        search: i.dns_search(),
        lease: lease_of(i.dhcp, now),
    }
}

/// Interfaces as reported, the loopback left out.
pub open spec fn reports_of(s: Seq<InterfaceV>, o: ObservedV, now: Instant) -> Seq<InterfaceStatusV>
    decreases s.len(),
{
    if s.len() == 0 {
        Seq::empty()
    } else if s.last().link.loopback {
        reports_of(s.drop_last(), o, now)
    } else {
        reports_of(s.drop_last(), o, now).push(report_of(s.last(), o, now))
    }
}

/// The machine's level: that of the managed interface furthest along.
pub open spec fn machine_level(s: Seq<InterfaceV>, o: ObservedV) -> Level
    decreases s.len(),
{
    if s.len() == 0 {
        Level::Absent
    } else if s.last().managed() {
        machine_level(s.drop_last(), o).further(s.last().level(o))
    } else {
        machine_level(s.drop_last(), o)
    }
}

/// The whole picture.
pub open spec fn status_of(
    s: Seq<InterfaceV>,
    o: ObservedV,
    hostname: Option<Seq<char>>,
    now: Instant,
) -> StatusV {
    StatusV {
        hostname: or_empty(hostname),
        level: machine_level(s, o),
        interfaces: reports_of(s, o, now),
    }
}

proof fn first_gateway_from(s: Seq<Route>, n: int)
    requires
        0 <= n <= s.len(),
        forall|k: int| 0 <= k < n ==> (#[trigger] s[k]).prefix != 0,
    ensures
        first_gateway(s) == first_gateway(s.skip(n)),
    decreases n,
{
    if n > 0 {
        let t = s.drop_first();
        assert(s[0].prefix != 0);
        assert forall|k: int| 0 <= k < n - 1 implies (#[trigger] t[k]).prefix != 0 by {
            assert(t[k] == s[k + 1]);
        }
        first_gateway_from(t, n - 1);
        assert(t.skip(n - 1) =~= s.skip(n));
    } else {
        assert(s.skip(0) =~= s);
    }
}

fn gateway_text(v: &Vec<Route>) -> (r: Option<String>)
    ensures
        text::opt_view(r) == match first_gateway(v@) {
            Some(g) => Some(addr6::ip_text(g)),
            None => None,
        },
{
    let mut i: usize = 0;
    while i < v.len()
        invariant
            i <= v@.len(),
            forall|k: int| 0 <= k < i ==> (#[trigger] v@[k]).prefix != 0,
        decreases v@.len() - i,
    {
        if v[i].is_default() {
            proof {
                first_gateway_from(v@, i as int);
                assert(v@.skip(i as int)[0] == v@[i as int]);
            }
            return match v[i].gateway {
                Some(g) => Some(g.to_text()),
                None => None,
            };
        }
        i = i + 1;
    }
    proof {
        first_gateway_from(v@, i as int);
    }
    None
}

fn lease_report(c: &Option<Client>, now: Instant) -> (r: Option<LeaseStatus>)
    requires
        *c matches Some(c) ==> c@.wf(),
    ensures
        libnetd::decode::opt_lease(r) == lease_of(super::interface::opt_client(*c), now),
{
    match c {
        Some(c) => match c.lease() {
            Some(l) => {
                let left: u64 = match c.expires_in(now) {
                    Some(n) => n,
                    None => 0,
                };
                Some(
                    LeaseStatus {
                        server: l.server.to_text(),
                        expires_in: left,
                        state: String::from_str(c.state().as_str()),
                    },
                )
            },
            None => None,
        },
        None => None,
    }
}

fn report(i: &Interface, observed: &Observed, level: Level, now: Instant) -> (r: InterfaceStatus)
    requires
        i@.wf(),
        level == i@.level(observed@),
    ensures
        r@ == report_of(i@, observed@, now),
{
    let facts: DnsFacts = i.dns();
    let addresses: Vec<Address> = observed.addresses_of(i.link.index);
    let routes: Vec<Route> = observed.routes_of(i.link.index);
    let mac: String = match &i.link.mac {
        Some(m) => model::format_mac(m),
        None => String::new(),
    };
    let profile: Option<String> = match &i.profile {
        Some(p) => Some(p.name.clone()),
        None => None,
    };
    let r: InterfaceStatus = InterfaceStatus {
        ifid: i.ifid.clone(),
        name: i.link.name.clone(),
        index: i.link.index,
        mac,
        path: i.identity.path.clone(),
        driver: i.identity.driver.clone(),
        profile,
        managed: i.managed(),
        enabled: i.enabled,
        up: i.link.up,
        carrier: i.link.carrier,
        level,
        addresses: cidr_list(&addresses),
        gateway: gateway_text(&routes),
        dns: text_list(&facts.servers),
        search: facts.search,
        lease: lease_report(&i.dhcp, now),
    };
    assert(r@ =~= report_of(i@, observed@, now));
    r
}

/// The whole picture: hostname, machine level, every interface but the
/// loopback.
pub fn status(
    interfaces: &Vec<Interface>,
    observed: &Observed,
    hostname: &Option<String>,
    now: Instant,
) -> (r: Status)
    requires
        forall|k: int| 0 <= k < interfaces@.len() ==> (#[trigger] interfaces@[k])@.wf(),
    ensures
        r@ == status_of(table(interfaces@), observed@, text::opt_view(*hostname), now),
{
    let ghost all = table(interfaces@);
    let mut list: Vec<InterfaceStatus> = Vec::new();
    let mut level: Level = Level::Absent;
    let mut k: usize = 0;
    assert(libnetd::interfaces_view(list@) =~= Seq::empty());
    while k < interfaces.len()
        invariant
            k <= interfaces@.len(),
            all == table(interfaces@),
            forall|k: int| 0 <= k < interfaces@.len() ==> (#[trigger] interfaces@[k])@.wf(),
            libnetd::interfaces_view(list@) == reports_of(all.take(k as int), observed@, now),
            level == machine_level(all.take(k as int), observed@),
        decreases interfaces@.len() - k,
    {
        let i: &Interface = &interfaces[k];
        assert(all.take(k + 1).drop_last() =~= all.take(k as int));
        assert(all.take(k + 1).last() == i@);
        if !i.link.loopback {
            let l: Level = i.level(observed);
            if i.managed() {
                level = level.further_of(l);
            }
            let ghost before = libnetd::interfaces_view(list@);
            let r: InterfaceStatus = report(i, observed, l, now);
            list.push(r);
            assert(libnetd::interfaces_view(list@) =~= before.push(r@));
        }
        k = k + 1;
    }
    assert(all.take(k as int) =~= all);
    Status { hostname: copy_or_empty(hostname), level, interfaces: list }
}

// ---- laws ------------------------------------------------------------------

/// Interfaces in order.
pub open spec fn in_order(s: Seq<InterfaceV>) -> bool {
    forall|a: int, b: int| 0 <= a < b < s.len() ==> !ranks_before(#[trigger] s[b], #[trigger] s[a])
}

/// The picture is of managed interfaces alone, in metric order.
pub proof fn the_picture_is_in_metric_order(s: Seq<InterfaceV>)
    ensures
        in_order(ranked(s)),
        forall|k: int| 0 <= k < ranked(s).len() ==> (#[trigger] ranked(s)[k]).managed(),
    decreases s.len(),
{
    if s.len() > 0 {
        the_picture_is_in_metric_order(s.drop_last());
        let before = ranked(s.drop_last());
        let i = s.last();
        if i.managed() {
            let n = rank_place(before, i);
            rank_place_bounds(before, i);
            let t = before.insert(n, i);
            assert forall|a: int, b: int| 0 <= a < b < t.len() implies !ranks_before(
                #[trigger] t[b],
                #[trigger] t[a],
            ) by {
                if a == n {
                    assert(t[b] == before[b - 1]);
                    if b - 1 > n {
                        assert(!ranks_before(before[b - 1], before[n]));
                    }
                } else if b == n {
                    assert(t[a] == before[a]);
                } else {
                    let x = if a < n {
                        a
                    } else {
                        a - 1
                    };
                    let y = if b < n {
                        b
                    } else {
                        b - 1
                    };
                    assert(t[a] == before[x] && t[b] == before[y]);
                }
            }
            assert forall|k: int| 0 <= k < t.len() implies (#[trigger] t[k]).managed() by {
                if k < n {
                    assert(t[k] == before[k]);
                } else if k > n {
                    assert(t[k] == before[k - 1]);
                }
            }
        }
    }
}

pub(crate) proof fn rank_place_bounds(s: Seq<InterfaceV>, i: InterfaceV)
    ensures
        0 <= rank_place(s, i) <= s.len(),
        forall|k: int| 0 <= k < rank_place(s, i) ==> !ranks_before(i, #[trigger] s[k]),
        rank_place(s, i) < s.len() ==> ranks_before(i, s[rank_place(s, i)]),
    decreases s.len(),
{
    if s.len() > 0 && !ranks_before(i, s[0]) {
        let t = s.drop_first();
        rank_place_bounds(t, i);
        assert forall|k: int| 0 <= k < rank_place(s, i) implies !ranks_before(
            i,
            #[trigger] s[k],
        ) by {
            if k > 0 {
                assert(s[k] == t[k - 1]);
            }
        }
        if rank_place(s, i) < s.len() {
            assert(s[rank_place(s, i)] == t[rank_place(t, i)]);
        }
    }
}

/// The machine is as far along as each managed interface, and some managed
/// interface is as far along as the machine, unless there is nothing to tell.
pub proof fn the_machine_is_as_far_as_its_best(s: Seq<InterfaceV>, o: ObservedV)
    ensures
        forall|k: int|
            0 <= k < s.len() && (#[trigger] s[k]).managed() ==> machine_level(s, o).rank()
                >= s[k].level(o).rank(),
        machine_level(s, o) != Level::Absent ==> exists|k: int|
            0 <= k < s.len() && (#[trigger] s[k]).managed() && s[k].level(o) == machine_level(s, o),
    decreases s.len(),
{
    if s.len() > 0 {
        let w = s.drop_last();
        the_machine_is_as_far_as_its_best(w, o);
        assert forall|k: int| 0 <= k < s.len() && (#[trigger] s[k]).managed() implies machine_level(
            s,
            o,
        ).rank() >= s[k].level(o).rank() by {
            if k < w.len() {
                assert(w[k] == s[k]);
            }
        }
        if machine_level(s, o) != Level::Absent {
            if s.last().managed() && machine_level(s, o) == s.last().level(o) {
                assert(s[s.len() - 1].managed());
            } else {
                let k = choose|k: int|
                    0 <= k < w.len() && (#[trigger] w[k]).managed() && w[k].level(o)
                        == machine_level(w, o);
                assert(s[k] == w[k]);
            }
        }
    }
}

/// No loopback is reported, and every other interface is, in the order of the
/// table.
pub proof fn everything_but_the_loopback_is_reported(s: Seq<InterfaceV>, o: ObservedV, now: Instant, k: int)
    requires
        0 <= k < s.len(),
        !s[k].link.loopback,
    ensures
        reports_of(s, o, now).contains(report_of(s[k], o, now)),
    decreases s.len(),
{
    let r = reports_of(s, o, now);
    if k == s.len() - 1 {
        assert(r[r.len() - 1] == report_of(s[k], o, now));
    } else {
        let w = s.drop_last();
        everything_but_the_loopback_is_reported(w, o, now, k);
        let before = reports_of(w, o, now);
        let j = choose|j: int| 0 <= j < before.len() && before[j] == report_of(w[k], o, now);
        assert(r[j] == before[j]);
    }
}

} // verus!
