//! Desired state, diffed against observed state.
//!
//! The one rule: the daemon owns what it configured and nothing else.
//! Addresses on a managed interface are all its own (a manual `ip addr add` is
//! reverted: the registry is the truth); routes are its own only when they
//! carry `RTPROT_NETD`, so a program's own routes are left alone.

use vstd::prelude::*;
use crate::addr::{IpAddr, Ipv4Addr, Ipv6Addr};
use super::model;
use super::model::{Address, LinkV, Observed, ObservedV, RTPROT_NETD, Route};

verus! {

/// One IPv6 address the interface should carry, with the flags SLAAC needs.
#[derive(Debug, Clone, Copy, PartialEq, Eq, Structural)]
pub struct DesiredV6 {
    pub address: Ipv6Addr,
    pub prefix: u8,
    /// Keep it, but with a preferred lifetime of zero.
    pub deprecated: bool,
    /// The prefix is not on-link; the kernel must not derive a prefix route.
    pub no_prefix_route: bool,
}

/// What one managed interface should look like.
#[derive(Debug, PartialEq, Eq)]
pub struct Desired {
    pub index: u32,
    pub up: bool,
    pub mtu: Option<u32>,
    pub addresses: Vec<(Ipv4Addr, u8)>,
    pub addresses6: Vec<DesiredV6>,
    pub broadcast: Option<Ipv4Addr>,
    /// Gateway for a default route, with its metric.
    pub default_route: Option<(Ipv4Addr, u32)>,
    /// Gateway for the IPv6 default route: a router's link-local.
    pub default_route6: Option<(Ipv6Addr, u32)>,
    /// (destination, prefix, gateway, metric)
    pub routes: Vec<(Ipv4Addr, u8, Ipv4Addr, u32)>,
}

/// The same as values.
#[verifier::ext_equal]
pub struct DesiredV {
    pub index: u32,
    pub up: bool,
    pub mtu: Option<u32>,
    pub addresses: Seq<(Ipv4Addr, u8)>,
    pub addresses6: Seq<DesiredV6>,
    pub broadcast: Option<Ipv4Addr>,
    pub default_route: Option<(Ipv4Addr, u32)>,
    pub default_route6: Option<(Ipv6Addr, u32)>,
    pub routes: Seq<(Ipv4Addr, u8, Ipv4Addr, u32)>,
}

impl View for Desired {
    type V = DesiredV;

    open spec fn view(&self) -> DesiredV {
        DesiredV {
            index: self.index,
            up: self.up,
            mtu: self.mtu,
            addresses: self.addresses@,
            addresses6: self.addresses6@,
            broadcast: self.broadcast,
            default_route: self.default_route,
            default_route6: self.default_route6,
            routes: self.routes@,
        }
    }
}

/// Nothing wanted of an interface but that it be down.
pub open spec fn nothing_wanted() -> DesiredV {
    DesiredV {
        index: 0,
        up: false,
        mtu: None,
        addresses: Seq::empty(),
        addresses6: Seq::empty(),
        broadcast: None,
        default_route: None,
        default_route6: None,
        routes: Seq::empty(),
    }
}

impl Default for Desired {
    fn default() -> (d: Desired)
        ensures
            d@ == nothing_wanted(),
    {
        Desired {
            index: 0,
            up: false,
            mtu: None,
            addresses: Vec::new(),
            addresses6: Vec::new(),
            broadcast: None,
            default_route: None,
            default_route6: None,
            routes: Vec::new(),
        }
    }
}

/// Steps the reconciler decided on, in order. Separated from application so
/// tests can assert on them.
#[derive(Debug, Clone, Copy, PartialEq, Eq, Structural)]
pub enum Op {
    LinkUp(u32),
    LinkDown(u32),
    Mtu(u32, u32),
    AddAddress(Address, Option<Ipv4Addr>),
    DelAddress(Address),
    AddRoute(Route),
    DelRoute(Route),
}

// ---- order -----------------------------------------------------------------

/// Where an address stands in order: IPv4 before IPv6, each by number.
pub open spec fn ip_rank(a: IpAddr) -> nat {
    match a {
        IpAddr::V4(a) => a.bits as nat,
        IpAddr::V6(a) => 0x1_0000_0000 + a.bits as nat,
    }
}

/// Where an optional gateway stands: none first.
pub open spec fn gateway_rank(g: Option<IpAddr>) -> nat {
    match g {
        None => 0,
        Some(a) => 1 + ip_rank(a),
    }
}

fn ip_before(a: IpAddr, b: IpAddr) -> (r: bool)
    ensures
        r == (ip_rank(a) < ip_rank(b)),
{
    match (a, b) {
        (IpAddr::V4(x), IpAddr::V4(y)) => x.bits < y.bits,
        (IpAddr::V6(x), IpAddr::V6(y)) => x.bits < y.bits,
        (IpAddr::V4(_), IpAddr::V6(_)) => true,
        (IpAddr::V6(_), IpAddr::V4(_)) => false,
    }
}

fn gateway_before(a: Option<IpAddr>, b: Option<IpAddr>) -> (r: bool)
    ensures
        r == (gateway_rank(a) < gateway_rank(b)),
{
    match (a, b) {
        (None, None) => false,
        (None, Some(_)) => true,
        (Some(_), None) => false,
        (Some(x), Some(y)) => ip_before(x, y),
    }
}

/// The order of addresses: field by field.
pub open spec fn address_before(a: Address, b: Address) -> bool {
    if a.index != b.index {
        a.index < b.index
    } else if a.address != b.address {
        ip_rank(a.address) < ip_rank(b.address)
    } else if a.prefix != b.prefix {
        a.prefix < b.prefix
    } else if a.deprecated != b.deprecated {
        !a.deprecated
    } else if a.no_prefix_route != b.no_prefix_route {
        !a.no_prefix_route
    } else {
        !a.tentative && b.tentative
    }
}

fn address_earlier(a: &Address, b: &Address) -> (r: bool)
    ensures
        r == address_before(*a, *b),
{
    if a.index != b.index {
        a.index < b.index
    } else if a.address != b.address {
        ip_before(a.address, b.address)
    } else if a.prefix != b.prefix {
        a.prefix < b.prefix
    } else if a.deprecated != b.deprecated {
        !a.deprecated
    } else if a.no_prefix_route != b.no_prefix_route {
        !a.no_prefix_route
    } else {
        !a.tentative && b.tentative
    }
}

/// The order of routes: field by field.
pub open spec fn route_before(a: Route, b: Route) -> bool {
    if a.index != b.index {
        a.index < b.index
    } else if a.destination != b.destination {
        ip_rank(a.destination) < ip_rank(b.destination)
    } else if a.prefix != b.prefix {
        a.prefix < b.prefix
    } else if a.gateway != b.gateway {
        gateway_rank(a.gateway) < gateway_rank(b.gateway)
    } else if a.metric != b.metric {
        a.metric < b.metric
    } else {
        a.protocol < b.protocol
    }
}

fn route_earlier(a: &Route, b: &Route) -> (r: bool)
    ensures
        r == route_before(*a, *b),
{
    if a.index != b.index {
        a.index < b.index
    } else if a.destination != b.destination {
        ip_before(a.destination, b.destination)
    } else if a.prefix != b.prefix {
        a.prefix < b.prefix
    } else if a.gateway != b.gateway {
        gateway_before(a.gateway, b.gateway)
    } else if a.metric != b.metric {
        a.metric < b.metric
    } else {
        a.protocol < b.protocol
    }
}

/// How many of an ordered list come before `a`.
pub open spec fn address_place(s: Seq<Address>, a: Address) -> int
    decreases s.len(),
{
    if s.len() > 0 && address_before(s[0], a) {
        1 + address_place(s.drop_first(), a)
    } else {
        0
    }
}

/// An ordered list with `a` in it, once.
pub open spec fn address_into(s: Seq<Address>, a: Address) -> Seq<Address> {
    if s.contains(a) {
        s
    } else {
        s.insert(address_place(s, a), a)
    }
}

/// The elements of a list, each once, in order.
pub open spec fn address_set(s: Seq<Address>) -> Seq<Address>
    decreases s.len(),
{
    if s.len() == 0 {
        s
    } else {
        address_into(address_set(s.drop_last()), s.last())
    }
}

/// How many of an ordered list come before `r`.
pub open spec fn route_place(s: Seq<Route>, r: Route) -> int
    decreases s.len(),
{
    if s.len() > 0 && route_before(s[0], r) {
        1 + route_place(s.drop_first(), r)
    } else {
        0
    }
}

/// An ordered list with `r` in it, once.
pub open spec fn route_into(s: Seq<Route>, r: Route) -> Seq<Route> {
    if s.contains(r) {
        s
    } else {
        s.insert(route_place(s, r), r)
    }
}

/// The elements of a list, each once, in order.
pub open spec fn route_set(s: Seq<Route>) -> Seq<Route>
    decreases s.len(),
{
    if s.len() == 0 {
        s
    } else {
        route_into(route_set(s.drop_last()), s.last())
    }
}

proof fn address_place_found(s: Seq<Address>, a: Address, n: int)
    requires
        0 <= n <= s.len(),
        forall|i: int| 0 <= i < n ==> address_before(#[trigger] s[i], a),
        n < s.len() ==> !address_before(s[n], a),
    ensures
        address_place(s, a) == n,
    decreases n,
{
    if n > 0 {
        let t = s.drop_first();
        assert(address_before(s[0], a));
        assert forall|i: int| 0 <= i < n - 1 implies address_before(#[trigger] t[i], a) by {
            assert(t[i] == s[i + 1]);
        }
        address_place_found(t, a, n - 1);
    }
}

proof fn route_place_found(s: Seq<Route>, r: Route, n: int)
    requires
        0 <= n <= s.len(),
        forall|i: int| 0 <= i < n ==> route_before(#[trigger] s[i], r),
        n < s.len() ==> !route_before(s[n], r),
    ensures
        route_place(s, r) == n,
    decreases n,
{
    if n > 0 {
        let t = s.drop_first();
        assert(route_before(s[0], r));
        assert forall|i: int| 0 <= i < n - 1 implies route_before(#[trigger] t[i], r) by {
            assert(t[i] == s[i + 1]);
        }
        route_place_found(t, r, n - 1);
    }
}

fn has_address(v: &Vec<Address>, a: &Address) -> (r: bool)
    ensures
        r == v@.contains(*a),
{
    let mut i: usize = 0;
    while i < v.len()
        invariant
            i <= v@.len(),
            forall|j: int| 0 <= j < i ==> v@[j] != *a,
        decreases v@.len() - i,
    {
        if v[i] == *a {
            assert(v@[i as int] == *a);
            return true;
        }
        i = i + 1;
    }
    false
}

fn has_route(v: &Vec<Route>, a: &Route) -> (r: bool)
    ensures
        r == v@.contains(*a),
{
    let mut i: usize = 0;
    while i < v.len()
        invariant
            i <= v@.len(),
            forall|j: int| 0 <= j < i ==> v@[j] != *a,
        decreases v@.len() - i,
    {
        if v[i] == *a {
            assert(v@[i as int] == *a);
            return true;
        }
        i = i + 1;
    }
    false
}

fn put_address(v: &mut Vec<Address>, a: Address)
    ensures
        final(v)@ == address_into(old(v)@, a),
{
    if has_address(v, &a) {
        return;
    }
    let mut n: usize = 0;
    while n < v.len() && address_earlier(&v[n], &a)
        invariant
            n <= v@.len(),
            v@ == old(v)@,
            forall|i: int| 0 <= i < n ==> address_before(#[trigger] v@[i], a),
        decreases v@.len() - n,
    {
        n = n + 1;
    }
    proof {
        address_place_found(v@, a, n as int);
    }
    v.insert(n, a);
}

fn put_route(v: &mut Vec<Route>, r: Route)
    ensures
        final(v)@ == route_into(old(v)@, r),
{
    if has_route(v, &r) {
        return;
    }
    let mut n: usize = 0;
    while n < v.len() && route_earlier(&v[n], &r)
        invariant
            n <= v@.len(),
            v@ == old(v)@,
            forall|i: int| 0 <= i < n ==> route_before(#[trigger] v@[i], r),
        decreases v@.len() - n,
    {
        n = n + 1;
    }
    proof {
        route_place_found(v@, r, n as int);
    }
    v.insert(n, r);
}

// ---- what is wanted and what is there --------------------------------------

/// A wanted IPv6 address as the kernel would show it.
pub open spec fn shown6(index: u32, a: DesiredV6) -> Address {
    Address {
        index,
        address: IpAddr::V6(a.address),
        prefix: a.prefix,
        deprecated: a.deprecated,
        no_prefix_route: a.no_prefix_route,
        tentative: false,
    }
}

/// The addresses wanted, IPv4 first.
pub open spec fn wanted_addresses(d: DesiredV) -> Seq<Address> {
    d.addresses.map_values(
        |a: (Ipv4Addr, u8)| model::plain_address(d.index, IpAddr::V4(a.0), a.1),
    ) + d.addresses6.map_values(|a: DesiredV6| shown6(d.index, a))
}

/// Whether an address is the daemon's to manage. The kernel's own IPv6
/// link-local is not: every up interface has one, made by the kernel, needed
/// by neighbour discovery.
pub open spec fn manageable(a: Address) -> bool {
    match a.address {
        IpAddr::V4(_) => true,
        IpAddr::V6(x) => !x.link_local(),
    }
}

/// An address without the flag that duplicate address detection clears:
/// finishing is not a difference.
pub open spec fn settled(a: Address) -> Address {
    Address { tentative: false, ..a }
}

/// The manageable addresses of a list, settled.
pub open spec fn managed_addresses(s: Seq<Address>) -> Seq<Address>
    decreases s.len(),
{
    if s.len() == 0 {
        s
    } else if manageable(s.last()) {
        managed_addresses(s.drop_last()).push(settled(s.last()))
    } else {
        managed_addresses(s.drop_last())
    }
}

/// Whether a list names an address, whatever its flags.
pub open spec fn names(want: Seq<Address>, a: Address) -> bool {
    exists|i: int|
        0 <= i < want.len() && (#[trigger] want[i]).address == a.address && want[i].prefix
            == a.prefix
}

/// A deletion for each address of `have` that `want` does not name. A
/// flags-only change (deprecation) is a replacing add, never a delete that
/// would reset standing connections.
pub open spec fn address_deletions(have: Seq<Address>, want: Seq<Address>) -> Seq<Op>
    decreases have.len(),
{
    if have.len() == 0 {
        Seq::empty()
    } else {
        let before = address_deletions(have.drop_last(), want);
        if names(want, have.last()) {
            before
        } else {
            before.push(Op::DelAddress(have.last()))
        }
    }
}

/// An addition for each address of `want` that is not in `have`.
pub open spec fn address_additions(
    want: Seq<Address>,
    have: Seq<Address>,
    broadcast: Option<Ipv4Addr>,
) -> Seq<Op>
    decreases want.len(),
{
    if want.len() == 0 {
        Seq::empty()
    } else {
        let before = address_additions(want.drop_last(), have, broadcast);
        if have.contains(want.last()) {
            before
        } else {
            before.push(Op::AddAddress(want.last(), broadcast))
        }
    }
}

/// A route of ours.
pub open spec fn our_route(
    index: u32,
    destination: IpAddr,
    prefix: u8,
    gateway: IpAddr,
    metric: u32,
) -> Route {
    Route {
        index,
        destination,
        prefix,
        gateway: Some(gateway),
        metric,
        protocol: RTPROT_NETD,
    }
}

/// The routes wanted: the listed ones, then the default routes.
pub open spec fn wanted_routes(d: DesiredV) -> Seq<Route> {
    let listed = d.routes.map_values(
        |r: (Ipv4Addr, u8, Ipv4Addr, u32)|
            our_route(d.index, IpAddr::V4(r.0), r.1, IpAddr::V4(r.2), r.3),
    );
    let with4 = match d.default_route {
        Some((g, m)) => listed.push(
            our_route(d.index, IpAddr::V4(Ipv4Addr { bits: 0 }), 0, IpAddr::V4(g), m),
        ),
        None => listed,
    };
    match d.default_route6 {
        Some((g, m)) => with4.push(
            our_route(d.index, IpAddr::V6(Ipv6Addr { bits: 0 }), 0, IpAddr::V6(g), m),
        ),
        None => with4,
    }
}

/// The routes of a list that we stamped: only those are ours to remove.
pub open spec fn stamped(s: Seq<Route>) -> Seq<Route>
    decreases s.len(),
{
    if s.len() == 0 {
        s
    } else if s.last().protocol == RTPROT_NETD {
        stamped(s.drop_last()).push(s.last())
    } else {
        stamped(s.drop_last())
    }
}

/// A deletion for each route of `have` that is not in `want`.
pub open spec fn route_deletions(have: Seq<Route>, want: Seq<Route>) -> Seq<Op>
    decreases have.len(),
{
    if have.len() == 0 {
        Seq::empty()
    } else {
        let before = route_deletions(have.drop_last(), want);
        if want.contains(have.last()) {
            before
        } else {
            before.push(Op::DelRoute(have.last()))
        }
    }
}

/// An addition for each route of `want` that is not in `have`.
pub open spec fn route_additions(want: Seq<Route>, have: Seq<Route>) -> Seq<Op>
    decreases want.len(),
{
    if want.len() == 0 {
        Seq::empty()
    } else {
        let before = route_additions(want.drop_last(), have);
        if have.contains(want.last()) {
            before
        } else {
            before.push(Op::AddRoute(want.last()))
        }
    }
}

/// The address set wanted.
pub open spec fn want_set(d: DesiredV) -> Seq<Address> {
    address_set(wanted_addresses(d))
}

/// The address set there.
pub open spec fn have_set(o: ObservedV, index: u32) -> Seq<Address> {
    address_set(managed_addresses(model::addresses_on(o.addresses, index)))
}

/// The route set wanted.
pub open spec fn want_route_set(d: DesiredV) -> Seq<Route> {
    route_set(wanted_routes(d))
}

/// The route set of ours that is there.
pub open spec fn have_route_set(o: ObservedV, index: u32) -> Seq<Route> {
    route_set(stamped(model::routes_on(o.routes, index)))
}

/// Steps that bring the link up and give it its MTU.
pub open spec fn link_steps(l: LinkV, d: DesiredV) -> Seq<Op> {
    (if d.up && !l.up {
        seq![Op::LinkUp(d.index)]
    } else {
        Seq::empty()
    }) + match d.mtu {
        Some(m) => if m != l.mtu && m >= 68 {
            seq![Op::Mtu(d.index, m)]
        } else {
            Seq::empty()
        },
        None => Seq::empty(),
    }
}

/// The steps from what is observed to what is wanted; none where there is no
/// such link.
pub open spec fn planned(o: ObservedV, d: DesiredV) -> Seq<Op> {
    match model::link_with(o.links, d.index) {
        None => Seq::empty(),
        Some(l) => link_steps(l, d) + address_deletions(have_set(o, d.index), want_set(d))
            + address_additions(want_set(d), have_set(o, d.index), d.broadcast) + route_deletions(
            have_route_set(o, d.index),
            want_route_set(d),
        ) + route_additions(want_route_set(d), have_route_set(o, d.index)) + (if !d.up && l.up {
            seq![Op::LinkDown(d.index)]
        } else {
            Seq::empty()
        }),
    }
}

fn collect_wanted(d: &Desired) -> (v: Vec<Address>)
    ensures
        v@ == want_set(d@),
{
    let mut v: Vec<Address> = Vec::new();
    let ghost all = wanted_addresses(d@);
    let mut i: usize = 0;
    assert(all.take(0) =~= Seq::empty());
    while i < d.addresses.len()
        invariant
            i <= d.addresses@.len(),
            all == wanted_addresses(d@),
            v@ == address_set(all.take(i as int)),
        decreases d.addresses@.len() - i,
    {
        assert(all.take(i + 1).drop_last() =~= all.take(i as int));
        let a: (Ipv4Addr, u8) = d.addresses[i];
        put_address(&mut v, Address::new(d.index, IpAddr::V4(a.0), a.1));
        i = i + 1;
    }
    let n: usize = d.addresses.len();
    let mut j: usize = 0;
    while j < d.addresses6.len()
        invariant
            j <= d.addresses6@.len(),
            n == d.addresses@.len(),
            all == wanted_addresses(d@),
            v@ == address_set(all.take(n + j)),
        decreases d.addresses6@.len() - j,
    {
        assert(all.take(n + j + 1).drop_last() =~= all.take(n + j));
        let a: DesiredV6 = d.addresses6[j];
        put_address(
            &mut v,
            Address {
                index: d.index,
                address: IpAddr::V6(a.address),
                prefix: a.prefix,
                deprecated: a.deprecated,
                no_prefix_route: a.no_prefix_route,
                tentative: false,
            },
        );
        j = j + 1;
    }
    assert(all.take(n + j) =~= all);
    v
}

fn collect_present(o: &Observed, index: u32) -> (v: Vec<Address>)
    ensures
        v@ == have_set(o@, index),
{
    let on: Vec<Address> = o.addresses_of(index);
    let mut v: Vec<Address> = Vec::new();
    let ghost mut kept: Seq<Address> = Seq::empty();
    let mut i: usize = 0;
    assert(on@.take(0) =~= Seq::empty());
    while i < on.len()
        invariant
            i <= on@.len(),
            kept == managed_addresses(on@.take(i as int)),
            v@ == address_set(kept),
        decreases on@.len() - i,
    {
        assert(on@.take(i + 1).drop_last() =~= on@.take(i as int));
        let a: Address = on[i];
        let ours: bool = match a.address {
            IpAddr::V4(_) => true,
            IpAddr::V6(x) => !model::is_v6_link_local(&x),
        };
        if ours {
            let s: Address = Address { tentative: false, ..a };
            assert(kept.push(s).drop_last() =~= kept);
            put_address(&mut v, s);
            proof {
                kept = kept.push(s);
            }
        }
        i = i + 1;
    }
    assert(on@.take(i as int) =~= on@);
    v
}

fn collect_wanted_routes(d: &Desired) -> (v: Vec<Route>)
    ensures
        v@ == want_route_set(d@),
{
    let mut v: Vec<Route> = Vec::new();
    let ghost listed = d@.routes.map_values(
        |r: (Ipv4Addr, u8, Ipv4Addr, u32)|
            our_route(d@.index, IpAddr::V4(r.0), r.1, IpAddr::V4(r.2), r.3),
    );
    let mut i: usize = 0;
    assert(listed.take(0) =~= Seq::empty());
    while i < d.routes.len()
        invariant
            i <= d.routes@.len(),
            listed == d@.routes.map_values(
                |r: (Ipv4Addr, u8, Ipv4Addr, u32)|
                    our_route(d@.index, IpAddr::V4(r.0), r.1, IpAddr::V4(r.2), r.3),
            ),
            v@ == route_set(listed.take(i as int)),
        decreases d.routes@.len() - i,
    {
        assert(listed.take(i + 1).drop_last() =~= listed.take(i as int));
        let r: (Ipv4Addr, u8, Ipv4Addr, u32) = d.routes[i];
        put_route(
            &mut v,
            Route {
                index: d.index,
                destination: IpAddr::V4(r.0),
                prefix: r.1,
                gateway: Some(IpAddr::V4(r.2)),
                metric: r.3,
                protocol: RTPROT_NETD,
            },
        );
        i = i + 1;
    }
    assert(listed.take(i as int) =~= listed);
    let ghost mut all = listed;
    match d.default_route {
        Some((gateway, metric)) => {
            let r: Route = Route {
                index: d.index,
                destination: IpAddr::V4(Ipv4Addr::unspecified()),
                prefix: 0,
                gateway: Some(IpAddr::V4(gateway)),
                metric,
                protocol: RTPROT_NETD,
            };
            put_route(&mut v, r);
            proof {
                assert(all.push(r).drop_last() =~= all);
                all = all.push(r);
                assert(v@ == route_set(all));
            }
        },
        None => {},
    }
    match d.default_route6 {
        Some((gateway, metric)) => {
            let r: Route = Route {
                index: d.index,
                destination: IpAddr::V6(Ipv6Addr { bits: 0 }),
                prefix: 0,
                gateway: Some(IpAddr::V6(gateway)),
                metric,
                protocol: RTPROT_NETD,
            };
            put_route(&mut v, r);
            proof {
                assert(all.push(r).drop_last() =~= all);
                all = all.push(r);
                assert(v@ == route_set(all));
            }
        },
        None => {},
    }
    assert(all =~= wanted_routes(d@));
    v
}

fn collect_our_routes(o: &Observed, index: u32) -> (v: Vec<Route>)
    ensures
        v@ == have_route_set(o@, index),
{
    let on: Vec<Route> = o.routes_of(index);
    let mut v: Vec<Route> = Vec::new();
    let ghost mut kept: Seq<Route> = Seq::empty();
    let mut i: usize = 0;
    assert(on@.take(0) =~= Seq::empty());
    while i < on.len()
        invariant
            i <= on@.len(),
            kept == stamped(on@.take(i as int)),
            v@ == route_set(kept),
        decreases on@.len() - i,
    {
        assert(on@.take(i + 1).drop_last() =~= on@.take(i as int));
        let r: Route = on[i];
        if r.protocol == RTPROT_NETD {
            assert(kept.push(r).drop_last() =~= kept);
            put_route(&mut v, r);
            proof {
                kept = kept.push(r);
            }
        }
        i = i + 1;
    }
    assert(on@.take(i as int) =~= on@);
    v
}

fn is_named(want: &Vec<Address>, a: &Address) -> (r: bool)
    ensures
        r == names(want@, *a),
{
    let mut i: usize = 0;
    while i < want.len()
        invariant
            i <= want@.len(),
            forall|j: int|
                0 <= j < i ==> !((#[trigger] want@[j]).address == a.address && want@[j].prefix
                    == a.prefix),
        decreases want@.len() - i,
    {
        if want[i].address == a.address && want[i].prefix == a.prefix {
            return true;
        }
        i = i + 1;
    }
    false
}

fn plan_addresses(ops: &mut Vec<Op>, have: &Vec<Address>, want: &Vec<Address>, broadcast: Option<
    Ipv4Addr,
>)
    ensures
        final(ops)@ == old(ops)@ + address_deletions(have@, want@) + address_additions(
            want@,
            have@,
            broadcast,
        ),
{
    let ghost start = ops@;
    let mut i: usize = 0;
    assert(have@.take(0) =~= Seq::empty());
    assert(start + Seq::<Op>::empty() =~= start);
    while i < have.len()
        invariant
            i <= have@.len(),
            ops@ == start + address_deletions(have@.take(i as int), want@),
        decreases have@.len() - i,
    {
        assert(have@.take(i + 1).drop_last() =~= have@.take(i as int));
        // Delete only what no desired address names.
        if !is_named(want, &have[i]) {
            ops.push(Op::DelAddress(have[i]));
        }
        i = i + 1;
        assert(ops@ =~= start + address_deletions(have@.take(i as int), want@));
    }
    assert(have@.take(i as int) =~= have@);
    let ghost deleted = ops@;
    let mut j: usize = 0;
    assert(want@.take(0) =~= Seq::empty());
    assert(deleted + Seq::<Op>::empty() =~= deleted);
    while j < want.len()
        invariant
            j <= want@.len(),
            ops@ == deleted + address_additions(want@.take(j as int), have@, broadcast),
        decreases want@.len() - j,
    {
        assert(want@.take(j + 1).drop_last() =~= want@.take(j as int));
        if !has_address(have, &want[j]) {
            ops.push(Op::AddAddress(want[j], broadcast));
        }
        j = j + 1;
        assert(ops@ =~= deleted + address_additions(want@.take(j as int), have@, broadcast));
    }
    assert(want@.take(j as int) =~= want@);
}

fn plan_routes(ops: &mut Vec<Op>, have: &Vec<Route>, want: &Vec<Route>)
    ensures
        final(ops)@ == old(ops)@ + route_deletions(have@, want@) + route_additions(want@, have@),
{
    let ghost start = ops@;
    let mut i: usize = 0;
    assert(have@.take(0) =~= Seq::empty());
    assert(start + Seq::<Op>::empty() =~= start);
    while i < have.len()
        invariant
            i <= have@.len(),
            ops@ == start + route_deletions(have@.take(i as int), want@),
        decreases have@.len() - i,
    {
        assert(have@.take(i + 1).drop_last() =~= have@.take(i as int));
        if !has_route(want, &have[i]) {
            ops.push(Op::DelRoute(have[i]));
        }
        i = i + 1;
        assert(ops@ =~= start + route_deletions(have@.take(i as int), want@));
    }
    assert(have@.take(i as int) =~= have@);
    let ghost deleted = ops@;
    let mut j: usize = 0;
    assert(want@.take(0) =~= Seq::empty());
    assert(deleted + Seq::<Op>::empty() =~= deleted);
    while j < want.len()
        invariant
            j <= want@.len(),
            ops@ == deleted + route_additions(want@.take(j as int), have@),
        decreases want@.len() - j,
    {
        assert(want@.take(j + 1).drop_last() =~= want@.take(j as int));
        if !has_route(have, &want[j]) {
            ops.push(Op::AddRoute(want[j]));
        }
        j = j + 1;
        assert(ops@ =~= deleted + route_additions(want@.take(j as int), have@));
    }
    assert(want@.take(j as int) =~= want@);
}

/// The steps from what is observed to what is wanted.
pub fn plan(observed: &Observed, desired: &Desired) -> (ops: Vec<Op>)
    ensures
        ops@ == planned(observed@, desired@),
{
    let mut ops: Vec<Op> = Vec::new();
    let index: u32 = desired.index;
    let (up, mtu): (bool, u32) = match observed.link(index) {
        Some(link) => (link.up, link.mtu),
        None => {
            return ops;
        },
    };
    let ghost l = model::link_with(observed@.links, index)->0;
    if desired.up && !up {
        ops.push(Op::LinkUp(index));
    }
    match desired.mtu {
        Some(m) => if m != mtu && m >= 68 {
            ops.push(Op::Mtu(index, m));
        },
        None => {},
    }
    assert(ops@ =~= link_steps(l, desired@));
    let want: Vec<Address> = collect_wanted(desired);
    let have: Vec<Address> = collect_present(observed, index);
    plan_addresses(&mut ops, &have, &want, desired.broadcast);
    let want_routes: Vec<Route> = collect_wanted_routes(desired);
    let have_routes: Vec<Route> = collect_our_routes(observed, index);
    plan_routes(&mut ops, &have_routes, &want_routes);
    if !desired.up && up {
        ops.push(Op::LinkDown(index));
    }
    assert(ops@ =~= planned(observed@, desired@));
    ops
}

// ---- application -----------------------------------------------------------

/// What the kernel said to a step.
#[derive(Debug, Clone, Copy, PartialEq, Eq, Structural)]
pub enum Outcome {
    Done,
    /// It exists already (`EEXIST`).
    Exists,
    /// There is no such thing (`ENOENT`, `ESRCH`).
    Missing,
    /// Anything else.
    Failed,
}

/// `ENOENT`.
pub const ENOENT: i32 = 2;

/// `ESRCH`.
pub const ESRCH: i32 = 3;

/// `EEXIST`.
pub const EEXIST: i32 = 17;

impl Outcome {
    /// What an error number means; `None` where there is no number.
    pub fn of(code: Option<i32>) -> (r: Outcome)
        ensures
            r == match code {
                Some(n) => if n == EEXIST {
                    Outcome::Exists
                } else if n == ENOENT || n == ESRCH {
                    Outcome::Missing
                } else {
                    Outcome::Failed
                },
                None => Outcome::Failed,
            },
    {
        match code {
            Some(n) => if n == EEXIST {
                Outcome::Exists
            } else if n == ENOENT || n == ESRCH {
                Outcome::Missing
            } else {
                Outcome::Failed
            },
            None => Outcome::Failed,
        }
    }
}

/// Whether an outcome leaves a step undone. What exists already on an add, or
/// is missing on a delete, means that the kernel got there first (a duplicate
/// event, a race with a dump).
pub open spec fn is_failure(op: Op, outcome: Outcome) -> bool {
    match outcome {
        Outcome::Done => false,
        Outcome::Exists => !(op is AddRoute || op is AddAddress),
        Outcome::Missing => !(op is DelRoute || op is DelAddress),
        Outcome::Failed => true,
    }
}

/// Whether an outcome leaves a step undone.
pub fn failed(op: &Op, outcome: Outcome) -> (r: bool)
    ensures
        r == is_failure(*op, outcome),
{
    match outcome {
        Outcome::Done => false,
        Outcome::Exists => match op {
            Op::AddRoute(_) | Op::AddAddress(_, _) => false,
            _ => true,
        },
        Outcome::Missing => match op {
            Op::DelRoute(_) | Op::DelAddress(_) => false,
            _ => true,
        },
        Outcome::Failed => true,
    }
}

/// How many steps were left undone.
pub open spec fn failures(ops: Seq<Op>, outcomes: Seq<Outcome>) -> nat
    decreases ops.len(),
{
    if ops.len() == 0 || outcomes.len() < ops.len() {
        0
    } else {
        failures(ops.drop_last(), outcomes.take(ops.len() - 1)) + if is_failure(
            ops.last(),
            outcomes[ops.len() - 1],
        ) {
            1nat
        } else {
            0
        }
    }
}

/// How many of the steps taken were left undone. Every step is taken, whatever
/// became of the ones before it: one bad route must not stop the address from
/// landing.
pub fn apply(ops: &Vec<Op>, outcomes: &Vec<Outcome>) -> (n: usize)
    requires
        outcomes@.len() == ops@.len(),
    ensures
        n == failures(ops@, outcomes@),
        n <= ops@.len(),
{
    let mut n: usize = 0;
    let mut i: usize = 0;
    while i < ops.len()
        invariant
            i <= ops@.len(),
            outcomes@.len() == ops@.len(),
            n <= i,
            n == failures(ops@.take(i as int), outcomes@.take(i as int)),
        decreases ops@.len() - i,
    {
        assert(ops@.take(i + 1).drop_last() =~= ops@.take(i as int));
        assert(outcomes@.take(i + 1).take(i as int) =~= outcomes@.take(i as int));
        if failed(&ops[i], outcomes[i]) {
            n = n + 1;
        }
        i = i + 1;
    }
    assert(ops@.take(i as int) =~= ops@);
    assert(outcomes@.take(i as int) =~= outcomes@);
    n
}

// ---- laws ------------------------------------------------------------------

proof fn address_set_members(s: Seq<Address>)
    ensures
        forall|a: Address| #[trigger] address_set(s).contains(a) <==> s.contains(a),
    decreases s.len(),
{
    if s.len() > 0 {
        let t = s.drop_last();
        address_set_members(t);
        let u = address_set(t);
        let x = s.last();
        let v = address_set(s);
        address_place_bound(u, x);
        let n = address_place(u, x);
        assert forall|a: Address| #[trigger] v.contains(a) <==> s.contains(a) by {
            if v.contains(a) {
                if u.contains(x) {
                    assert(u.contains(a));
                } else {
                    let i = choose|i: int| 0 <= i < v.len() && v[i] == a;
                    if i < n {
                        assert(u[i] == a);
                        assert(u.contains(a));
                    } else if i > n {
                        assert(u[i - 1] == a);
                        assert(u.contains(a));
                    } else {
                        assert(v[n] == x);
                    }
                }
                if a != x {
                    assert(t.contains(a));
                    let j = choose|j: int| 0 <= j < t.len() && t[j] == a;
                    assert(s[j] == a);
                } else {
                    assert(s[s.len() - 1] == a);
                }
            }
            if s.contains(a) {
                let j = choose|j: int| 0 <= j < s.len() && s[j] == a;
                if j < t.len() {
                    assert(t[j] == a);
                    assert(t.contains(a));
                    assert(u.contains(a));
                    let i = choose|i: int| 0 <= i < u.len() && u[i] == a;
                    if u.contains(x) {
                        assert(v.contains(a));
                    } else if i < n {
                        assert(v[i] == a);
                    } else {
                        assert(v[i + 1] == a);
                    }
                } else if !u.contains(x) {
                    assert(v[n] == a);
                }
            }
        }
    }
}

proof fn address_place_bound(s: Seq<Address>, a: Address)
    ensures
        0 <= address_place(s, a) <= s.len(),
    decreases s.len(),
{
    if s.len() > 0 && address_before(s[0], a) {
        address_place_bound(s.drop_first(), a);
    }
}

proof fn route_place_bound(s: Seq<Route>, a: Route)
    ensures
        0 <= route_place(s, a) <= s.len(),
    decreases s.len(),
{
    if s.len() > 0 && route_before(s[0], a) {
        route_place_bound(s.drop_first(), a);
    }
}

pub(crate) proof fn route_set_members(s: Seq<Route>)
    ensures
        forall|a: Route| #[trigger] route_set(s).contains(a) <==> s.contains(a),
    decreases s.len(),
{
    if s.len() > 0 {
        let t = s.drop_last();
        route_set_members(t);
        let u = route_set(t);
        let x = s.last();
        let v = route_set(s);
        route_place_bound(u, x);
        let n = route_place(u, x);
        assert forall|a: Route| #[trigger] v.contains(a) <==> s.contains(a) by {
            if v.contains(a) {
                if u.contains(x) {
                    assert(u.contains(a));
                } else {
                    let i = choose|i: int| 0 <= i < v.len() && v[i] == a;
                    if i < n {
                        assert(u[i] == a);
                        assert(u.contains(a));
                    } else if i > n {
                        assert(u[i - 1] == a);
                        assert(u.contains(a));
                    } else {
                        assert(v[n] == x);
                    }
                }
                if a != x {
                    assert(t.contains(a));
                    let j = choose|j: int| 0 <= j < t.len() && t[j] == a;
                    assert(s[j] == a);
                } else {
                    assert(s[s.len() - 1] == a);
                }
            }
            if s.contains(a) {
                let j = choose|j: int| 0 <= j < s.len() && s[j] == a;
                if j < t.len() {
                    assert(t[j] == a);
                    assert(t.contains(a));
                    assert(u.contains(a));
                    let i = choose|i: int| 0 <= i < u.len() && u[i] == a;
                    if u.contains(x) {
                        assert(v.contains(a));
                    } else if i < n {
                        assert(v[i] == a);
                    } else {
                        assert(v[i + 1] == a);
                    }
                } else if !u.contains(x) {
                    assert(v[n] == a);
                }
            }
        }
    }
}

proof fn managed_members(s: Seq<Address>)
    ensures
        forall|a: Address| #[trigger]
            managed_addresses(s).contains(a) <==> exists|b: Address|
                #[trigger] s.contains(b) && manageable(b) && settled(b) == a,
    decreases s.len(),
{
    let m = managed_addresses(s);
    if s.len() > 0 {
        let t = s.drop_last();
        managed_members(t);
        let mt = managed_addresses(t);
        let x = s.last();
        assert forall|a: Address| #[trigger] m.contains(a) <==> exists|b: Address|
            #[trigger] s.contains(b) && manageable(b) && settled(b) == a by {
            if m.contains(a) {
                let i = choose|i: int| 0 <= i < m.len() && m[i] == a;
                if i < mt.len() {
                    assert(mt[i] == a);
                    assert(mt.contains(a));
                    let b = choose|b: Address| #[trigger]
                        t.contains(b) && manageable(b) && settled(b) == a;
                    let j = choose|j: int| 0 <= j < t.len() && t[j] == b;
                    assert(s[j] == b);
                    assert(s.contains(b));
                } else {
                    assert(s[s.len() - 1] == x);
                    assert(s.contains(x));
                }
            }
            if exists|b: Address| #[trigger] s.contains(b) && manageable(b) && settled(b) == a {
                let b = choose|b: Address| #[trigger]
                    s.contains(b) && manageable(b) && settled(b) == a;
                let j = choose|j: int| 0 <= j < s.len() && s[j] == b;
                if j < t.len() {
                    assert(t[j] == b);
                    assert(t.contains(b));
                    assert(mt.contains(a));
                    let i = choose|i: int| 0 <= i < mt.len() && mt[i] == a;
                    assert(m[i] == a);
                } else {
                    assert(m[m.len() - 1] == a);
                }
            }
        }
    }
}

proof fn addresses_on_members(s: Seq<Address>, index: u32)
    ensures
        forall|a: Address| #[trigger]
            model::addresses_on(s, index).contains(a) <==> s.contains(a) && a.index == index,
    decreases s.len(),
{
    let m = model::addresses_on(s, index);
    if s.len() > 0 {
        let t = s.drop_last();
        addresses_on_members(t, index);
        let mt = model::addresses_on(t, index);
        assert forall|a: Address| #[trigger] m.contains(a) <==> s.contains(a) && a.index
            == index by {
            if m.contains(a) {
                let i = choose|i: int| 0 <= i < m.len() && m[i] == a;
                if i < mt.len() {
                    assert(mt[i] == a);
                    assert(mt.contains(a));
                    let j = choose|j: int| 0 <= j < t.len() && t[j] == a;
                    assert(s[j] == a);
                } else {
                    assert(s[s.len() - 1] == a);
                }
            }
            if s.contains(a) && a.index == index {
                let j = choose|j: int| 0 <= j < s.len() && s[j] == a;
                if j < t.len() {
                    assert(t[j] == a);
                    assert(t.contains(a));
                    assert(mt.contains(a));
                    let i = choose|i: int| 0 <= i < mt.len() && mt[i] == a;
                    assert(m[i] == a);
                } else {
                    assert(m[m.len() - 1] == a);
                }
            }
        }
    }
}

proof fn stamped_members(s: Seq<Route>)
    ensures
        forall|a: Route| #[trigger]
            stamped(s).contains(a) <==> s.contains(a) && a.protocol == RTPROT_NETD,
    decreases s.len(),
{
    let m = stamped(s);
    if s.len() > 0 {
        let t = s.drop_last();
        stamped_members(t);
        let mt = stamped(t);
        assert forall|a: Route| #[trigger] m.contains(a) <==> s.contains(a) && a.protocol
            == RTPROT_NETD by {
            if m.contains(a) {
                let i = choose|i: int| 0 <= i < m.len() && m[i] == a;
                if i < mt.len() {
                    assert(mt[i] == a);
                    assert(mt.contains(a));
                    let j = choose|j: int| 0 <= j < t.len() && t[j] == a;
                    assert(s[j] == a);
                } else {
                    assert(s[s.len() - 1] == a);
                }
            }
            if s.contains(a) && a.protocol == RTPROT_NETD {
                let j = choose|j: int| 0 <= j < s.len() && s[j] == a;
                if j < t.len() {
                    assert(t[j] == a);
                    assert(t.contains(a));
                    assert(mt.contains(a));
                    let i = choose|i: int| 0 <= i < mt.len() && mt[i] == a;
                    assert(m[i] == a);
                } else {
                    assert(m[m.len() - 1] == a);
                }
            }
        }
    }
}

proof fn routes_on_members(s: Seq<Route>, index: u32)
    ensures
        forall|a: Route| #[trigger]
            model::routes_on(s, index).contains(a) <==> s.contains(a) && a.index == index,
    decreases s.len(),
{
    let m = model::routes_on(s, index);
    if s.len() > 0 {
        let t = s.drop_last();
        routes_on_members(t, index);
        let mt = model::routes_on(t, index);
        assert forall|a: Route| #[trigger] m.contains(a) <==> s.contains(a) && a.index == index by {
            if m.contains(a) {
                let i = choose|i: int| 0 <= i < m.len() && m[i] == a;
                if i < mt.len() {
                    assert(mt[i] == a);
                    assert(mt.contains(a));
                    let j = choose|j: int| 0 <= j < t.len() && t[j] == a;
                    assert(s[j] == a);
                } else {
                    assert(s[s.len() - 1] == a);
                }
            }
            if s.contains(a) && a.index == index {
                let j = choose|j: int| 0 <= j < s.len() && s[j] == a;
                if j < t.len() {
                    assert(t[j] == a);
                    assert(t.contains(a));
                    assert(mt.contains(a));
                    let i = choose|i: int| 0 <= i < mt.len() && mt[i] == a;
                    assert(m[i] == a);
                } else {
                    assert(m[m.len() - 1] == a);
                }
            }
        }
    }
}

/// What is on an interface, as sets: what a plan looks at.
pub open spec fn has_managed(o: ObservedV, index: u32, a: Address) -> bool {
    exists|b: Address| #[trigger]
        o.addresses.contains(b) && b.index == index && manageable(b) && settled(b) == a
}

/// The addresses a plan compares are exactly the settled, manageable ones of
/// the interface.
proof fn have_set_members(o: ObservedV, index: u32)
    ensures
        forall|a: Address| #[trigger] have_set(o, index).contains(a) <==> has_managed(o, index, a),
{
    let on = model::addresses_on(o.addresses, index);
    addresses_on_members(o.addresses, index);
    managed_members(on);
    address_set_members(managed_addresses(on));
    assert forall|a: Address| #[trigger] have_set(o, index).contains(a) <==> has_managed(
        o,
        index,
        a,
    ) by {
        if have_set(o, index).contains(a) {
            assert(managed_addresses(on).contains(a));
            let b = choose|b: Address| #[trigger]
                on.contains(b) && manageable(b) && settled(b) == a;
            assert(o.addresses.contains(b));
        }
        if has_managed(o, index, a) {
            let b = choose|b: Address| #[trigger]
                o.addresses.contains(b) && b.index == index && manageable(b) && settled(b) == a;
            assert(on.contains(b));
            assert(managed_addresses(on).contains(a));
        }
    }
}

proof fn have_route_set_members(o: ObservedV, index: u32)
    ensures
        forall|r: Route| #[trigger]
            have_route_set(o, index).contains(r) <==> o.routes.contains(r) && r.index == index
                && r.protocol == RTPROT_NETD,
{
    let on = model::routes_on(o.routes, index);
    routes_on_members(o.routes, index);
    stamped_members(on);
    route_set_members(stamped(on));
    assert forall|r: Route| #[trigger] have_route_set(o, index).contains(r) <==> o.routes.contains(
        r,
    ) && r.index == index && r.protocol == RTPROT_NETD by {
        assert(have_route_set(o, index).contains(r) <==> stamped(on).contains(r));
        assert(on.contains(r) <==> o.routes.contains(r) && r.index == index);
    }
}

pub(crate) proof fn want_set_members(d: DesiredV)
    ensures
        forall|a: Address| #[trigger] want_set(d).contains(a) <==> wanted_addresses(d).contains(a),
        forall|a: Address| #[trigger] want_set(d).contains(a) ==> a.index == d.index
            && !a.tentative,
        forall|r: Route| #[trigger] want_route_set(d).contains(r) ==> r.index == d.index
            && r.protocol == RTPROT_NETD,
{
    address_set_members(wanted_addresses(d));
    route_set_members(wanted_routes(d));
    assert forall|a: Address| #[trigger] want_set(d).contains(a) implies a.index == d.index
        && !a.tentative by {
        assert(wanted_addresses(d).contains(a));
        let w = wanted_addresses(d);
        let i = choose|i: int| 0 <= i < w.len() && w[i] == a;
        assert(w[i] == a);
    }
    assert forall|r: Route| #[trigger] want_route_set(d).contains(r) implies r.index == d.index
        && r.protocol == RTPROT_NETD by {
        let w = wanted_routes(d);
        assert(w.contains(r));
        let i = choose|i: int| 0 <= i < w.len() && w[i] == r;
        assert(w[i] == r);
    }
}

proof fn address_deletion_members(have: Seq<Address>, want: Seq<Address>)
    ensures
        forall|op: Op| #[trigger]
            address_deletions(have, want).contains(op) <==> (op matches Op::DelAddress(a)
                && have.contains(a) && !names(want, a)),
    decreases have.len(),
{
    let m = address_deletions(have, want);
    if have.len() > 0 {
        let t = have.drop_last();
        address_deletion_members(t, want);
        let mt = address_deletions(t, want);
        let x = have.last();
        assert forall|op: Op| #[trigger] m.contains(op) <==> (op matches Op::DelAddress(a)
            && have.contains(a) && !names(want, a)) by {
            if m.contains(op) {
                let i = choose|i: int| 0 <= i < m.len() && m[i] == op;
                if i < mt.len() {
                    assert(mt[i] == op);
                    assert(mt.contains(op));
                    let a = op->DelAddress_0;
                    let j = choose|j: int| 0 <= j < t.len() && t[j] == a;
                    assert(have[j] == a);
                } else {
                    assert(have[have.len() - 1] == x);
                }
            }
            if op matches Op::DelAddress(a) && have.contains(a) && !names(want, a) {
                let a = op->DelAddress_0;
                let j = choose|j: int| 0 <= j < have.len() && have[j] == a;
                if j < t.len() {
                    assert(t[j] == a);
                    assert(t.contains(a));
                    assert(mt.contains(op));
                    let i = choose|i: int| 0 <= i < mt.len() && mt[i] == op;
                    assert(m[i] == op);
                } else {
                    assert(m[m.len() - 1] == op);
                }
            }
        }
    } else {
        assert forall|op: Op| !(#[trigger] m.contains(op)) by {}
    }
}

proof fn address_addition_members(want: Seq<Address>, have: Seq<Address>, b: Option<Ipv4Addr>)
    ensures
        forall|op: Op| #[trigger]
            address_additions(want, have, b).contains(op) <==> (op matches Op::AddAddress(a, c)
                && c == b && want.contains(a) && !have.contains(a)),
    decreases want.len(),
{
    let m = address_additions(want, have, b);
    if want.len() > 0 {
        let t = want.drop_last();
        address_addition_members(t, have, b);
        let mt = address_additions(t, have, b);
        let x = want.last();
        assert forall|op: Op| #[trigger] m.contains(op) <==> (op matches Op::AddAddress(a, c) && c
            == b && want.contains(a) && !have.contains(a)) by {
            if m.contains(op) {
                let i = choose|i: int| 0 <= i < m.len() && m[i] == op;
                if i < mt.len() {
                    assert(mt[i] == op);
                    assert(mt.contains(op));
                    let a = op->AddAddress_0;
                    let j = choose|j: int| 0 <= j < t.len() && t[j] == a;
                    assert(want[j] == a);
                } else {
                    assert(want[want.len() - 1] == x);
                }
            }
            if op matches Op::AddAddress(a, c) && c == b && want.contains(a) && !have.contains(a) {
                let a = op->AddAddress_0;
                let j = choose|j: int| 0 <= j < want.len() && want[j] == a;
                if j < t.len() {
                    assert(t[j] == a);
                    assert(t.contains(a));
                    assert(mt.contains(op));
                    let i = choose|i: int| 0 <= i < mt.len() && mt[i] == op;
                    assert(m[i] == op);
                } else {
                    assert(m[m.len() - 1] == op);
                }
            }
        }
    } else {
        assert forall|op: Op| !(#[trigger] m.contains(op)) by {}
    }
}

proof fn route_deletion_members(have: Seq<Route>, want: Seq<Route>)
    ensures
        forall|op: Op| #[trigger]
            route_deletions(have, want).contains(op) <==> (op matches Op::DelRoute(r)
                && have.contains(r) && !want.contains(r)),
    decreases have.len(),
{
    let m = route_deletions(have, want);
    if have.len() > 0 {
        let t = have.drop_last();
        route_deletion_members(t, want);
        let mt = route_deletions(t, want);
        let x = have.last();
        assert forall|op: Op| #[trigger] m.contains(op) <==> (op matches Op::DelRoute(r)
            && have.contains(r) && !want.contains(r)) by {
            if m.contains(op) {
                let i = choose|i: int| 0 <= i < m.len() && m[i] == op;
                if i < mt.len() {
                    assert(mt[i] == op);
                    assert(mt.contains(op));
                    let a = op->DelRoute_0;
                    let j = choose|j: int| 0 <= j < t.len() && t[j] == a;
                    assert(have[j] == a);
                } else {
                    assert(have[have.len() - 1] == x);
                }
            }
            if op matches Op::DelRoute(r) && have.contains(r) && !want.contains(r) {
                let a = op->DelRoute_0;
                let j = choose|j: int| 0 <= j < have.len() && have[j] == a;
                if j < t.len() {
                    assert(t[j] == a);
                    assert(t.contains(a));
                    assert(mt.contains(op));
                    let i = choose|i: int| 0 <= i < mt.len() && mt[i] == op;
                    assert(m[i] == op);
                } else {
                    assert(m[m.len() - 1] == op);
                }
            }
        }
    } else {
        assert forall|op: Op| !(#[trigger] m.contains(op)) by {}
    }
}

proof fn route_addition_members(want: Seq<Route>, have: Seq<Route>)
    ensures
        forall|op: Op| #[trigger]
            route_additions(want, have).contains(op) <==> (op matches Op::AddRoute(r)
                && want.contains(r) && !have.contains(r)),
    decreases want.len(),
{
    let m = route_additions(want, have);
    if want.len() > 0 {
        let t = want.drop_last();
        route_addition_members(t, have);
        let mt = route_additions(t, have);
        let x = want.last();
        assert forall|op: Op| #[trigger] m.contains(op) <==> (op matches Op::AddRoute(r)
            && want.contains(r) && !have.contains(r)) by {
            if m.contains(op) {
                let i = choose|i: int| 0 <= i < m.len() && m[i] == op;
                if i < mt.len() {
                    assert(mt[i] == op);
                    assert(mt.contains(op));
                    let a = op->AddRoute_0;
                    let j = choose|j: int| 0 <= j < t.len() && t[j] == a;
                    assert(want[j] == a);
                } else {
                    assert(want[want.len() - 1] == x);
                }
            }
            if op matches Op::AddRoute(r) && want.contains(r) && !have.contains(r) {
                let a = op->AddRoute_0;
                let j = choose|j: int| 0 <= j < want.len() && want[j] == a;
                if j < t.len() {
                    assert(t[j] == a);
                    assert(t.contains(a));
                    assert(mt.contains(op));
                    let i = choose|i: int| 0 <= i < mt.len() && mt[i] == op;
                    assert(m[i] == op);
                } else {
                    assert(m[m.len() - 1] == op);
                }
            }
        }
    } else {
        assert forall|op: Op| !(#[trigger] m.contains(op)) by {}
    }
}

/// Which steps a plan holds.
pub open spec fn step_due(o: ObservedV, l: LinkV, d: DesiredV, op: Op) -> bool {
    match op {
        Op::LinkUp(i) => i == d.index && d.up && !l.up,
        Op::LinkDown(i) => i == d.index && !d.up && l.up,
        Op::Mtu(i, m) => i == d.index && d.mtu == Some(m) && m != l.mtu && m >= 68,
        Op::DelAddress(a) => has_managed(o, d.index, a) && !names(want_set(d), a),
        Op::AddAddress(a, b) => b == d.broadcast && wanted_addresses(d).contains(a)
            && !has_managed(o, d.index, a),
        Op::DelRoute(r) => o.routes.contains(r) && r.index == d.index && r.protocol == RTPROT_NETD
            && !want_route_set(d).contains(r),
        Op::AddRoute(r) => want_route_set(d).contains(r) && !(o.routes.contains(r) && r.index
            == d.index && r.protocol == RTPROT_NETD),
    }
}

proof fn concat_members(a: Seq<Op>, b: Seq<Op>)
    ensures
        forall|op: Op| #[trigger] (a + b).contains(op) <==> a.contains(op) || b.contains(op),
{
    let c = a + b;
    assert forall|op: Op| #[trigger] c.contains(op) <==> a.contains(op) || b.contains(op) by {
        if c.contains(op) {
            let i = choose|i: int| 0 <= i < c.len() && c[i] == op;
            if i < a.len() {
                assert(a[i] == op);
            } else {
                assert(b[i - a.len()] == op);
            }
        }
        if a.contains(op) {
            let i = choose|i: int| 0 <= i < a.len() && a[i] == op;
            assert(c[i] == op);
        }
        if b.contains(op) {
            let i = choose|i: int| 0 <= i < b.len() && b[i] == op;
            assert(c[a.len() + i] == op);
        }
    }
}

/// A plan holds exactly the steps that are due.
pub proof fn plans_hold_what_is_due(o: ObservedV, d: DesiredV)
    requires
        model::link_with(o.links, d.index) is Some,
    ensures
        forall|op: Op| #[trigger]
            planned(o, d).contains(op) <==> step_due(
                o,
                model::link_with(o.links, d.index)->0,
                d,
                op,
            ),
{
    let l = model::link_with(o.links, d.index)->0;
    let have = have_set(o, d.index);
    let want = want_set(d);
    let hr = have_route_set(o, d.index);
    let wr = want_route_set(d);
    have_set_members(o, d.index);
    have_route_set_members(o, d.index);
    want_set_members(d);
    address_deletion_members(have, want);
    address_addition_members(want, have, d.broadcast);
    route_deletion_members(hr, wr);
    route_addition_members(wr, hr);
    let p0 = link_steps(l, d);
    let p1 = address_deletions(have, want);
    let p2 = address_additions(want, have, d.broadcast);
    let p3 = route_deletions(hr, wr);
    let p4 = route_additions(wr, hr);
    let p5 = if !d.up && l.up {
        seq![Op::LinkDown(d.index)]
    } else {
        Seq::empty()
    };
    concat_members(p0, p1);
    concat_members(p0 + p1, p2);
    concat_members(p0 + p1 + p2, p3);
    concat_members(p0 + p1 + p2 + p3, p4);
    concat_members(p0 + p1 + p2 + p3 + p4, p5);
    let q0: Seq<Op> = if d.up && !l.up {
        seq![Op::LinkUp(d.index)]
    } else {
        Seq::empty()
    };
    let q1: Seq<Op> = match d.mtu {
        Some(m) => if m != l.mtu && m >= 68 {
            seq![Op::Mtu(d.index, m)]
        } else {
            Seq::empty()
        },
        None => Seq::empty(),
    };
    concat_members(q0, q1);
    assert forall|op: Op| #[trigger] planned(o, d).contains(op) <==> step_due(o, l, d, op) by {
        assert(q0.contains(op) <==> (d.up && !l.up && op == Op::LinkUp(d.index))) by {
            if d.up && !l.up {
                assert(q0[0] == Op::LinkUp(d.index));
            }
        }
        assert(q1.contains(op) <==> (op matches Op::Mtu(i, m) && i == d.index && d.mtu == Some(m)
            && m != l.mtu && m >= 68)) by {
            if q1.len() > 0 {
                assert(q1[0] is Mtu);
            }
        }
        assert(p5.contains(op) <==> (!d.up && l.up && op == Op::LinkDown(d.index))) by {
            if !d.up && l.up {
                assert(p5[0] == Op::LinkDown(d.index));
            }
        }
    }
}

/// A route that does not carry our protocol number is never removed.
pub proof fn foreign_routes_are_kept(o: ObservedV, d: DesiredV, r: Route)
    requires
        r.protocol != RTPROT_NETD,
    ensures
        !planned(o, d).contains(Op::DelRoute(r)),
{
    if model::link_with(o.links, d.index) is Some {
        plans_hold_what_is_due(o, d);
    }
}

/// The kernel's own IPv6 link-local addresses are never removed.
pub proof fn link_locals_are_kept(o: ObservedV, d: DesiredV, a: Address)
    requires
        !manageable(a),
    ensures
        !planned(o, d).contains(Op::DelAddress(a)),
{
    if model::link_with(o.links, d.index) is Some {
        plans_hold_what_is_due(o, d);
        if has_managed(o, d.index, a) {
            let b = choose|b: Address| #[trigger]
                o.addresses.contains(b) && b.index == d.index && manageable(b) && settled(b) == a;
            assert(manageable(a));
        }
    }
}

/// An address that is wanted, whatever its flags, is never removed: a change
/// of flags replaces it.
pub proof fn wanted_addresses_are_never_removed(o: ObservedV, d: DesiredV, a: Address)
    requires
        names(wanted_addresses(d), a),
    ensures
        !planned(o, d).contains(Op::DelAddress(a)),
{
    if model::link_with(o.links, d.index) is Some {
        plans_hold_what_is_due(o, d);
        want_set_members(d);
        let w = wanted_addresses(d);
        let i = choose|i: int|
            0 <= i < w.len() && (#[trigger] w[i]).address == a.address && w[i].prefix == a.prefix;
        assert(w.contains(w[i]));
        assert(want_set(d).contains(w[i]));
        let s = want_set(d);
        let j = choose|j: int| 0 <= j < s.len() && s[j] == w[i];
        assert(s[j].address == a.address && s[j].prefix == a.prefix);
    }
}

/// A link is taken down last, after everything on it is gone, and brought up
/// first.
pub proof fn up_first_and_down_last(o: ObservedV, d: DesiredV, i: int)
    requires
        0 <= i < planned(o, d).len(),
    ensures
        planned(o, d)[i] is LinkUp ==> i == 0,
        planned(o, d)[i] is LinkDown ==> i == planned(o, d).len() - 1,
{
    let l = model::link_with(o.links, d.index)->0;
    let have = have_set(o, d.index);
    let want = want_set(d);
    let hr = have_route_set(o, d.index);
    let wr = want_route_set(d);
    let p0 = link_steps(l, d);
    let p1 = address_deletions(have, want);
    let p2 = address_additions(want, have, d.broadcast);
    let p3 = route_deletions(hr, wr);
    let p4 = route_additions(wr, hr);
    address_deletion_members(have, want);
    address_addition_members(want, have, d.broadcast);
    route_deletion_members(hr, wr);
    route_addition_members(wr, hr);
    let op = planned(o, d)[i];
    let n0 = p0.len();
    let n1 = n0 + p1.len();
    let n2 = n1 + p2.len();
    let n3 = n2 + p3.len();
    let n4 = n3 + p4.len();
    if i < n0 {
        assert(op == p0[i]);
    } else if i < n1 {
        assert(op == p1[i - n0]);
        assert(p1.contains(op));
    } else if i < n2 {
        assert(op == p2[i - n1]);
        assert(p2.contains(op));
    } else if i < n3 {
        assert(op == p3[i - n2]);
        assert(p3.contains(op));
    } else if i < n4 {
        assert(op == p4[i - n3]);
        assert(p4.contains(op));
    }
}

/// One interface as the kernel has it.
#[verifier::ext_equal]
pub struct KernelV {
    pub up: bool,
    pub mtu: u32,
    pub addresses: Set<Address>,
    pub routes: Set<Route>,
}

/// Whether two addresses are one to the kernel, whatever their flags.
pub open spec fn same_address(a: Address, b: Address) -> bool {
    a.index == b.index && a.address == b.address && a.prefix == b.prefix
}

/// The interface after one step. Adding an address replaces the one of the
/// same number and prefix.
pub open spec fn after_step(k: KernelV, op: Op) -> KernelV {
    match op {
        Op::LinkUp(_) => KernelV { up: true, ..k },
        Op::LinkDown(_) => KernelV { up: false, ..k },
        Op::Mtu(_, m) => KernelV { mtu: m, ..k },
        Op::AddAddress(a, _) => KernelV {
            addresses: k.addresses.filter(|x: Address| !same_address(x, a)).insert(a),
            ..k
        },
        Op::DelAddress(a) => KernelV {
            addresses: k.addresses.filter(|x: Address| !same_address(x, a)),
            ..k
        },
        Op::AddRoute(r) => KernelV { routes: k.routes.insert(r), ..k },
        Op::DelRoute(r) => KernelV { routes: k.routes.remove(r), ..k },
    }
}

/// The interface after all steps, in order.
pub open spec fn after_steps(k: KernelV, ops: Seq<Op>) -> KernelV
    decreases ops.len(),
{
    if ops.len() == 0 {
        k
    } else {
        after_step(after_steps(k, ops.drop_last()), ops.last())
    }
}

/// Whether an observation of an interface shows what the kernel has.
pub open spec fn shows(o: ObservedV, index: u32, k: KernelV) -> bool {
    &&& model::link_with(o.links, index) matches Some(l) && l.up == k.up && l.mtu == k.mtu
    &&& forall|a: Address| #[trigger] o.addresses.contains(a) && a.index == index <==> k.addresses.contains(a)
    &&& forall|r: Route| #[trigger] o.routes.contains(r) && r.index == index <==> k.routes.contains(r)
}

/// Whether a list names no address twice with different flags, and no
/// link-local one.
pub open spec fn well_named(d: DesiredV) -> bool {
    let w = wanted_addresses(d);
    &&& forall|i: int, j: int|
        0 <= i < w.len() && 0 <= j < w.len() && same_address(
            #[trigger] w[i],
            #[trigger] w[j],
        ) ==> w[i] == w[j]
    &&& forall|i: int| 0 <= i < w.len() ==> manageable(#[trigger] w[i])
}

/// Whether a step leaves an address with these numbers alone, or is the one
/// that adds just it.
spec fn spares(op: Op, x: Address) -> bool {
    match op {
        Op::DelAddress(a) => !same_address(a, x),
        Op::AddAddress(a, _) => same_address(a, x) ==> a == x,
        _ => true,
    }
}

spec fn adds(op: Op, x: Address) -> bool {
    op matches Op::AddAddress(a, _) && a == x
}

spec fn touches(op: Op, x: Address) -> bool {
    op matches Op::AddAddress(a, _) && same_address(a, x)
}

spec fn deletes(op: Op, x: Address) -> bool {
    op matches Op::DelAddress(a) && same_address(a, x)
}

proof fn addresses_come_from(k: KernelV, ops: Seq<Op>, x: Address)
    requires
        after_steps(k, ops).addresses.contains(x),
    ensures
        k.addresses.contains(x) || exists|i: int| 0 <= i < ops.len() && adds(#[trigger] ops[i], x),
    decreases ops.len(),
{
    if ops.len() > 0 {
        let t = ops.drop_last();
        if adds(ops.last(), x) {
            assert(adds(ops[ops.len() - 1], x));
        } else {
            assert(after_steps(k, t).addresses.contains(x));
            addresses_come_from(k, t, x);
            if !k.addresses.contains(x) {
                let i = choose|i: int| 0 <= i < t.len() && adds(#[trigger] t[i], x);
                assert(adds(ops[i], x));
            }
        }
    }
}

proof fn addresses_stay(k: KernelV, ops: Seq<Op>, x: Address)
    requires
        forall|i: int| 0 <= i < ops.len() ==> spares(#[trigger] ops[i], x),
        k.addresses.contains(x) || exists|i: int| 0 <= i < ops.len() && adds(#[trigger] ops[i], x),
    ensures
        after_steps(k, ops).addresses.contains(x),
    decreases ops.len(),
{
    if ops.len() > 0 {
        let t = ops.drop_last();
        assert(spares(ops[ops.len() - 1], x));
        if !adds(ops.last(), x) {
            assert forall|i: int| 0 <= i < t.len() implies spares(#[trigger] t[i], x) by {
                assert(spares(ops[i], x));
            }
            if !k.addresses.contains(x) {
                let i = choose|i: int| 0 <= i < ops.len() && adds(#[trigger] ops[i], x);
                assert(adds(t[i], x));
            }
            addresses_stay(k, t, x);
        }
    }
}

proof fn addresses_go(k: KernelV, ops: Seq<Op>, x: Address)
    requires
        forall|i: int| 0 <= i < ops.len() ==> !touches(#[trigger] ops[i], x),
        exists|i: int| 0 <= i < ops.len() && deletes(#[trigger] ops[i], x),
    ensures
        !after_steps(k, ops).addresses.contains(x),
    decreases ops.len(),
{
    if ops.len() > 0 {
        let t = ops.drop_last();
        assert(!touches(ops[ops.len() - 1], x));
        if !deletes(ops.last(), x) {
            assert forall|i: int| 0 <= i < t.len() implies !touches(#[trigger] t[i], x) by {
                assert(!touches(ops[i], x));
            }
            let i = choose|i: int| 0 <= i < ops.len() && deletes(#[trigger] ops[i], x);
            assert(deletes(t[i], x));
            addresses_go(k, t, x);
        }
    }
}

proof fn routes_come_from(k: KernelV, ops: Seq<Op>, r: Route)
    requires
        after_steps(k, ops).routes.contains(r),
    ensures
        k.routes.contains(r) || ops.contains(Op::AddRoute(r)),
    decreases ops.len(),
{
    if ops.len() > 0 {
        let t = ops.drop_last();
        if ops.last() == Op::AddRoute(r) {
            assert(ops[ops.len() - 1] == Op::AddRoute(r));
        } else {
            routes_come_from(k, t, r);
            if !k.routes.contains(r) {
                let i = choose|i: int| 0 <= i < t.len() && t[i] == Op::AddRoute(r);
                assert(ops[i] == Op::AddRoute(r));
            }
        }
    }
}

proof fn routes_stay(k: KernelV, ops: Seq<Op>, r: Route)
    requires
        !ops.contains(Op::DelRoute(r)),
        k.routes.contains(r) || ops.contains(Op::AddRoute(r)),
    ensures
        after_steps(k, ops).routes.contains(r),
    decreases ops.len(),
{
    if ops.len() > 0 {
        let t = ops.drop_last();
        assert(ops[ops.len() - 1] != Op::DelRoute(r));
        if ops.last() != Op::AddRoute(r) {
            if t.contains(Op::DelRoute(r)) {
                let i = choose|i: int| 0 <= i < t.len() && t[i] == Op::DelRoute(r);
                assert(ops[i] == Op::DelRoute(r));
            }
            if !k.routes.contains(r) {
                let i = choose|i: int| 0 <= i < ops.len() && ops[i] == Op::AddRoute(r);
                assert(t[i] == Op::AddRoute(r));
            }
            routes_stay(k, t, r);
        }
    }
}

proof fn routes_go(k: KernelV, ops: Seq<Op>, r: Route)
    requires
        ops.contains(Op::DelRoute(r)),
        !ops.contains(Op::AddRoute(r)),
    ensures
        !after_steps(k, ops).routes.contains(r),
    decreases ops.len(),
{
    if ops.len() > 0 {
        let t = ops.drop_last();
        assert(ops[ops.len() - 1] != Op::AddRoute(r));
        if ops.last() != Op::DelRoute(r) {
            let i = choose|i: int| 0 <= i < ops.len() && ops[i] == Op::DelRoute(r);
            assert(t[i] == Op::DelRoute(r));
            if t.contains(Op::AddRoute(r)) {
                let j = choose|j: int| 0 <= j < t.len() && t[j] == Op::AddRoute(r);
                assert(ops[j] == Op::AddRoute(r));
            }
            routes_go(k, t, r);
        }
    }
}

proof fn link_state_after(k: KernelV, ops: Seq<Op>)
    ensures
        (forall|i: int| 0 <= i < ops.len() ==> !((#[trigger] ops[i]) is LinkUp || ops[i]
            is LinkDown)) ==> after_steps(k, ops).up == k.up,
        (exists|i: int| 0 <= i < ops.len() && (#[trigger] ops[i]) is LinkUp) && (forall|i: int|
            0 <= i < ops.len() ==> !((#[trigger] ops[i]) is LinkDown)) ==> after_steps(k, ops).up,
        (exists|i: int| 0 <= i < ops.len() && (#[trigger] ops[i]) is LinkDown) && (forall|i: int|
            0 <= i < ops.len() ==> !((#[trigger] ops[i]) is LinkUp)) ==> !after_steps(k, ops).up,
        (forall|i: int| 0 <= i < ops.len() ==> !((#[trigger] ops[i]) is Mtu)) ==> after_steps(
            k,
            ops,
        ).mtu == k.mtu,
    decreases ops.len(),
{
    if ops.len() > 0 {
        let t = ops.drop_last();
        link_state_after(k, t);
        let last = ops.last();
        assert(ops[ops.len() - 1] == last);
        assert forall|i: int| 0 <= i < t.len() implies t[i] == ops[i] by {}
        let a = after_steps(k, ops);
        let b = after_steps(k, t);
        if forall|i: int| 0 <= i < ops.len() ==> !((#[trigger] ops[i]) is LinkUp || ops[i]
            is LinkDown) {
            assert forall|i: int| 0 <= i < t.len() implies !((#[trigger] t[i]) is LinkUp || t[i]
                is LinkDown) by {
                assert(t[i] == ops[i]);
            }
        }
        if (exists|i: int| 0 <= i < ops.len() && (#[trigger] ops[i]) is LinkUp) && (forall|i: int|
            0 <= i < ops.len() ==> !((#[trigger] ops[i]) is LinkDown)) {
            if !(last is LinkUp) {
                let i = choose|i: int| 0 <= i < ops.len() && (#[trigger] ops[i]) is LinkUp;
                assert(t[i] is LinkUp);
                assert forall|j: int| 0 <= j < t.len() implies !((#[trigger] t[j])
                    is LinkDown) by {
                    assert(t[j] == ops[j]);
                }
            }
        }
        if (exists|i: int| 0 <= i < ops.len() && (#[trigger] ops[i]) is LinkDown) && (forall|i: int|
            0 <= i < ops.len() ==> !((#[trigger] ops[i]) is LinkUp)) {
            if !(last is LinkDown) {
                let i = choose|i: int| 0 <= i < ops.len() && (#[trigger] ops[i]) is LinkDown;
                assert(t[i] is LinkDown);
                assert forall|j: int| 0 <= j < t.len() implies !((#[trigger] t[j]) is LinkUp) by {
                    assert(t[j] == ops[j]);
                }
            }
        }
        if forall|i: int| 0 <= i < ops.len() ==> !((#[trigger] ops[i]) is Mtu) {
            assert forall|j: int| 0 <= j < t.len() implies !((#[trigger] t[j]) is Mtu) by {
                assert(t[j] == ops[j]);
            }
        }
    }
}

proof fn mtu_after(k: KernelV, ops: Seq<Op>, m: u32)
    requires
        forall|i: int| 0 <= i < ops.len() && (#[trigger] ops[i]) is Mtu ==> ops[i]->Mtu_1 == m,
        k.mtu == m || exists|i: int| 0 <= i < ops.len() && (#[trigger] ops[i]) is Mtu,
    ensures
        after_steps(k, ops).mtu == m,
    decreases ops.len(),
{
    if ops.len() > 0 {
        let t = ops.drop_last();
        assert(ops[ops.len() - 1] == ops.last());
        if !(ops.last() is Mtu) {
            assert forall|j: int| 0 <= j < t.len() && (#[trigger] t[j]) is Mtu implies t[j]->Mtu_1
                == m by {
                assert(t[j] == ops[j]);
            }
            if k.mtu != m {
                let i = choose|i: int| 0 <= i < ops.len() && (#[trigger] ops[i]) is Mtu;
                assert(t[i] is Mtu);
            }
            mtu_after(k, t, m);
        }
    }
}

/// Carrying a plan out converges: once the kernel has taken every step, the
/// next plan is empty. Inputs that name one address twice with different flags,
/// or want a link-local address, are left out: those are never settled.
pub proof fn plans_converge(o: ObservedV, d: DesiredV, k: KernelV, o2: ObservedV)
    requires
        well_named(d),
        shows(o, d.index, k),
        shows(o2, d.index, after_steps(k, planned(o, d))),
    ensures
        planned(o2, d) == Seq::<Op>::empty(),
{
    let ops = planned(o, d);
    let end = after_steps(k, ops);
    let l = model::link_with(o.links, d.index)->0;
    let l2 = model::link_with(o2.links, d.index)->0;
    plans_hold_what_is_due(o, d);
    plans_hold_what_is_due(o2, d);
    want_set_members(d);
    link_state_after(k, ops);
    let w = wanted_addresses(d);
    assert(l2.up == d.up) by {
        link_converges(o, d, k);
    }
    assert forall|op: Op| !step_due(o2, l2, d, op) by {
        match op {
            Op::LinkUp(_) => {},
            Op::LinkDown(_) => {},
            Op::Mtu(_, m) => {
                if step_due(o2, l2, d, op) {
                    mtu_converges(o, d, k, m);
                }
            },
            Op::DelAddress(a) => {
                if step_due(o2, l2, d, op) {
                    let b = choose|b: Address| #[trigger]
                        o2.addresses.contains(b) && b.index == d.index && manageable(b) && settled(b)
                            == a;
                    assert(end.addresses.contains(b));
                    addresses_come_from(k, ops, b);
                    unnamed_goes(o, d, k, a, b);
                }
            },
            Op::AddAddress(a, c) => {
                if step_due(o2, l2, d, op) {
                    wanted_stays(o, d, k, o2, a);
                }
            },
            Op::DelRoute(r) => {
                if step_due(o2, l2, d, op) {
                    assert(end.routes.contains(r));
                    routes_come_from(k, ops, r);
                    if k.routes.contains(r) {
                        assert(o.routes.contains(r));
                        assert(step_due(o, l, d, Op::DelRoute(r)));
                        assert(ops.contains(Op::DelRoute(r)));
                        assert(!step_due(o, l, d, Op::AddRoute(r)));
                        assert(!ops.contains(Op::AddRoute(r)));
                        routes_go(k, ops, r);
                    } else {
                        assert(step_due(o, l, d, Op::AddRoute(r)));
                    }
                }
            },
            Op::AddRoute(r) => {
                if step_due(o2, l2, d, op) {
                    assert(!step_due(o, l, d, Op::DelRoute(r)));
                    assert(!ops.contains(Op::DelRoute(r)));
                    if o.routes.contains(r) {
                        assert(k.routes.contains(r));
                    } else {
                        assert(step_due(o, l, d, Op::AddRoute(r)));
                        assert(ops.contains(Op::AddRoute(r)));
                    }
                    routes_stay(k, ops, r);
                    assert(o2.routes.contains(r));
                }
            },
        }
    }
    if planned(o2, d).len() > 0 {
        assert(planned(o2, d).contains(planned(o2, d)[0]));
    }
    assert(planned(o2, d) =~= Seq::<Op>::empty());
}

proof fn link_converges(o: ObservedV, d: DesiredV, k: KernelV)
    requires
        shows(o, d.index, k),
    ensures
        after_steps(k, planned(o, d)).up == d.up,
{
    let ops = planned(o, d);
    let l = model::link_with(o.links, d.index)->0;
    plans_hold_what_is_due(o, d);
    link_state_after(k, ops);
    assert forall|i: int| 0 <= i < ops.len() implies step_due(o, l, d, #[trigger] ops[i]) by {
        assert(ops.contains(ops[i]));
    }
    if d.up && !l.up {
        assert(step_due(o, l, d, Op::LinkUp(d.index)));
        assert(ops.contains(Op::LinkUp(d.index)));
        let i = choose|i: int| 0 <= i < ops.len() && ops[i] == Op::LinkUp(d.index);
        assert(ops[i] is LinkUp);
    } else if !d.up && l.up {
        assert(step_due(o, l, d, Op::LinkDown(d.index)));
        assert(ops.contains(Op::LinkDown(d.index)));
        let i = choose|i: int| 0 <= i < ops.len() && ops[i] == Op::LinkDown(d.index);
        assert(ops[i] is LinkDown);
    }
}

proof fn mtu_converges(o: ObservedV, d: DesiredV, k: KernelV, m: u32)
    requires
        shows(o, d.index, k),
        d.mtu == Some(m),
        m >= 68,
    ensures
        after_steps(k, planned(o, d)).mtu == m,
{
    let ops = planned(o, d);
    let l = model::link_with(o.links, d.index)->0;
    plans_hold_what_is_due(o, d);
    assert forall|i: int| 0 <= i < ops.len() implies step_due(o, l, d, #[trigger] ops[i]) by {
        assert(ops.contains(ops[i]));
    }
    if m != l.mtu {
        assert(step_due(o, l, d, Op::Mtu(d.index, m)));
        assert(ops.contains(Op::Mtu(d.index, m)));
        let i = choose|i: int| 0 <= i < ops.len() && ops[i] == Op::Mtu(d.index, m);
        assert(ops[i] is Mtu);
    }
    mtu_after(k, ops, m);
}

proof fn unnamed_goes(o: ObservedV, d: DesiredV, k: KernelV, a: Address, b: Address)
    requires
        shows(o, d.index, k),
        b.index == d.index,
        manageable(b),
        settled(b) == a,
        !names(want_set(d), a),
        k.addresses.contains(b) || exists|i: int|
            0 <= i < planned(o, d).len() && adds(#[trigger] planned(o, d)[i], b),
    ensures
        !after_steps(k, planned(o, d)).addresses.contains(b),
{
    let ops = planned(o, d);
    let l = model::link_with(o.links, d.index)->0;
    plans_hold_what_is_due(o, d);
    want_set_members(d);
    let s = want_set(d);
    assert forall|i: int| 0 <= i < ops.len() implies !touches(#[trigger] ops[i], b) by {
        assert(ops.contains(ops[i]));
        assert(step_due(o, l, d, ops[i]));
        if touches(ops[i], b) {
            let x = ops[i]->AddAddress_0;
            assert(s.contains(x));
            let j = choose|j: int| 0 <= j < s.len() && s[j] == x;
            assert(s[j].address == a.address && s[j].prefix == a.prefix);
        }
    }
    if !k.addresses.contains(b) {
        let i = choose|i: int| 0 <= i < ops.len() && adds(#[trigger] ops[i], b);
        assert(touches(ops[i], b));
    }
    assert(o.addresses.contains(b));
    assert(has_managed(o, d.index, a));
    assert(step_due(o, l, d, Op::DelAddress(a)));
    assert(ops.contains(Op::DelAddress(a)));
    let i = choose|i: int| 0 <= i < ops.len() && ops[i] == Op::DelAddress(a);
    assert(deletes(ops[i], b));
    addresses_go(k, ops, b);
}

proof fn wanted_stays(o: ObservedV, d: DesiredV, k: KernelV, o2: ObservedV, a: Address)
    requires
        well_named(d),
        shows(o, d.index, k),
        shows(o2, d.index, after_steps(k, planned(o, d))),
        wanted_addresses(d).contains(a),
    ensures
        has_managed(o2, d.index, a),
{
    let ops = planned(o, d);
    let l = model::link_with(o.links, d.index)->0;
    plans_hold_what_is_due(o, d);
    want_set_members(d);
    let w = wanted_addresses(d);
    let s = want_set(d);
    let n = choose|n: int| 0 <= n < w.len() && w[n] == a;
    assert(manageable(w[n]));
    assert(s.contains(a));
    assert(a.index == d.index && !a.tentative);
    let there = has_managed(o, d.index, a);
    let e = if there {
        choose|b: Address| #[trigger]
            o.addresses.contains(b) && b.index == d.index && manageable(b) && settled(b) == a
    } else {
        a
    };
    assert(same_address(e, a));
    assert forall|i: int| 0 <= i < ops.len() implies spares(#[trigger] ops[i], e) by {
        assert(ops.contains(ops[i]));
        assert(step_due(o, l, d, ops[i]));
        match ops[i] {
            Op::DelAddress(x) => {
                if same_address(x, e) {
                    let j = choose|j: int| 0 <= j < s.len() && s[j] == a;
                    assert(s[j].address == x.address && s[j].prefix == x.prefix);
                }
            },
            Op::AddAddress(x, _) => {
                if same_address(x, e) {
                    let j = choose|j: int| 0 <= j < w.len() && w[j] == x;
                    assert(same_address(w[j], w[n]));
                    assert(x == a);
                }
            },
            _ => {},
        }
    }
    if there {
        assert(k.addresses.contains(e));
    } else {
        assert(step_due(o, l, d, Op::AddAddress(a, d.broadcast)));
        assert(ops.contains(Op::AddAddress(a, d.broadcast)));
        let i = choose|i: int| 0 <= i < ops.len() && ops[i] == Op::AddAddress(a, d.broadcast);
        assert(adds(ops[i], e));
    }
    addresses_stay(k, ops, e);
    assert(o2.addresses.contains(e));
}

} // verus!
