//! Which steps lead from what is observed to what is wanted.

use vstd::prelude::*;
use crate::addr::{IpAddr, Ipv4Addr};
use super::model;
use super::model::{Address, LinkV, ObservedV, Route};
use super::reconcile;
use super::reconcile::{DesiredV, DesiredV6, Op, Outcome};

verus! {

/// Whether this address is wanted: an IPv4 one with no flags, or an IPv6 one with
/// those it is wanted with.
pub open spec fn wanted(d: DesiredV, a: Address) -> bool {
    &&& a.index == d.index && !a.tentative
    &&& match a.address {
        IpAddr::V4(x) => d.addresses.contains((x, a.prefix)) && !a.deprecated && !a.no_prefix_route,
        IpAddr::V6(x) => d.addresses6.contains(
            DesiredV6 {
                address: x,
                prefix: a.prefix,
                deprecated: a.deprecated,
                no_prefix_route: a.no_prefix_route,
            },
        ),
    }
}

/// Whether this address is wanted, whatever its flags.
pub open spec fn named(d: DesiredV, a: Address) -> bool {
    match a.address {
        IpAddr::V4(x) => d.addresses.contains((x, a.prefix)),
        IpAddr::V6(x) => exists|i: int|
            0 <= i < d.addresses6.len() && (#[trigger] d.addresses6[i]).address == x
                && d.addresses6[i].prefix == a.prefix,
    }
}

/// Whether an address is there, but for whether it is still being checked; the
/// kernel's own link-local ones (`fe80::/10`) do not count.
pub open spec fn there(o: ObservedV, index: u32, a: Address) -> bool {
    exists|i: int|
        0 <= i < o.addresses.len() && (#[trigger] o.addresses[i]).index == index && !(
        o.addresses[i].address matches IpAddr::V6(x) && x.bits as int
            / 0x40_0000_0000_0000_0000_0000_0000_0000 == 0x3fa) && a == (Address {
            tentative: false,
            ..o.addresses[i]
        })
}

/// Whether this route is wanted: one of those listed, or the default one, under the
/// daemon's own protocol number.
pub open spec fn wanted_route(d: DesiredV, r: Route) -> bool {
    &&& r.index == d.index && r.protocol == 200
    &&& match (r.destination, r.gateway) {
        (IpAddr::V4(x), Some(IpAddr::V4(g))) => {
            ||| d.routes.contains((x, r.prefix, g, r.metric))
            ||| x.bits == 0 && r.prefix == 0 && d.default_route == Some((g, r.metric))
        },
        (IpAddr::V6(x), Some(IpAddr::V6(g))) => x.bits == 0 && r.prefix == 0 && d.default_route6
            == Some((g, r.metric)),
        _ => false,
    }
}

/// Whether a step is due.
pub open spec fn due(o: ObservedV, l: LinkV, d: DesiredV, op: Op) -> bool {
    match op {
        Op::LinkUp(i) => i == d.index && d.up && !l.up,
        Op::LinkDown(i) => i == d.index && !d.up && l.up,
        Op::Mtu(i, m) => i == d.index && d.mtu == Some(m) && m != l.mtu && m >= 68,
        Op::DelAddress(a) => there(o, d.index, a) && !named(d, a),
        Op::AddAddress(a, b) => b == d.broadcast && wanted(d, a) && !there(o, d.index, a),
        Op::DelRoute(r) => o.routes.contains(r) && r.index == d.index && r.protocol == 200
            && !wanted_route(d, r),
        Op::AddRoute(r) => wanted_route(d, r) && !o.routes.contains(r),
    }
}

proof fn wanted_is(d: DesiredV, a: Address)
    ensures
        reconcile::wanted_addresses(d).contains(a) <==> wanted(d, a),
        reconcile::names(reconcile::wanted_addresses(d), a) <==> named(d, a),
{
    let w = reconcile::wanted_addresses(d);
    let n = d.addresses.len() as int;
    assert forall|i: int| 0 <= i < w.len() implies wanted(d, #[trigger] w[i]) by {
        if i < n {
            assert(d.addresses.contains(d.addresses[i]));
        } else {
            assert(w[i] == reconcile::shown6(d.index, d.addresses6[i - n]));
            assert(d.addresses6.contains(d.addresses6[i - n]));
        }
    }
    if w.contains(a) {
        let i = choose|i: int| 0 <= i < w.len() && w[i] == a;
        assert(wanted(d, w[i]));
    }
    if wanted(d, a) {
        match a.address {
            IpAddr::V4(x) => {
                let i = choose|i: int| 0 <= i < n && d.addresses[i] == (x, a.prefix);
                assert(w[i] == a);
            },
            IpAddr::V6(x) => {
                let y = DesiredV6 {
                    address: x,
                    prefix: a.prefix,
                    deprecated: a.deprecated,
                    no_prefix_route: a.no_prefix_route,
                };
                let i = choose|i: int| 0 <= i < d.addresses6.len() && d.addresses6[i] == y;
                assert(w[n + i] == a);
            },
        }
    }
    if reconcile::names(w, a) {
        let i = choose|i: int|
            0 <= i < w.len() && (#[trigger] w[i]).address == a.address && w[i].prefix == a.prefix;
        assert(wanted(d, w[i]));
        if i >= n {
            assert(w[i] == reconcile::shown6(d.index, d.addresses6[i - n]));
        }
    }
    if named(d, a) {
        match a.address {
            IpAddr::V4(x) => {
                let i = choose|i: int| 0 <= i < n && d.addresses[i] == (x, a.prefix);
                assert(w[i].address == a.address && w[i].prefix == a.prefix);
            },
            IpAddr::V6(x) => {
                let i = choose|i: int|
                    0 <= i < d.addresses6.len() && (#[trigger] d.addresses6[i]).address == x
                        && d.addresses6[i].prefix == a.prefix;
                assert(w[n + i] == reconcile::shown6(d.index, d.addresses6[i]));
                assert(w[n + i].address == a.address && w[n + i].prefix == a.prefix);
            },
        }
    }
}

proof fn there_is(o: ObservedV, index: u32, a: Address)
    ensures
        reconcile::has_managed(o, index, a) <==> there(o, index, a),
{
    if reconcile::has_managed(o, index, a) {
        let b = choose|b: Address| #[trigger]
            o.addresses.contains(b) && b.index == index && reconcile::manageable(b)
                && reconcile::settled(b) == a;
        let i = choose|i: int| 0 <= i < o.addresses.len() && o.addresses[i] == b;
        assert(o.addresses[i].index == index);
    }
    if there(o, index, a) {
        let i = choose|i: int|
            0 <= i < o.addresses.len() && (#[trigger] o.addresses[i]).index == index && !(
            o.addresses[i].address matches IpAddr::V6(x) && x.bits as int
                / 0x40_0000_0000_0000_0000_0000_0000_0000 == 0x3fa) && a == (Address {
                tentative: false,
                ..o.addresses[i]
            });
        let b = o.addresses[i];
        assert(o.addresses.contains(b));
        assert(reconcile::settled(b) == a);
    }
}

proof fn wanted_route_is(d: DesiredV, r: Route)
    ensures
        reconcile::wanted_routes(d).contains(r) <==> wanted_route(d, r),
{
    let w = reconcile::wanted_routes(d);
    let n = d.routes.len() as int;
    assert forall|i: int| 0 <= i < w.len() implies wanted_route(d, #[trigger] w[i]) by {
        if i < n {
            assert(d.routes.contains(d.routes[i]));
        }
    }
    if w.contains(r) {
        let i = choose|i: int| 0 <= i < w.len() && w[i] == r;
        assert(wanted_route(d, w[i]));
    }
    if wanted_route(d, r) {
        match (r.destination, r.gateway) {
            (IpAddr::V4(x), Some(IpAddr::V4(g))) => {
                if d.routes.contains((x, r.prefix, g, r.metric)) {
                    let i = choose|i: int|
                        0 <= i < n && d.routes[i] == (x, r.prefix, g, r.metric);
                    assert(w[i] == r);
                } else {
                    assert(w[n] == r);
                }
            },
            _ => {
                assert(w.last() == r);
            },
        }
    }
}

/// A plan holds exactly the steps that are due: it brings the link up or down, sets
/// its MTU where one of at least 68 is wanted and it has another, removes what is
/// there and not wanted and adds what is wanted and not there. Of the routes only
/// the daemon's own are removed.
pub proof fn a_plan_holds_what_is_due(o: ObservedV, d: DesiredV, op: Op)
    requires
        model::link_with(o.links, d.index) is Some,
    ensures
        reconcile::planned(o, d).contains(op) <==> due(
            o,
            model::link_with(o.links, d.index)->0,
            d,
            op,
        ),
{
    reconcile::plans_hold_what_is_due(o, d);
    match op {
        Op::DelAddress(a) => {
            there_is(o, d.index, a);
            wanted_is(d, a);
            reconcile::want_set_members(d);
            named_alike(d, a);
        },
        Op::AddAddress(a, _) => {
            there_is(o, d.index, a);
            wanted_is(d, a);
        },
        Op::DelRoute(r) => {
            reconcile::route_set_members(reconcile::wanted_routes(d));
            wanted_route_is(d, r);
        },
        Op::AddRoute(r) => {
            reconcile::route_set_members(reconcile::wanted_routes(d));
            wanted_route_is(d, r);
        },
        _ => {},
    }
}

proof fn named_alike(d: DesiredV, a: Address)
    ensures
        reconcile::names(reconcile::want_set(d), a) <==> reconcile::names(
            reconcile::wanted_addresses(d),
            a,
        ),
{
    let s = reconcile::want_set(d);
    let w = reconcile::wanted_addresses(d);
    reconcile::want_set_members(d);
    if reconcile::names(s, a) {
        let i = choose|i: int|
            0 <= i < s.len() && (#[trigger] s[i]).address == a.address && s[i].prefix == a.prefix;
        assert(s.contains(s[i]));
        let j = choose|j: int| 0 <= j < w.len() && w[j] == s[i];
        assert(w[j].address == a.address);
    }
    if reconcile::names(w, a) {
        let i = choose|i: int|
            0 <= i < w.len() && (#[trigger] w[i]).address == a.address && w[i].prefix == a.prefix;
        assert(w.contains(w[i]));
        assert(s.contains(w[i]));
        let j = choose|j: int| 0 <= j < s.len() && s[j] == w[i];
        assert(s[j].address == a.address);
    }
}

/// Of a link that is not there, nothing is planned.
pub proof fn nothing_is_planned_without_a_link(o: ObservedV, d: DesiredV)
    requires
        forall|i: int| 0 <= i < o.links.len() ==> (#[trigger] o.links[i]).index != d.index,
    ensures
        reconcile::planned(o, d).len() == 0,
{
    not_there(o.links, d.index);
}

proof fn not_there(s: Seq<LinkV>, index: u32)
    requires
        forall|i: int| 0 <= i < s.len() ==> (#[trigger] s[i]).index != index,
    ensures
        model::link_with(s, index) is None,
    decreases s.len(),
{
    if s.len() > 0 {
        let t = s.drop_first();
        assert forall|i: int| 0 <= i < t.len() implies (#[trigger] t[i]).index != index by {
            assert(t[i] == s[i + 1]);
        }
        assert(s[0].index != index);
        not_there(t, index);
    }
}

/// The link with a number is the first that has it.
pub proof fn a_link_is_found_by_its_number(s: Seq<LinkV>, i: int)
    requires
        0 <= i < s.len(),
        forall|j: int| 0 <= j < i ==> (#[trigger] s[j]).index != s[i].index,
    ensures
        model::link_with(s, s[i].index) == Some(s[i]),
    decreases s.len(),
{
    if i > 0 {
        let t = s.drop_first();
        assert(s[0].index != s[i].index);
        assert forall|j: int| 0 <= j < i - 1 implies (#[trigger] t[j]).index != t[i - 1].index by {
            assert(t[j] == s[j + 1]);
        }
        a_link_is_found_by_its_number(t, i - 1);
    }
}

// ---- order ------------------------------------------------------------------

/// The turn of a step.
pub open spec fn turn(op: Op) -> int {
    match op {
        Op::LinkUp(_) => 0,
        Op::Mtu(_, _) => 1,
        Op::DelAddress(_) => 2,
        Op::AddAddress(_, _) => 3,
        Op::DelRoute(_) => 4,
        Op::AddRoute(_) => 5,
        Op::LinkDown(_) => 6,
    }
}

spec fn all_of(s: Seq<Op>, t: int) -> bool {
    forall|i: int| 0 <= i < s.len() ==> turn(#[trigger] s[i]) == t
}

proof fn address_deletions_are(have: Seq<Address>, want: Seq<Address>)
    ensures
        all_of(reconcile::address_deletions(have, want), 2),
    decreases have.len(),
{
    if have.len() > 0 {
        address_deletions_are(have.drop_last(), want);
    }
}

proof fn address_additions_are(want: Seq<Address>, have: Seq<Address>, b: Option<Ipv4Addr>)
    ensures
        all_of(reconcile::address_additions(want, have, b), 3),
    decreases want.len(),
{
    if want.len() > 0 {
        address_additions_are(want.drop_last(), have, b);
    }
}

proof fn route_deletions_are(have: Seq<Route>, want: Seq<Route>)
    ensures
        all_of(reconcile::route_deletions(have, want), 4),
    decreases have.len(),
{
    if have.len() > 0 {
        route_deletions_are(have.drop_last(), want);
    }
}

proof fn route_additions_are(want: Seq<Route>, have: Seq<Route>)
    ensures
        all_of(reconcile::route_additions(want, have), 5),
    decreases want.len(),
{
    if want.len() > 0 {
        route_additions_are(want.drop_last(), have);
    }
}

/// The steps take their turns: up, MTU, addresses that go and those that come,
/// routes that go and those that come, down.
pub proof fn steps_take_their_turns(o: ObservedV, d: DesiredV, i: int, j: int)
    requires
        0 <= i < j < reconcile::planned(o, d).len(),
    ensures
        turn(reconcile::planned(o, d)[i]) <= turn(reconcile::planned(o, d)[j]),
{
    let hs = reconcile::have_set(o, d.index);
    let ws = reconcile::want_set(d);
    let hr = reconcile::have_route_set(o, d.index);
    let wr = reconcile::want_route_set(d);
    address_deletions_are(hs, ws);
    address_additions_are(ws, hs, d.broadcast);
    route_deletions_are(hr, wr);
    route_additions_are(wr, hr);
    let l = model::link_with(o.links, d.index)->0;
    let a = reconcile::link_steps(l, d);
    let b = reconcile::address_deletions(hs, ws);
    let c = reconcile::address_additions(ws, hs, d.broadcast);
    let e = reconcile::route_deletions(hr, wr);
    let f = reconcile::route_additions(wr, hr);
    let p = reconcile::planned(o, d);
    let k1 = a.len() as int;
    let k2 = k1 + b.len();
    let k3 = k2 + c.len();
    let k4 = k3 + e.len();
    let k5 = k4 + f.len();
    assert forall|n: int| 0 <= n < p.len() implies turn(#[trigger] p[n]) == if n < k1 {
        turn(a[n])
    } else if n < k2 {
        2
    } else if n < k3 {
        3
    } else if n < k4 {
        4
    } else if n < k5 {
        5
    } else {
        6
    } by {
        if n < k1 {
            assert(p[n] == a[n]);
        } else if n < k2 {
            assert(p[n] == b[n - k1]);
        } else if n < k3 {
            assert(p[n] == c[n - k2]);
        } else if n < k4 {
            assert(p[n] == e[n - k3]);
        } else if n < k5 {
            assert(p[n] == f[n - k4]);
        }
    }
}

// ---- carrying a plan out ----------------------------------------------------

/// Whether a step counts as failed: what it was to add that is there already is no
/// failure, and what it was to remove that is gone already is none.
pub open spec fn fails(op: Op, outcome: Outcome) -> bool {
    match outcome {
        Outcome::Done => false,
        Outcome::Exists => !(op is AddRoute) && !(op is AddAddress),
        Outcome::Missing => !(op is DelRoute) && !(op is DelAddress),
        Outcome::Failed => true,
    }
}

/// The failures are counted one by one.
pub proof fn failures_are_counted(ops: Seq<Op>, outcomes: Seq<Outcome>, op: Op, outcome: Outcome)
    requires
        ops.len() == outcomes.len(),
    ensures
        reconcile::failures(Seq::empty(), Seq::empty()) == 0,
        reconcile::failures(ops.push(op), outcomes.push(outcome)) == reconcile::failures(
            ops,
            outcomes,
        ) + if fails(op, outcome) {
            1int
        } else {
            0
        },
{
    assert(ops.push(op).drop_last() =~= ops);
    assert(outcomes.push(outcome).take(ops.len() as int) =~= outcomes);
}

} // verus!
