//! What is wanted of an interface, and what is said of it.

use vstd::prelude::*;
use crate::addr::{IpAddr, Ipv4Addr};
use crate::clock::Instant;
use crate::dhcp4::client::ActionV;
use crate::dhcp4::packet::lease::{LeaseV, StaticRoute};
use crate::dhcp4::packet::lease;
use crate::libnetd::Level;
use super::interface;
use super::interface::{EffectV, InterfaceV};
use super::matching::{OnLeaseExpiry, StaticAddress};
use super::model;
use super::model::{Address, LinkKind, ObservedV, Route};
use super::reconcile::DesiredV;

verus! {

/// Whether an interface is looked after and switched on.
pub open spec fn in_use(i: InterfaceV) -> bool {
    i.profile is Some && i.profile->0.managed && !i.link.loopback && i.enabled
}

/// The metric of an interface's routes: the profile's, else 600 on a wireless link
/// and 100 on any other.
pub open spec fn cost(i: InterfaceV) -> u32 {
    if i.profile is Some && i.profile->0.address.route_metric is Some {
        i.profile->0.address.route_metric->0
    } else if i.link.kind is Wireless {
        600
    } else {
        100
    }
}

/// Something is wanted of an interface exactly where a profile looks after it and it
/// is not the loopback: that it be up, where it is enabled, else that it be down
/// with nothing on it.
pub proof fn something_is_wanted_of_what_is_managed(i: InterfaceV)
    ensures
        i.desired() is Some <==> i.profile is Some && i.profile->0.managed && !i.link.loopback,
        i.desired() matches Some(d) ==> {
            &&& d.index == i.link.index
            &&& d.up == i.enabled
            &&& !i.enabled ==> d.mtu is None && d.addresses.len() == 0 && d.broadcast is None
                && d.default_route is None && d.routes.len() == 0
            &&& d.addresses6.len() == 0 && d.default_route6 is None
        },
{
}

/// The MTU is the profile's, else the lease's; the broadcast address is the lease's.
pub proof fn the_profile_goes_before_the_lease(i: InterfaceV)
    requires
        in_use(i),
    ensures
        i.desired() is Some,
        ({
            let d = i.desired()->0;
            let a = i.profile->0.address;
            &&& d.mtu == if a.mtu is Some {
                a.mtu
            } else if i.lease is Some && i.lease->0.mtu is Some {
                Some(i.lease->0.mtu->0 as u32)
            } else {
                None
            }
            &&& d.broadcast == if i.lease is Some {
                i.lease->0.broadcast
            } else {
                None
            }
            &&& d.default_route == if a.gateway is Some {
                Some((a.gateway->0, cost(i)))
            } else if i.lease is Some && lease::lease_gateway(i.lease->0) is Some {
                Some((lease::lease_gateway(i.lease->0)->0, cost(i)))
            } else {
                None
            }
        }),
{
}

/// The addresses are the profile's, in their order, and then the lease's; the
/// self-assigned one, a /16, stands where there is neither.
pub proof fn addresses_are_the_profiles_and_the_leases(i: InterfaceV)
    requires
        in_use(i),
    ensures
        i.desired() is Some,
        ({
            let all = i.desired()->0.addresses;
            let fixed = i.profile->0.address.statics;
            &&& forall|k: int|
                0 <= k < fixed.len() ==> 0 <= k < all.len() && #[trigger] all[k] == (
                    fixed[k].address,
                    fixed[k].prefix,
                )
            &&& match (i.lease, i.link_local) {
                (Some(l), _) => all.len() == fixed.len() + 1 && all.last() == (l.address, l.prefix),
                (None, Some(a)) => if fixed.len() == 0 {
                    all == seq![(a, 16u8)]
                } else {
                    all.len() == fixed.len()
                },
                (None, None) => all.len() == fixed.len(),
            }
        }),
{
    let all = i.desired()->0.addresses;
    let fixed = i.profile->0.address.statics;
    let pairs = interface::pairs(fixed);
    assert forall|k: int| 0 <= k < fixed.len() implies 0 <= k < all.len() && #[trigger] all[k] == (
        fixed[k].address,
        fixed[k].prefix,
    ) by {
        assert(pairs[k] == (fixed[k].address, fixed[k].prefix));
        assert(all[k] == pairs[k]);
    }
    if i.lease is None && i.link_local is Some && fixed.len() == 0 {
        assert(all =~= seq![(i.link_local->0, 16u8)]);
    }
}

/// Whether a wanted route comes from one of these: not a default route, and with
/// this metric.
pub open spec fn comes_from(
    s: Seq<StaticRoute>,
    metric: u32,
    r: (Ipv4Addr, u8, Ipv4Addr, u32),
) -> bool {
    exists|j: int|
        0 <= j < s.len() && (#[trigger] s[j]).prefix > 0 && r == (
            s[j].destination,
            s[j].prefix,
            s[j].gateway,
            metric,
        )
}

proof fn routes_are(s: Seq<StaticRoute>, metric: u32, r: (Ipv4Addr, u8, Ipv4Addr, u32))
    ensures
        interface::routes_of(s, metric).contains(r) <==> comes_from(s, metric, r),
        interface::routes_of(s, metric).len() <= s.len(),
        (forall|j: int| 0 <= j < s.len() ==> (#[trigger] s[j]).prefix > 0) ==> {
            &&& interface::routes_of(s, metric).len() == s.len()
            &&& forall|j: int|
                0 <= j < s.len() ==> #[trigger] interface::routes_of(s, metric)[j] == (
                    s[j].destination,
                    s[j].prefix,
                    s[j].gateway,
                    metric,
                )
        },
    decreases s.len(),
{
    if s.len() > 0 {
        let t = s.drop_last();
        let n = s.len() - 1;
        routes_are(t, metric, r);
        let before = interface::routes_of(t, metric);
        let all = interface::routes_of(s, metric);
        let x = (s[n].destination, s[n].prefix, s[n].gateway, metric);
        assert(s[n] == s.last());
        if before.contains(r) {
            let k = choose|k: int| 0 <= k < before.len() && before[k] == r;
            assert(all[k] == r);
            let j = choose|j: int|
                0 <= j < t.len() && (#[trigger] t[j]).prefix > 0 && r == (
                    t[j].destination,
                    t[j].prefix,
                    t[j].gateway,
                    metric,
                );
            assert(s[j] == t[j]);
        }
        if all.contains(r) {
            let k = choose|k: int| 0 <= k < all.len() && all[k] == r;
            if k < before.len() {
                assert(before[k] == r);
            } else {
                assert(r == x);
            }
        }
        if comes_from(s, metric, r) {
            let j = choose|j: int|
                0 <= j < s.len() && (#[trigger] s[j]).prefix > 0 && r == (
                    s[j].destination,
                    s[j].prefix,
                    s[j].gateway,
                    metric,
                );
            if j < n {
                assert(t[j] == s[j]);
                assert(comes_from(t, metric, r));
            } else {
                assert(all[before.len() as int] == r);
            }
        }
        if forall|j: int| 0 <= j < s.len() ==> (#[trigger] s[j]).prefix > 0 {
            assert forall|j: int| 0 <= j < t.len() implies (#[trigger] t[j]).prefix > 0 by {
                assert(t[j] == s[j]);
            }
            assert(s[n].prefix > 0);
            assert forall|j: int| 0 <= j < s.len() implies #[trigger] all[j] == (
                s[j].destination,
                s[j].prefix,
                s[j].gateway,
                metric,
            ) by {
                if j < n {
                    assert(all[j] == before[j]);
                    assert(t[j] == s[j]);
                }
            }
        }
    }
}

/// The routes are exactly the lease's that are no default route, each with the
/// interface's metric; where none is one, each in its place.
pub proof fn routes_are_the_leases(i: InterfaceV, r: (Ipv4Addr, u8, Ipv4Addr, u32))
    requires
        in_use(i),
    ensures
        i.desired() is Some,
        match i.lease {
            Some(l) => {
                let all = i.desired()->0.routes;
                &&& all.contains(r) <==> comes_from(l.static_routes, cost(i), r)
                &&& all.contains(r) ==> r.1 > 0
                &&& (forall|j: int|
                    0 <= j < l.static_routes.len() ==> (#[trigger] l.static_routes[j]).prefix > 0)
                    ==> {
                    &&& all.len() == l.static_routes.len()
                    &&& forall|j: int|
                        0 <= j < all.len() ==> #[trigger] all[j] == (
                            l.static_routes[j].destination,
                            l.static_routes[j].prefix,
                            l.static_routes[j].gateway,
                            cost(i),
                        )
                }
            },
            None => i.desired()->0.routes.len() == 0,
        },
{
    if let Some(l) = i.lease {
        routes_are(l.static_routes, cost(i), r);
    }
}

/// The servers and the search domains are the profile's, and then the lease's where
/// the profile takes them; the lease's own domain stands in for a search list that
/// it does not give.
pub proof fn names_are_the_profiles_and_the_leases(i: InterfaceV)
    ensures
        ({
            let takes = i.profile is Some && i.profile->0.dns.use_from_dhcp && i.lease is Some;
            &&& i.profile is None ==> i.dns_servers().len() == 0 && i.dns_search().len() == 0
            &&& i.profile is Some && !takes ==> i.dns_servers() == i.profile->0.dns.servers
                && i.dns_search() == i.profile->0.dns.search
            &&& takes ==> {
                let own = i.profile->0.dns;
                let l = i.lease->0;
                &&& i.dns_servers() == own.servers + l.dns
                &&& l.search.len() > 0 ==> i.dns_search() == own.search + l.search
                &&& l.search.len() == 0 && l.domain is Some ==> i.dns_search() == own.search.push(
                    l.domain->0,
                )
                &&& l.search.len() == 0 && l.domain is None ==> i.dns_search() == own.search
            }
        }),
{
}

// ---- the level --------------------------------------------------------------

/// Whether an address on this link is there that is not a loopback one.
pub open spec fn addressed(o: ObservedV, index: u32) -> bool {
    exists|k: int|
        0 <= k < o.addresses.len() && (#[trigger] o.addresses[k]).index == index && (
        match o.addresses[k].address {
            IpAddr::V4(a) => a.bits as int / 0x100_0000 != 127,
            IpAddr::V6(a) => a.bits != 1,
        })
}

/// Whether a default route leads out over this link.
pub open spec fn routed(o: ObservedV, index: u32) -> bool {
    exists|k: int|
        0 <= k < o.routes.len() && (#[trigger] o.routes[k]).index == index && o.routes[k].prefix
            == 0
}

proof fn addresses_found(s: Seq<Address>, index: u32, a: Address)
    ensures
        model::addresses_on(s, index).contains(a) <==> s.contains(a) && a.index == index,
    decreases s.len(),
{
    if s.len() > 0 {
        let t = s.drop_last();
        addresses_found(t, index, a);
        let before = model::addresses_on(t, index);
        let all = model::addresses_on(s, index);
        assert(s[s.len() - 1] == s.last());
        if s.contains(a) && a != s.last() {
            let k = choose|k: int| 0 <= k < s.len() && s[k] == a;
            assert(t[k] == a);
        }
        if t.contains(a) {
            let k = choose|k: int| 0 <= k < t.len() && t[k] == a;
            assert(s[k] == a);
        }
        if s.last().index == index {
            assert(all[before.len() as int] == s.last());
            if before.contains(a) {
                let k = choose|k: int| 0 <= k < before.len() && before[k] == a;
                assert(all[k] == a);
            }
            if all.contains(a) && a != s.last() {
                let k = choose|k: int| 0 <= k < all.len() && all[k] == a;
                assert(before[k] == a);
            }
        }
    }
}

proof fn routes_found(s: Seq<Route>, index: u32, r: Route)
    ensures
        model::routes_on(s, index).contains(r) <==> s.contains(r) && r.index == index,
    decreases s.len(),
{
    if s.len() > 0 {
        let t = s.drop_last();
        routes_found(t, index, r);
        let before = model::routes_on(t, index);
        let all = model::routes_on(s, index);
        assert(s[s.len() - 1] == s.last());
        if s.contains(r) && r != s.last() {
            let k = choose|k: int| 0 <= k < s.len() && s[k] == r;
            assert(t[k] == r);
        }
        if t.contains(r) {
            let k = choose|k: int| 0 <= k < t.len() && t[k] == r;
            assert(s[k] == r);
        }
        if s.last().index == index {
            assert(all[before.len() as int] == s.last());
            if before.contains(r) {
                let k = choose|k: int| 0 <= k < before.len() && before[k] == r;
                assert(all[k] == r);
            }
            if all.contains(r) && r != s.last() {
                let k = choose|k: int| 0 <= k < all.len() && all[k] == r;
                assert(before[k] == r);
            }
        }
    }
}

/// What is observed of a link is what was observed with its number.
pub proof fn what_is_on_a_link_has_its_number(o: ObservedV, index: u32, a: Address, r: Route)
    ensures
        model::addresses_on(o.addresses, index).contains(a) <==> o.addresses.contains(a) && a.index
            == index,
        model::routes_on(o.routes, index).contains(r) <==> o.routes.contains(r) && r.index == index,
{
    addresses_found(o.addresses, index, a);
    routes_found(o.routes, index, r);
}

proof fn usable_is(o: ObservedV, index: u32)
    ensures
        interface::any_usable(model::addresses_on(o.addresses, index)) <==> addressed(o, index),
        interface::any_default(model::routes_on(o.routes, index)) <==> routed(o, index),
{
    let on = model::addresses_on(o.addresses, index);
    if interface::any_usable(on) {
        let k = choose|k: int| 0 <= k < on.len() && !(#[trigger] on[k]).address.loopback();
        addresses_found(o.addresses, index, on[k]);
        assert(on.contains(on[k]));
        let j = choose|j: int| 0 <= j < o.addresses.len() && o.addresses[j] == on[k];
        assert(o.addresses[j].index == index);
    }
    if addressed(o, index) {
        let k = choose|k: int|
            0 <= k < o.addresses.len() && (#[trigger] o.addresses[k]).index == index && (
            match o.addresses[k].address {
                IpAddr::V4(a) => a.bits as int / 0x100_0000 != 127,
                IpAddr::V6(a) => a.bits != 1,
            });
        addresses_found(o.addresses, index, o.addresses[k]);
        let j = choose|j: int| 0 <= j < on.len() && on[j] == o.addresses[k];
        assert(!on[j].address.loopback());
    }
    let out = model::routes_on(o.routes, index);
    if interface::any_default(out) {
        let k = choose|k: int| 0 <= k < out.len() && (#[trigger] out[k]).prefix == 0;
        routes_found(o.routes, index, out[k]);
        assert(out.contains(out[k]));
        let j = choose|j: int| 0 <= j < o.routes.len() && o.routes[j] == out[k];
        assert(o.routes[j].index == index);
    }
    if routed(o, index) {
        let k = choose|k: int|
            0 <= k < o.routes.len() && (#[trigger] o.routes[k]).index == index && o.routes[k].prefix
                == 0;
        routes_found(o.routes, index, o.routes[k]);
        let j = choose|j: int| 0 <= j < out.len() && out[j] == o.routes[k];
        assert(out[j].prefix == 0);
    }
}

/// A link that is down or has no carrier is absent; one without an address of its own
/// is a link; with one it is addressed, and with a default route too it is routed.
pub proof fn the_level_says_how_far_it_got(i: InterfaceV, o: ObservedV)
    ensures
        ({
            let there = i.link.up && i.link.carrier;
            let n = i.link.index;
            &&& i.level(o) == Level::Absent <==> !there
            &&& i.level(o) == Level::Link <==> there && !addressed(o, n)
            &&& i.level(o) == Level::Addressed <==> there && addressed(o, n) && !routed(o, n)
            &&& i.level(o) == Level::Routed <==> there && addressed(o, n) && routed(o, n)
        }),
{
    usable_is(o, i.link.index);
}

// ---- what the client's actions do -------------------------------------------

/// A lease that is bound is held and remembered, and ends the self-assigned address.
pub proof fn a_bound_lease_is_held(i: InterfaceV, l: LeaseV)
    ensures
        ({
            let (j, effects, changed) = i.act(ActionV::Bound(l));
            &&& j.lease == Some(l) && j.link_local is None && changed
            &&& effects == seq![EffectV::Remember(l)]
            &&& j == InterfaceV { lease: Some(l), link_local: None, ..i }
        }),
{
}

/// A lost lease is dropped and forgotten, unless the profile keeps it.
pub proof fn a_lost_lease_is_dropped(i: InterfaceV)
    ensures
        ({
            let (j, effects, changed) = i.act(ActionV::Lost);
            let keeps = i.profile is Some && i.profile->0.address.on_lease_expiry
                == OnLeaseExpiry::Keep;
            if keeps {
                j == i && effects.len() == 0 && !changed
            } else {
                &&& j == InterfaceV { lease: None, ..i }
                &&& effects == seq![EffectV::Forget] && changed
            }
        }),
{
}

/// Where no offer came, an interface whose profile allows it assigns itself an
/// address, once, that lies in 169.254.0.0/16 without its first and last 256: which
/// one, its hardware address decides, or its number where it has none.
pub proof fn without_an_offer_an_address_is_chosen(i: InterfaceV)
    ensures
        ({
            let (j, effects, changed) = i.act(ActionV::NoOffer);
            &&& effects.len() == 0
            &&& if i.profile is Some && i.profile->0.address.link_local && i.link_local is None {
                &&& changed
                &&& j.link_local matches Some(a) && {
                    let seed = match i.link.mac {
                        Some(m) => m[2] * 0x100_0000 + m[3] * 0x1_0000 + m[4] * 0x100 + m[5],
                        None => i.link.index * 2654435761 % 0x1_0000_0000,
                    };
                    &&& a.bits == 0xa9fe_0100 + seed % 0xfd00
                    &&& 0xa9fe_0100 <= a.bits < 0xa9fe_fe00
                }
                &&& j == InterfaceV { link_local: j.link_local, ..i }
            } else {
                j == i && !changed
            }
        }),
{
}

/// What is to be sent is sent, where there is a client to send it.
pub proof fn what_is_to_be_sent_is_sent(i: InterfaceV, a: ActionV)
    requires
        a is Send,
    ensures
        ({
            let (j, effects, changed) = i.act(a);
            &&& j == i && !changed
            &&& if i.dhcp is Some {
                effects.len() == 1 && (effects[0] matches EffectV::Send { message, destination }
                    && a == ActionV::Send { message, destination })
            } else {
                effects.len() == 0
            }
        }),
{
}

/// Actions are performed one after another.
pub proof fn actions_are_performed_in_order(i: InterfaceV, first: Seq<ActionV>, last: ActionV)
    ensures
        ({
            let (j, effects, changed) = i.perform(first);
            let (k, more, too) = j.act(last);
            &&& i.perform(first.push(last)) == (k, effects + more, changed || too)
            &&& i.perform(Seq::empty()) == (i, Seq::<EffectV>::empty(), false)
        }),
{
    assert(first.push(last).drop_last() =~= first);
}

/// A client that is stopped lets its lease go: what it says of that is sent, and
/// nothing of it is left.
pub proof fn a_stopped_client_lets_go(i: InterfaceV, now: Instant)
    requires
        i.wf(),
    ensures
        ({
            let (j, effects) = i.stop_dhcp(now);
            &&& j.dhcp is None && j.lease is None && j.link_local is None
            &&& j == InterfaceV { dhcp: None, lease: None, link_local: None, ..i }
            &&& match i.dhcp {
                Some(c) => {
                    let said = c.release(now).1;
                    &&& effects.len() == said.len()
                    &&& said.len() <= 1
                    &&& said.len() == 1 ==> (effects[0] matches EffectV::Send {
                        message,
                        destination,
                    } && said[0] == ActionV::Send { message, destination })
                },
                None => effects.len() == 0,
            }
        }),
{
    if let Some(c) = i.dhcp {
        crate::dhcp4::conduct::a_client_lets_go(c, now);
        let said = c.release(now).1;
        if said.len() == 1 {
            assert(said.drop_last() =~= Seq::<ActionV>::empty());
            assert(interface::sends(said.drop_last()) =~= Seq::<EffectV>::empty());
        }
    }
}

} // verus!
