//! What is told of the interfaces.

use vstd::prelude::*;
use vstd::string::*;
use crate::addr;
use crate::addr::Ipv4Addr;
use crate::addr6;
use crate::clock::Instant;
use crate::dhcp4::client::ClientV;
use crate::libnetd::Level;
use crate::text;
use super::interface::InterfaceV;
use super::model;
use super::model::{Address, LinkKind, ObservedV, Route};
use super::report;
use super::wanted;

verus! {

/// Whether an interface is looked after.
pub open spec fn looked_after(i: InterfaceV) -> bool {
    i.profile is Some && i.profile->0.managed && !i.link.loopback
}

/// Whether texts are those of these addresses, each with its prefix length behind a
/// slash.
pub open spec fn spelled(t: Seq<Seq<char>>, s: Seq<Address>) -> bool {
    &&& t.len() == s.len()
    &&& forall|k: int|
        0 <= k < s.len() ==> #[trigger] t[k] == addr6::ip_text(s[k].address) + "/"@ + text::decimal(
            s[k].prefix as nat,
        )
}

/// Whether texts are those of these addresses.
pub open spec fn spelled4(t: Seq<Seq<char>>, s: Seq<Ipv4Addr>) -> bool {
    &&& t.len() == s.len()
    &&& forall|k: int| 0 <= k < s.len() ==> #[trigger] t[k] == addr::v4_text(s[k])
}

/// A scope tells who the interface is, its servers and domains, the time servers of
/// its lease, its addresses, its metric and its level. It answers for everything else
/// where the profile says so or, where that says nothing, where it is routed; and it
/// is exclusive where the profile says so.
pub proof fn a_scope_tells_what_is_known(i: InterfaceV, o: ObservedV)
    ensures
        ({
            let s = report::scope_of(i, o);
            &&& s.ifid == i.ifid && s.name == i.link.name
            &&& spelled4(s.servers, i.dns_servers()) && s.domains == i.dns_search()
            &&& if i.lease is Some {
                spelled4(s.ntp, i.lease->0.ntp)
            } else {
                s.ntp.len() == 0
            }
            &&& spelled(s.addresses, model::addresses_on(o.addresses, i.link.index))
            &&& s.default_route == if i.profile is Some && i.profile->0.dns.default_route is Some {
                i.profile->0.dns.default_route->0
            } else {
                i.level(o) == Level::Routed
            }
            &&& s.exclusive == (i.profile is Some && i.profile->0.dns.exclusive)
            &&& s.metric == wanted::cost(i)
            &&& s.level == i.level(o)
        }),
{
}

/// A report tells who the interface is, where it sits, what claims it, how it does,
/// what is on it, and what its client holds.
pub proof fn a_report_tells_what_is_known(i: InterfaceV, o: ObservedV, now: Instant)
    ensures
        ({
            let r = report::report_of(i, o, now);
            &&& r.ifid == i.ifid && r.name == i.link.name && r.index == i.link.index
            &&& r.mac == if i.link.mac is Some {
                model::colon_hex(i.link.mac->0)
            } else {
                Seq::empty()
            }
            &&& r.path == i.path && r.driver == i.driver
            &&& r.profile == if i.profile is Some {
                Some(i.profile->0.name)
            } else {
                None
            }
            &&& r.managed == looked_after(i) && r.enabled == i.enabled
            &&& r.up == i.link.up && r.carrier == i.link.carrier && r.level == i.level(o)
            &&& spelled(r.addresses, model::addresses_on(o.addresses, i.link.index))
            &&& spelled4(r.dns, i.dns_servers()) && r.search == i.dns_search()
            &&& match (i.dhcp, r.lease) {
                (Some(c), Some(l)) => c.lease is Some && l.server == addr::v4_text(
                    c.lease->0.server,
                ) && l.state == c.state.name() && (c.expires_in(now) is Some ==> l.expires_in
                    == c.expires_in(now)->0),
                (Some(c), None) => c.lease is None,
                (None, l) => l is None,
            }
        }),
{
}

/// The states go by their names.
pub proof fn states_have_names(c: ClientV)
    ensures
        c.state is Init ==> c.state.name() == "init"@,
        c.state is Selecting ==> c.state.name() == "selecting"@,
        c.state is Requesting ==> c.state.name() == "requesting"@,
        c.state is Rebooting ==> c.state.name() == "rebooting"@,
        c.state is Bound ==> c.state.name() == "bound"@,
        c.state is Renewing ==> c.state.name() == "renewing"@,
        c.state is Rebinding ==> c.state.name() == "rebinding"@,
{
}

/// Links go by the names of what they are.
pub proof fn links_have_names(k: LinkKind)
    ensures
        k is Loopback ==> k.name() == "loopback"@,
        k is Ether ==> k.name() == "ether"@,
        k is Wireless ==> k.name() == "wlan"@,
        k is Other ==> k.name() == "other"@,
{
}

/// The gateway reported is that of the first default route on the link.
pub proof fn the_first_default_route_is_reported(
    i: InterfaceV,
    o: ObservedV,
    now: Instant,
    n: int,
)
    ensures
        ({
            let s = model::routes_on(o.routes, i.link.index);
            let r = report::report_of(i, o, now);
            &&& 0 <= n < s.len() && s[n].prefix == 0 && (forall|j: int|
                0 <= j < n ==> (#[trigger] s[j]).prefix != 0) ==> r.gateway
                == if s[n].gateway is Some {
                Some(addr6::ip_text(s[n].gateway->0))
            } else {
                None
            }
            &&& (forall|j: int| 0 <= j < s.len() ==> (#[trigger] s[j]).prefix != 0) ==> r.gateway
                is None
        }),
{
    first_is(model::routes_on(o.routes, i.link.index), n);
}

proof fn first_is(s: Seq<Route>, n: int)
    ensures
        0 <= n < s.len() && s[n].prefix == 0 && (forall|j: int|
            0 <= j < n ==> (#[trigger] s[j]).prefix != 0) ==> report::first_gateway(s)
            == s[n].gateway,
        (forall|j: int| 0 <= j < s.len() ==> (#[trigger] s[j]).prefix != 0)
            ==> report::first_gateway(s) is None,
    decreases s.len(),
{
    if s.len() > 0 {
        let t = s.drop_first();
        first_is(t, n - 1);
        if 0 < n < s.len() && s[n].prefix == 0 && (forall|j: int|
            0 <= j < n ==> (#[trigger] s[j]).prefix != 0) {
            assert(s[0].prefix != 0);
            assert(t[n - 1] == s[n]);
            assert forall|j: int| 0 <= j < n - 1 implies (#[trigger] t[j]).prefix != 0 by {
                assert(t[j] == s[j + 1]);
            }
        }
        if forall|j: int| 0 <= j < s.len() ==> (#[trigger] s[j]).prefix != 0 {
            assert(s[0].prefix != 0);
            assert forall|j: int| 0 <= j < t.len() implies (#[trigger] t[j]).prefix != 0 by {
                assert(t[j] == s[j + 1]);
            }
        }
    }
}

// ---- the picture ------------------------------------------------------------

proof fn ranked_are(s: Seq<InterfaceV>, i: InterfaceV)
    ensures
        report::ranked(s).contains(i) <==> s.contains(i) && looked_after(i),
    decreases s.len(),
{
    if s.len() > 0 {
        let t = s.drop_last();
        ranked_are(t, i);
        let before = report::ranked(t);
        let all = report::ranked(s);
        let x = s.last();
        assert(s[s.len() - 1] == x);
        if t.contains(i) {
            let k = choose|k: int| 0 <= k < t.len() && t[k] == i;
            assert(s[k] == i);
        }
        if s.contains(i) && i != x {
            let k = choose|k: int| 0 <= k < s.len() && s[k] == i;
            assert(t[k] == i);
        }
        if x.managed() {
            report::rank_place_bounds(before, x);
            let n = report::rank_place(before, x);
            assert(all[n] == x);
            if before.contains(i) {
                let k = choose|k: int| 0 <= k < before.len() && before[k] == i;
                if k < n {
                    assert(all[k] == i);
                } else {
                    assert(all[k + 1] == i);
                }
            }
            if all.contains(i) && i != x {
                let k = choose|k: int| 0 <= k < all.len() && all[k] == i;
                if k < n {
                    assert(before[k] == i);
                } else {
                    assert(before[k - 1] == i);
                }
            }
        }
    }
}

/// The interfaces of the picture are those looked after, by metric, those of the same
/// metric by the numbers of their links.
pub proof fn the_picture_ranks_what_is_looked_after(s: Seq<InterfaceV>, i: InterfaceV, a: int, b: int)
    ensures
        report::ranked(s).contains(i) <==> s.contains(i) && looked_after(i),
        0 <= a < b < report::ranked(s).len() ==> {
            let x = report::ranked(s)[a];
            let y = report::ranked(s)[b];
            wanted::cost(x) < wanted::cost(y) || wanted::cost(x) == wanted::cost(y) && x.link.index
                <= y.link.index
        },
{
    ranked_are(s, i);
    report::the_picture_is_in_metric_order(s);
    if 0 <= a < b < report::ranked(s).len() {
        assert(!report::ranks_before(report::ranked(s)[b], report::ranked(s)[a]));
    }
}

/// Each of these that is not absent has its scope in the picture, in their order.
pub proof fn scopes_follow_one_another(s: Seq<InterfaceV>, i: InterfaceV, o: ObservedV)
    ensures
        report::scopes_of(Seq::empty(), o).len() == 0,
        report::scopes_of(s.push(i), o) == if i.level(o) == Level::Absent {
            report::scopes_of(s, o)
        } else {
            report::scopes_of(s, o).push(report::scope_of(i, o))
        },
{
    assert(s.push(i).drop_last() =~= s);
}

/// Each of these but the loopback has its report in the status, in their order.
pub proof fn reports_follow_one_another(
    s: Seq<InterfaceV>,
    i: InterfaceV,
    o: ObservedV,
    now: Instant,
)
    ensures
        report::reports_of(Seq::empty(), o, now).len() == 0,
        report::reports_of(s.push(i), o, now) == if i.link.loopback {
            report::reports_of(s, o, now)
        } else {
            report::reports_of(s, o, now).push(report::report_of(i, o, now))
        },
{
    assert(s.push(i).drop_last() =~= s);
}

/// How far a level is.
pub open spec fn distance(l: Level) -> int {
    match l {
        Level::Absent => 0,
        Level::Link => 1,
        Level::Addressed => 2,
        Level::Routed => 3,
    }
}

/// The machine is as far as the furthest interface that is looked after.
pub proof fn the_machine_is_as_far_as_its_furthest(s: Seq<InterfaceV>, i: InterfaceV, o: ObservedV)
    ensures
        report::machine_level(Seq::empty(), o) == Level::Absent,
        ({
            let before = report::machine_level(s, o);
            report::machine_level(s.push(i), o) == if looked_after(i) && distance(i.level(o))
                > distance(before) {
                i.level(o)
            } else {
                before
            }
        }),
{
    assert(s.push(i).drop_last() =~= s);
}

/// The status and the picture tell the hostname that was set.
pub proof fn the_hostname_is_told(
    s: Seq<InterfaceV>,
    o: ObservedV,
    hostname: Option<Seq<char>>,
    now: Instant,
)
    ensures
        ({
            let name = if hostname is Some {
                hostname->0
            } else {
                Seq::empty()
            };
            &&& report::snapshot_of(s, o, hostname).hostname == name
            &&& report::status_of(s, o, hostname, now).hostname == name
            &&& report::snapshot_of(s, o, hostname).scopes == report::scopes_of(
                report::ranked(s),
                o,
            )
            &&& report::status_of(s, o, hostname, now).interfaces == report::reports_of(s, o, now)
            &&& report::status_of(s, o, hostname, now).level == report::machine_level(s, o)
        }),
{
}

} // verus!
