//! What the daemon keeps to.

use vstd::prelude::*;
use vstd::string::*;
use crate::clock::Instant;
use crate::dhcp4::client::ActionV;
use crate::libnetd::{ReplyV, RequestV, SnapshotV};
use super::daemon;
use super::daemon::{AnswerV, DueV, IdentityV, NetdV, TaskV, Terms};
use super::interface::{EffectV, InterfaceV};
use super::matching;
use super::matching::ProfileV;
use super::model::{Identity, LinkV};

verus! {

/// After the links were taken in there is one interface for each, in their
/// order, with what the kernel said last.
pub proof fn one_interface_for_each_link(
    known: Seq<InterfaceV>,
    links: Seq<LinkV>,
    ids: Seq<(u32, Identity)>,
    profiles: Seq<ProfileV>,
    now: Instant,
)
    ensures
        ({
            let s = daemon::synced(known, links, ids, profiles, now).0;
            &&& s.len() == links.len()
            &&& forall|k: int| 0 <= k < s.len() ==> (#[trigger] s[k]).link == links[k]
            &&& forall|k: int|
                0 <= k < s.len() ==> (#[trigger] s[k]).profile == matching::chosen(
                    profiles,
                    links[k],
                    s[k].path,
                    s[k].driver,
                )
        }),
    decreases links.len(),
{
    if links.len() > 0 {
        one_interface_for_each_link(known, links.drop_last(), ids, profiles, now);
        let before = daemon::synced(known, links.drop_last(), ids, profiles, now).0;
        let s = daemon::synced(known, links, ids, profiles, now).0;
        assert forall|k: int| 0 <= k < s.len() implies (#[trigger] s[k]).link == links[k]
            && s[k].profile == matching::chosen(profiles, links[k], s[k].path, s[k].driver) by {
            if k < before.len() {
                assert(s[k] == before[k]);
                assert(links.drop_last()[k] == links[k]);
            }
        }
    }
}

/// An interface whose profile is the same and which did not lose its carrier
/// keeps its client, its lease and its address, and nothing is sent.
pub proof fn the_same_intent_keeps_the_lease(
    i: InterfaceV,
    link: LinkV,
    id: IdentityV,
    profiles: Seq<ProfileV>,
    now: Instant,
)
    requires
        i.profile == matching::chosen(profiles, link, i.path, i.driver),
        !(i.link.carrier && i.link.up) || (link.carrier && link.up),
    ensures
        daemon::seen(Some(i), link, id, profiles, now) == (
            InterfaceV { link, ..i },
            Seq::<EffectV>::empty(),
        ),
{
}

/// A different intent, or the loss of carrier, starts over: no client, no
/// lease, no address of its own choosing.
pub proof fn a_different_intent_starts_over(
    i: InterfaceV,
    link: LinkV,
    id: IdentityV,
    profiles: Seq<ProfileV>,
    now: Instant,
)
    requires
        i.profile != matching::chosen(profiles, link, i.path, i.driver) || ((i.link.carrier
            && i.link.up) && !(link.carrier && link.up)),
    ensures
        ({
            let j = daemon::seen(Some(i), link, id, profiles, now).0;
            &&& j.dhcp is None
            &&& j.lease is None
            &&& j.link_local is None
            &&& j.ifid == i.ifid
            &&& j.enabled == i.enabled
        }),
{
}

/// A peer without the right is told so, whatever it asked, and nothing happens.
pub proof fn a_refused_request_changes_nothing(n: NetdV, r: RequestV, now: Instant)
    ensures
        n.control(r, false, now) == (
            n,
            Seq::<TaskV>::empty(),
            AnswerV::Reply(ReplyV::Error("access denied"@)),
        ),
{
}

/// To query is not to control: a request for the status or the picture changes
/// nothing.
pub proof fn queries_change_nothing(n: NetdV, r: RequestV, permitted: bool, now: Instant)
    requires
        r is Status || r is Subscribe,
    ensures
        n.control(r, permitted, now).0 == n,
        n.control(r, permitted, now).1.len() == 0,
{
}

/// A renewal touches the one interface it names.
pub proof fn a_renewal_touches_one_interface(n: NetdV, name: Seq<char>, now: Instant, k: int)
    requires
        0 <= k < n.interfaces.len(),
        k != daemon::named(n.interfaces, name),
    ensures
        n.control(RequestV::Renew { interface: name }, true, now).0.interfaces.len()
            == n.interfaces.len(),
        n.control(RequestV::Renew { interface: name }, true, now).0.interfaces[k]
            == n.interfaces[k],
{
    named_bounds(n.interfaces, name);
}

proof fn named_bounds(s: Seq<InterfaceV>, name: Seq<char>)
    ensures
        0 <= daemon::named(s, name) <= s.len(),
    decreases s.len(),
{
    if s.len() > 0 {
        named_bounds(s.drop_first(), name);
    }
}

/// An unchanged picture is sent once: after it was published nothing is due, and
/// nothing is until the picture differs. What was last sent has no part in it.
pub proof fn an_unchanged_picture_is_sent_once(n: NetdV, later: NetdV)
    requires
        later.last_snapshot == n.published().0.last_snapshot,
    ensures
        n.published().0.snapshot() == n.snapshot(),
        n.published().0.published() == (n.published().0, None::<SnapshotV>),
        later.published().1 is None <==> later.snapshot() == n.snapshot(),
        later.published().1 matches Some(s) ==> s == later.snapshot(),
{
}

/// A hostname that was applied is not due again.
pub proof fn a_hostname_is_applied_once(n: NetdV)
    requires
        n.hostname_due() is Some,
    ensures
        (NetdV { hostname_set: n.hostname_due(), ..n }).hostname_due() is None,
{
}

/// The configured hostname wins over any that a lease offers.
pub proof fn the_configured_hostname_wins(n: NetdV, name: Seq<char>)
    requires
        n.hostname == Some(name),
    ensures
        n.hostname_due() matches Some(h) ==> h == name,
{
}

proof fn performing_keeps(i: InterfaceV, actions: Seq<ActionV>)
    ensures
        ({
            let j = i.perform(actions).0;
            &&& j.dhcp == i.dhcp
            &&& j.profile == i.profile
            &&& j.link == i.link
            &&& j.enabled == i.enabled
            &&& j.ifid == i.ifid
        }),
    decreases actions.len(),
{
    if actions.len() > 0 {
        performing_keeps(i, actions.drop_last());
    }
}

/// What was due of a DHCP client is not due again once it is done.
pub proof fn what_was_due_is_done_once(i: InterfaceV, duid: Option<Seq<u8>>, terms: Terms)
    requires
        i.due() is Start ==> daemon::offer_for(terms.offers, i.link.index) is Some,
    ensures
        i.dhcp_step(duid, terms).0.due() == DueV::Nothing,
{
    match i.due() {
        DueV::Start(mac) => {
            let d = match duid {
                Some(d) => d,
                None => daemon::duid_from(terms.stored, mac),
            };
            let o = daemon::offer_for(terms.offers, i.link.index)->Some_0;
            let announces = i.profile matches Some(p) && p.address.send_hostname;
            let idle = daemon::new_client(
                mac,
                super::dhcp::client_id_of(d, i.ifid),
                if announces {
                    terms.hostname
                } else {
                    None
                },
                o.seed ^ (i.link.index as u64),
            );
            let (c, actions) = idle.start(terms.now, o.previous);
            performing_keeps(InterfaceV { dhcp: Some(c), lease: None, ..i }, actions);
        },
        _ => {},
    }
}

/// No client runs on an interface that is not managed, not enabled, not up or
/// without carrier, once what is due has been done.
pub proof fn no_client_without_a_link(i: InterfaceV, duid: Option<Seq<u8>>, terms: Terms)
    requires
        i.profile is Some,
        !i.leases(),
    ensures
        i.dhcp_step(duid, terms).0.dhcp is None,
{
}

/// The machine's DUID, once there is one, stays.
pub proof fn the_duid_stays(i: InterfaceV, duid: Seq<u8>, terms: Terms)
    ensures
        i.dhcp_step(Some(duid), terms).1 == Some(duid),
{
}

/// The wait is never longer than the time to the nearest deadline.
pub proof fn no_deadline_is_slept_through(s: Seq<InterfaceV>, now: Instant, k: int)
    requires
        0 <= k < s.len(),
        s[k].dhcp matches Some(c) && c.next_deadline() is Some,
    ensures
        ({
            let t = s[k].dhcp->Some_0.next_deadline()->Some_0;
            let wait = daemon::wait_for(daemon::deadline_of(s), now);
            0 <= wait && (wait == 0 || now.nanos + wait * 1_000_000 <= t.nanos)
        }),
    decreases s.len(),
{
    nearest(s, k);
}

proof fn nearest(s: Seq<InterfaceV>, k: int)
    requires
        0 <= k < s.len(),
        s[k].dhcp matches Some(c) && c.next_deadline() is Some,
    ensures
        daemon::deadline_of(s) matches Some(d) && d.nanos
            <= s[k].dhcp->Some_0.next_deadline()->Some_0.nanos,
    decreases s.len(),
{
    if k < s.len() - 1 {
        nearest(s.drop_last(), k);
    }
}

} // verus!
