//! What the daemon does at each turn.

use vstd::prelude::*;
use vstd::string::*;
use crate::clock;
use crate::clock::Instant;
use crate::dhcp4::client::ActionV;
use crate::dhcp4::conduct;
use crate::dhcp4::packet::MessageV;
use crate::libnetd::{ReplyV, RequestV};
use super::daemon;
use super::daemon::{AnswerV, DueV, IdentityV, NetdV, Offer, Terms};
use super::dhcp;
use super::interface::{EffectV, InterfaceV};
use super::matching;
use super::matching::ProfileV;
use super::model;
use super::model::{Identity, LinkV, ObservedV};
use super::reconcile;
use super::reconcile::Op;

verus! {

// ---- finding ----------------------------------------------------------------

/// An interface is found by the number of its link: the first that has it.
pub proof fn an_interface_is_found_by_its_number(s: Seq<InterfaceV>, index: u32, i: int)
    ensures
        0 <= i < s.len() && s[i].link.index == index && (forall|j: int|
            0 <= j < i ==> (#[trigger] s[j]).link.index != index) ==> daemon::find(s, index)
            == Some(s[i]) && daemon::place_with(s, index) == i,
        (forall|j: int| 0 <= j < s.len() ==> (#[trigger] s[j]).link.index != index)
            ==> daemon::find(s, index) is None && daemon::place_with(s, index) == s.len(),
    decreases s.len(),
{
    if s.len() > 0 {
        let t = s.drop_first();
        an_interface_is_found_by_its_number(t, index, i - 1);
        if 0 < i < s.len() && s[i].link.index == index && (forall|j: int|
            0 <= j < i ==> (#[trigger] s[j]).link.index != index) {
            assert(s[0].link.index != index);
            assert(t[i - 1] == s[i]);
            assert forall|j: int| 0 <= j < i - 1 implies (#[trigger] t[j]).link.index != index by {
                assert(t[j] == s[j + 1]);
            }
        }
        if forall|j: int| 0 <= j < s.len() ==> (#[trigger] s[j]).link.index != index {
            assert(s[0].link.index != index);
            assert forall|j: int| 0 <= j < t.len() implies (#[trigger] t[j]).link.index != index by {
                assert(t[j] == s[j + 1]);
            }
        }
    }
}

/// An interface is found by its link's name or by its own identifier: the first that
/// has either.
pub proof fn an_interface_is_found_by_its_name(s: Seq<InterfaceV>, name: Seq<char>, i: int)
    requires
        0 <= i <= s.len(),
        i < s.len() ==> s[i].link.name == name || s[i].ifid == name,
        forall|j: int| 0 <= j < i ==> (#[trigger] s[j]).link.name != name && s[j].ifid != name,
    ensures
        daemon::named(s, name) == i,
    decreases s.len(),
{
    if i > 0 {
        let t = s.drop_first();
        assert(s[0].link.name != name && s[0].ifid != name);
        assert forall|j: int| 0 <= j < i - 1 implies (#[trigger] t[j]).link.name != name
            && t[j].ifid != name by {
            assert(t[j] == s[j + 1]);
        }
        an_interface_is_found_by_its_name(t, name, i - 1);
    }
}

proof fn identity_found(s: Seq<(u32, Identity)>, index: u32, i: int)
    requires
        0 <= i < s.len(),
        s[i].0 == index,
        forall|j: int| 0 <= j < i ==> (#[trigger] s[j]).0 != index,
    ensures
        daemon::identity_for(s, index) == (s[i].1.path@, s[i].1.driver@),
    decreases s.len(),
{
    if i > 0 {
        let t = s.drop_first();
        assert(s[0].0 != index);
        assert forall|j: int| 0 <= j < i - 1 implies (#[trigger] t[j]).0 != index by {
            assert(t[j] == s[j + 1]);
        }
        identity_found(t, index, i - 1);
    }
}

// ---- links ------------------------------------------------------------------

/// A link that was not there before becomes an interface that is enabled and has
/// nothing yet, named after where it sits, its hardware address and its name.
pub proof fn a_new_link_starts_with_nothing(
    link: LinkV,
    id: IdentityV,
    profiles: Seq<ProfileV>,
    now: Instant,
)
    ensures
        ({
            let (i, effects) = daemon::seen(None, link, id, profiles, now);
            &&& i.link == link && i.path == id.0 && i.driver == id.1 && i.enabled
            &&& i.dhcp is None && i.lease is None && i.link_local is None
            &&& i.ifid == model::interface_id_of(id.0, link.mac, link.name)
            &&& i.profile == matching::chosen(profiles, link, id.0, id.1)
            &&& effects.len() == 0
        }),
{
    assert(Seq::<EffectV>::empty() + Seq::<EffectV>::empty() =~= Seq::<EffectV>::empty());
}

/// What becomes of a known interface: it takes the link as it is now and the profile
/// that claims it, and keeps who it is. Its client stays exactly where the profile
/// is the same and the carrier was not lost; else it lets go first.
pub proof fn a_known_link_keeps_who_it_is(
    i: InterfaceV,
    link: LinkV,
    id: IdentityV,
    profiles: Seq<ProfileV>,
    now: Instant,
)
    ensures
        ({
            let (j, effects) = daemon::seen(Some(i), link, id, profiles, now);
            let lost = i.link.carrier && i.link.up && (!link.carrier || !link.up);
            let same = i.profile == matching::chosen(profiles, link, i.path, i.driver);
            &&& j.link == link && j.path == i.path && j.driver == i.driver && j.ifid == i.ifid
            &&& j.enabled == i.enabled
            &&& j.profile == matching::chosen(profiles, link, i.path, i.driver)
            &&& if same && !lost {
                j.dhcp == i.dhcp && j.lease == i.lease && j.link_local == i.link_local
                    && effects.len() == 0
            } else {
                &&& j.dhcp is None && j.lease is None && j.link_local is None
                &&& effects == i.stop_dhcp(now).1
            }
        }),
{
    let lost = i.link.carrier && i.link.up && (!link.carrier || !link.up);
    let same = i.profile == matching::chosen(profiles, link, i.path, i.driver);
    let e = i.stop_dhcp(now).1;
    let none = Seq::<EffectV>::empty();
    assert(e + none =~= e);
    assert(none + e =~= e);
    assert((InterfaceV { link, ..i }).stop_dhcp(now).1 == e);
}

/// The interfaces are those of the links, each as it was seen, in their order.
pub proof fn each_link_is_seen(
    known: Seq<InterfaceV>,
    links: Seq<LinkV>,
    ids: Seq<(u32, Identity)>,
    profiles: Seq<ProfileV>,
    now: Instant,
    k: int,
)
    requires
        0 <= k < links.len(),
    ensures
        ({
            let s = daemon::synced(known, links, ids, profiles, now).0;
            &&& s.len() == links.len()
            &&& s[k] == daemon::seen(
                daemon::find(known, links[k].index),
                links[k],
                daemon::identity_for(ids, links[k].index),
                profiles,
                now,
            ).0
        }),
    decreases links.len(),
{
    let t = links.drop_last();
    super::laws::one_interface_for_each_link(known, t, ids, profiles, now);
    if k < links.len() - 1 {
        each_link_is_seen(known, t, ids, profiles, now, k);
        assert(t[k] == links[k]);
    }
}

/// Of a link whose number no interface has, more has to be learnt.
pub proof fn strangers_are_links_without_an_interface(
    links: Seq<LinkV>,
    known: Seq<InterfaceV>,
    n: u32,
)
    ensures
        daemon::strangers(links, known).contains(n) <==> (exists|i: int|
            0 <= i < links.len() && (#[trigger] links[i]).index == n) && (forall|j: int|
            0 <= j < known.len() ==> (#[trigger] known[j]).link.index != n),
    decreases links.len(),
{
    if links.len() > 0 {
        let t = links.drop_last();
        strangers_are_links_without_an_interface(t, known, n);
        let before = daemon::strangers(t, known);
        let all = daemon::strangers(links, known);
        let last = links.last().index;
        assert(links[links.len() - 1] == links.last());
        found_or_not(known, last);
        if exists|i: int| 0 <= i < t.len() && (#[trigger] t[i]).index == n {
            let i = choose|i: int| 0 <= i < t.len() && (#[trigger] t[i]).index == n;
            assert(links[i].index == n);
        }
        if (exists|i: int| 0 <= i < links.len() && (#[trigger] links[i]).index == n) && n != last {
            let i = choose|i: int| 0 <= i < links.len() && (#[trigger] links[i]).index == n;
            assert(t[i].index == n);
        }
        if daemon::find(known, last) is None {
            assert(all[before.len() as int] == last);
            if before.contains(n) {
                let i = choose|i: int| 0 <= i < before.len() && before[i] == n;
                assert(all[i] == n);
            }
            if all.contains(n) && n != last {
                let i = choose|i: int| 0 <= i < all.len() && all[i] == n;
                assert(before[i] == n);
            }
        }
    }
}

proof fn found_or_not(s: Seq<InterfaceV>, index: u32)
    ensures
        daemon::find(s, index) is None <==> forall|j: int|
            0 <= j < s.len() ==> (#[trigger] s[j]).link.index != index,
    decreases s.len(),
{
    if s.len() > 0 {
        let t = s.drop_first();
        found_or_not(t, index);
        if daemon::find(s, index) is None {
            assert forall|j: int| 0 <= j < s.len() implies (#[trigger] s[j]).link.index != index by {
                if j > 0 {
                    assert(t[j - 1] == s[j]);
                }
            }
        }
        if forall|j: int| 0 <= j < s.len() ==> (#[trigger] s[j]).link.index != index {
            assert(s[0].link.index != index);
            assert forall|j: int| 0 <= j < t.len() implies (#[trigger] t[j]).link.index != index by {
                assert(t[j] == s[j + 1]);
            }
        }
    }
}

/// Switching an interface touches that one alone, and nothing of it but whether it is
/// enabled.
pub proof fn switching_touches_one(s: Seq<InterfaceV>, index: u32, enabled: bool, k: int)
    requires
        0 <= k < s.len(),
    ensures
        daemon::switched(s, index, enabled).len() == s.len(),
        daemon::switched(s, index, enabled)[k] == if s[k].link.index == index {
            InterfaceV { enabled, ..s[k] }
        } else {
            s[k]
        },
{
}

// ---- clients ----------------------------------------------------------------

/// Whether an interface should have a client: it is looked after, enabled, its
/// profile asks for DHCP, and its link is up and has carrier.
pub open spec fn should_lease(i: InterfaceV) -> bool {
    i.profile is Some && i.profile->0.managed && !i.link.loopback && i.enabled
        && i.profile->0.address.dhcp4 && i.link.up && i.link.carrier
}

/// A client is started where there should be one and is none, and the link has a
/// hardware address; one is stopped where there is one and should not be, as long as
/// the interface has a profile; else nothing is due.
pub proof fn a_client_is_due_where_it_should_be(i: InterfaceV)
    ensures
        match i.due() {
            DueV::Start(mac) => should_lease(i) && i.dhcp is None && i.link.mac == Some(mac),
            DueV::Stop => i.profile is Some && i.dhcp is Some && !should_lease(i),
            DueV::Nothing => {
                ||| i.profile is None
                ||| i.dhcp is Some && should_lease(i)
                ||| i.dhcp is None && !should_lease(i)
                ||| i.dhcp is None && i.link.mac is None
            },
        },
{
}

/// The links that want a client started are those of the interfaces for which one is
/// due.
pub proof fn starters_are_due(s: Seq<InterfaceV>, n: u32)
    ensures
        daemon::starters(s).contains(n) <==> exists|i: int|
            0 <= i < s.len() && (#[trigger] s[i]).link.index == n && s[i].due() is Start,
    decreases s.len(),
{
    if s.len() > 0 {
        let t = s.drop_last();
        starters_are_due(t, n);
        let before = daemon::starters(t);
        let all = daemon::starters(s);
        assert(s[s.len() - 1] == s.last());
        if exists|i: int| 0 <= i < t.len() && (#[trigger] t[i]).link.index == n && t[i].due() is Start {
            let i = choose|i: int|
                0 <= i < t.len() && (#[trigger] t[i]).link.index == n && t[i].due() is Start;
            assert(s[i] == t[i]);
        }
        if exists|i: int| 0 <= i < s.len() && (#[trigger] s[i]).link.index == n && s[i].due() is Start {
            let i = choose|i: int|
                0 <= i < s.len() && (#[trigger] s[i]).link.index == n && s[i].due() is Start;
            if i < t.len() {
                assert(t[i] == s[i]);
            }
        }
        if s.last().due() is Start {
            assert(all[before.len() as int] == s.last().link.index);
            if before.contains(n) {
                let i = choose|i: int| 0 <= i < before.len() && before[i] == n;
                assert(all[i] == n);
            }
            if all.contains(n) && n != s.last().link.index {
                let i = choose|i: int| 0 <= i < all.len() && all[i] == n;
                assert(before[i] == n);
            }
        }
    }
}

/// A DUID on record is used where it has at least four bytes; else one is made of the
/// hardware address: a link-layer one, of Ethernet.
pub proof fn the_duid_on_record_is_used(stored: Option<Seq<u8>>, mac: Seq<u8>)
    ensures
        daemon::duid_from(stored, mac) == if stored is Some && stored->0.len() >= 4 {
            stored->0
        } else {
            seq![0u8, 3, 0, 1] + mac
        },
{
}

proof fn one_action(i: InterfaceV, actions: Seq<ActionV>)
    requires
        actions.len() == 1,
    ensures
        i.perform(actions) == (i.act(actions[0]).0, i.act(actions[0]).1, i.act(actions[0]).2),
{
    assert(actions.drop_last() =~= Seq::<ActionV>::empty());
    let none = Seq::<EffectV>::empty();
    assert(i.perform(actions.drop_last()) == (i, none, false));
    assert(none + i.act(actions[0]).1 =~= i.act(actions[0]).1);
}

/// A client that is started speaks from the link's hardware address under an
/// identifier made of the machine's and the interface's, tells the hostname where
/// the profile says so, asks for the address that the interface had, and sends its
/// first message.
pub proof fn a_started_client_asks_at_once(
    i: InterfaceV,
    mac: Seq<u8>,
    duid: Seq<u8>,
    offer: Offer,
    terms: Terms,
)
    requires
        terms.now.nanos <= clock::HORIZON,
    ensures
        ({
            let (j, effects) = i.start_dhcp(mac, duid, offer, terms);
            &&& j == InterfaceV { dhcp: j.dhcp, lease: None, ..i }
            &&& j.dhcp matches Some(c) && {
                &&& c.chaddr == mac && c.client_id == dhcp::client_id_of(duid, i.ifid)
                &&& c.hostname == if i.profile is Some && i.profile->0.address.send_hostname {
                    terms.hostname
                } else {
                    None
                }
                &&& c.started == terms.now && c.lease is None
                &&& effects.len() == 1
                &&& effects[0] matches EffectV::Send { message, destination } && match offer.previous {
                    Some(a) => c.state is Rebooting && conduct::requests(
                        c,
                        terms.now,
                        ActionV::Send { message, destination },
                        a,
                        None,
                    ),
                    None => c.state is Selecting && conduct::discovers(
                        c,
                        terms.now,
                        ActionV::Send { message, destination },
                    ) && c.reboot_address is None,
                }
            }
        }),
{
    let announces = i.profile matches Some(p) && p.address.send_hostname;
    let idle = daemon::new_client(
        mac,
        dhcp::client_id_of(duid, i.ifid),
        if announces {
            terms.hostname
        } else {
            None
        },
        offer.seed ^ (i.link.index as u64),
    );
    conduct::a_client_starts(idle, terms.now, offer.previous);
    let (c, actions) = idle.start(terms.now, offer.previous);
    one_action(InterfaceV { dhcp: Some(c), lease: None, ..i }, actions);
}

/// What is due is done: a client is stopped, or started with the machine's DUID and
/// with what the link's offer says; the DUID is made once.
pub proof fn what_is_due_is_done(i: InterfaceV, duid: Option<Seq<u8>>, terms: Terms)
    ensures
        ({
            let (j, d, effects) = i.dhcp_step(duid, terms);
            match i.due() {
                DueV::Nothing => j == i && d == duid && effects.len() == 0,
                DueV::Stop => (j, effects) == i.stop_dhcp(terms.now) && d == duid,
                DueV::Start(mac) => {
                    let id = if duid is Some {
                        duid->0
                    } else {
                        daemon::duid_from(terms.stored, mac)
                    };
                    &&& d == Some(id)
                    &&& match daemon::offer_for(terms.offers, i.link.index) {
                        Some(o) => (j, effects) == i.start_dhcp(mac, id, o, terms),
                        None => j == i && effects.len() == 0,
                    }
                },
            }
        }),
{
}

/// An offer is found by the number of its link: the first that has it.
pub proof fn an_offer_is_found_by_its_number(s: Seq<Offer>, i: int)
    requires
        0 <= i < s.len(),
        forall|j: int| 0 <= j < i ==> (#[trigger] s[j]).index != s[i].index,
    ensures
        daemon::offer_for(s, s[i].index) == Some(s[i]),
    decreases s.len(),
{
    if i > 0 {
        let t = s.drop_first();
        assert(s[0].index != s[i].index);
        assert forall|j: int| 0 <= j < i - 1 implies (#[trigger] t[j]).index != t[i - 1].index by {
            assert(t[j] == s[j + 1]);
        }
        an_offer_is_found_by_its_number(t, i - 1);
    }
}

proof fn performing_leaves_the_client(i: InterfaceV, actions: Seq<ActionV>)
    ensures
        i.perform(actions).0.dhcp == i.dhcp,
        i.perform(actions).0.link == i.link,
        i.perform(actions).0.profile == i.profile,
        i.perform(actions).0.enabled == i.enabled,
    decreases actions.len(),
{
    if actions.len() > 0 {
        performing_leaves_the_client(i, actions.drop_last());
    }
}

/// Time, messages and a command reach the client of an interface, and what it answers
/// is performed; without a client nothing happens.
pub proof fn the_client_is_told(i: InterfaceV, now: Instant, m: MessageV)
    ensures
        match i.dhcp {
            Some(c) => {
                &&& i.tick(now).0.dhcp == Some(c.tick(now).0)
                &&& i.tick(now) == (InterfaceV { dhcp: Some(c.tick(now).0), ..i }).perform(
                    c.tick(now).1,
                )
                &&& i.receive(now, m).0.dhcp == Some(c.receive(now, m).0)
                &&& i.receive(now, m) == (InterfaceV {
                    dhcp: Some(c.receive(now, m).0),
                    ..i
                }).perform(c.receive(now, m).1)
                &&& i.renew(now).0.dhcp == Some(c.renew_now(now).0)
                &&& i.renew(now) == (InterfaceV { dhcp: Some(c.renew_now(now).0), ..i }).perform(
                    c.renew_now(now).1,
                )
            },
            None => {
                &&& i.tick(now) == (i, Seq::<EffectV>::empty(), false)
                &&& i.receive(now, m) == (i, Seq::<EffectV>::empty(), false)
                &&& i.renew(now) == (i, Seq::<EffectV>::empty(), false)
            },
        },
{
    if let Some(c) = i.dhcp {
        performing_leaves_the_client(
            InterfaceV { dhcp: Some(c.tick(now).0), ..i },
            c.tick(now).1,
        );
        performing_leaves_the_client(
            InterfaceV { dhcp: Some(c.receive(now, m).0), ..i },
            c.receive(now, m).1,
        );
        performing_leaves_the_client(
            InterfaceV { dhcp: Some(c.renew_now(now).0), ..i },
            c.renew_now(now).1,
        );
    }
}

/// Every interface is told the time, each in its place, and a change of any is one.
pub proof fn every_interface_is_told_the_time(s: Seq<InterfaceV>, now: Instant, k: int)
    requires
        0 <= k < s.len(),
    ensures
        daemon::ticked(s, now).0.len() == s.len(),
        daemon::ticked(s, now).0[k] == s[k].tick(now).0,
        s[k].tick(now).2 ==> daemon::ticked(s, now).2,
    decreases s.len(),
{
    let t = s.drop_last();
    if t.len() > 0 {
        every_interface_is_told_the_time(t, now, 0);
    } else {
        assert(daemon::ticked(t, now).0.len() == 0);
    }
    if k < t.len() {
        every_interface_is_told_the_time(t, now, k);
        assert(t[k] == s[k]);
    }
}

// ---- time -------------------------------------------------------------------

/// The next deadline is that of some client, and none of any client comes before it.
pub proof fn the_next_deadline_is_the_soonest(s: Seq<InterfaceV>)
    ensures
        match daemon::deadline_of(s) {
            Some(t) => {
                &&& exists|k: int|
                    0 <= k < s.len() && (#[trigger] s[k]).dhcp is Some
                        && s[k].dhcp->0.next_deadline() == Some(t)
                &&& forall|k: int|
                    0 <= k < s.len() && (#[trigger] s[k]).dhcp is Some
                        && s[k].dhcp->0.next_deadline() is Some ==> t.nanos
                        <= s[k].dhcp->0.next_deadline()->0.nanos
            },
            None => forall|k: int|
                0 <= k < s.len() && (#[trigger] s[k]).dhcp is Some
                    ==> s[k].dhcp->0.next_deadline() is None,
        },
    decreases s.len(),
{
    if s.len() > 0 {
        let t = s.drop_last();
        the_next_deadline_is_the_soonest(t);
        let n = s.len() - 1;
        assert(s[n] == s.last());
        if let Some(x) = daemon::deadline_of(t) {
            let k = choose|k: int|
                0 <= k < t.len() && (#[trigger] t[k]).dhcp is Some
                    && t[k].dhcp->0.next_deadline() == Some(x);
            assert(s[k] == t[k]);
        }
        assert forall|k: int| 0 <= k < n implies #[trigger] s[k] == t[k] by {}
    }
}

/// The daemon sleeps until the deadline, in whole milliseconds, as long as it can be
/// told to; not at all once it is over, and until woken where there is none.
pub proof fn it_sleeps_until_the_deadline(deadline: Option<Instant>, now: Instant)
    ensures
        ({
            let n = daemon::wait_for(deadline, now);
            match deadline {
                None => n == -1,
                Some(t) => if t.nanos <= now.nanos {
                    n == 0
                } else if (t.nanos - now.nanos) / 1_000_000 >= 0x7fff_ffff {
                    n == 0x7fff_ffff
                } else {
                    n * 1_000_000 <= t.nanos - now.nanos < (n + 1) * 1_000_000
                },
            }
        }),
{
}

// ---- plans ------------------------------------------------------------------

/// There is a plan for a link exactly where something is wanted of its interface and
/// a step is due.
pub proof fn there_is_a_plan_where_a_step_is_due(
    s: Seq<InterfaceV>,
    o: ObservedV,
    n: u32,
    p: Seq<Op>,
)
    ensures
        daemon::plans_for(s, o).contains((n, p)) <==> exists|k: int|
            0 <= k < s.len() && (#[trigger] s[k]).link.index == n && s[k].desired() is Some
                && reconcile::planned(o, s[k].desired()->0) == p && p.len() > 0,
    decreases s.len(),
{
    if s.len() > 0 {
        let t = s.drop_last();
        there_is_a_plan_where_a_step_is_due(t, o, n, p);
        let before = daemon::plans_for(t, o);
        let all = daemon::plans_for(s, o);
        let i = s.last();
        assert(s[s.len() - 1] == i);
        if exists|k: int|
            0 <= k < t.len() && (#[trigger] t[k]).link.index == n && t[k].desired() is Some
                && reconcile::planned(o, t[k].desired()->0) == p && p.len() > 0 {
            let k = choose|k: int|
                0 <= k < t.len() && (#[trigger] t[k]).link.index == n && t[k].desired() is Some
                    && reconcile::planned(o, t[k].desired()->0) == p && p.len() > 0;
            assert(s[k] == t[k]);
        }
        if exists|k: int|
            0 <= k < s.len() && (#[trigger] s[k]).link.index == n && s[k].desired() is Some
                && reconcile::planned(o, s[k].desired()->0) == p && p.len() > 0 {
            let k = choose|k: int|
                0 <= k < s.len() && (#[trigger] s[k]).link.index == n && s[k].desired() is Some
                    && reconcile::planned(o, s[k].desired()->0) == p && p.len() > 0;
            if k < t.len() {
                assert(t[k] == s[k]);
            }
        }
        if i.desired() is Some && reconcile::planned(o, i.desired()->0).len() > 0 {
            let x = (i.link.index, reconcile::planned(o, i.desired()->0));
            assert(all[before.len() as int] == x);
            if before.contains((n, p)) {
                let k = choose|k: int| 0 <= k < before.len() && before[k] == (n, p);
                assert(all[k] == (n, p));
            }
            if all.contains((n, p)) && (n, p) != x {
                let k = choose|k: int| 0 <= k < all.len() && all[k] == (n, p);
                assert(before[k] == (n, p));
            }
        }
    }
}

// ---- the hostname -----------------------------------------------------------

/// Whether an interface's lease gives a hostname that its profile accepts.
pub open spec fn gives_name(i: InterfaceV) -> bool {
    i.profile is Some && i.profile->0.address.accept_hostname && i.lease is Some
        && i.lease->0.hostname is Some
}

/// The hostname offered is that of the first lease to give one that its profile
/// accepts.
pub proof fn the_first_accepted_name_is_offered(s: Seq<InterfaceV>, i: int)
    ensures
        0 <= i < s.len() && gives_name(s[i]) && (forall|j: int|
            0 <= j < i ==> !gives_name(#[trigger] s[j])) ==> daemon::offered_name(s)
            == s[i].lease->0.hostname,
        (forall|j: int| 0 <= j < s.len() ==> !gives_name(#[trigger] s[j]))
            ==> daemon::offered_name(s) is None,
    decreases s.len(),
{
    if s.len() > 0 {
        let t = s.drop_first();
        the_first_accepted_name_is_offered(t, i - 1);
        if 0 < i < s.len() && gives_name(s[i]) && (forall|j: int|
            0 <= j < i ==> !gives_name(#[trigger] s[j])) {
            assert(!gives_name(s[0]));
            assert(t[i - 1] == s[i]);
            assert forall|j: int| 0 <= j < i - 1 implies !gives_name(#[trigger] t[j]) by {
                assert(t[j] == s[j + 1]);
            }
        }
        if forall|j: int| 0 <= j < s.len() ==> !gives_name(#[trigger] s[j]) {
            assert(!gives_name(s[0]));
            assert forall|j: int| 0 <= j < t.len() implies !gives_name(#[trigger] t[j]) by {
                assert(t[j] == s[j + 1]);
            }
        }
    }
}

/// A hostname is due where one is configured or, failing that, offered, and it is not
/// the one that was set.
pub proof fn a_hostname_is_due_where_it_differs(n: NetdV)
    ensures
        ({
            let name = if n.hostname is Some {
                n.hostname
            } else {
                daemon::offered_name(n.interfaces)
            };
            n.hostname_due() == if name is Some && name != n.hostname_set {
                name
            } else {
                None
            }
        }),
{
}

// ---- control ----------------------------------------------------------------

/// A peer with the right gets what it asks for: the status, the picture that was last
/// published and each one after it, convergence, or a renewal of the interface it
/// names where that has a client.
pub proof fn a_permitted_request_is_answered(n: NetdV, r: RequestV, now: Instant)
    ensures
        ({
            let (m, tasks, answer) = n.control(r, true, now);
            match r {
                RequestV::Status => m == n && tasks.len() == 0 && answer == AnswerV::Reply(
                    ReplyV::Status(n.status(now)),
                ),
                RequestV::Subscribe => m == n && tasks.len() == 0 && answer == AnswerV::Stream(
                    if n.last_snapshot is Some {
                        n.last_snapshot->0
                    } else {
                        n.snapshot()
                    },
                ),
                RequestV::Reconcile => m == n && tasks.len() == 0 && answer == AnswerV::Converge,
                RequestV::Renew { interface } => {
                    let k = daemon::named(n.interfaces, interface);
                    if k >= n.interfaces.len() {
                        m == n && tasks.len() == 0 && answer == AnswerV::Reply(
                            ReplyV::Error("no interface "@ + interface),
                        )
                    } else if n.interfaces[k].dhcp is None {
                        m == n && tasks.len() == 0 && answer == AnswerV::Reply(
                            ReplyV::Error(interface + " is not using DHCP"@),
                        )
                    } else {
                        &&& answer == AnswerV::Reply(ReplyV::Done)
                        &&& m == NetdV {
                            interfaces: n.interfaces.update(k, n.interfaces[k].renew(now).0),
                            ..n
                        }
                        &&& tasks == daemon::tagged(
                            n.interfaces[k].link.index,
                            n.interfaces[k].renew(now).1,
                        )
                    }
                },
            }
        }),
{
}

/// Every effect is tagged with the number of its link.
pub proof fn effects_are_tagged(index: u32, s: Seq<EffectV>, k: int)
    requires
        0 <= k < s.len(),
    ensures
        daemon::tagged(index, s).len() == s.len(),
        daemon::tagged(index, s)[k].index == index,
        daemon::tagged(index, s)[k].effect == s[k],
{
}

/// The picture is published where it differs from the one published last, and at
/// first.
pub proof fn a_new_picture_is_published(n: NetdV)
    ensures
        n.published().1 is Some <==> n.last_snapshot != Some(n.snapshot()),
        n.published().1 matches Some(s) ==> s == n.snapshot(),
        n.published().0 == (NetdV { last_snapshot: Some(n.snapshot()), ..n }),
{
}

} // verus!
