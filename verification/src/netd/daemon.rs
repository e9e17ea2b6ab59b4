//! The daemon's decisions.
//!
//! On any input the loop around this module re-derives what the network should
//! be and reconciles the kernel to it; nothing is done imperatively in a
//! handler. What needs the outside world — reading what a link is, opening a
//! packet socket, carrying out a plan — is done by the loop, which hands the
//! outcome back.

use vstd::prelude::*;
use vstd::string::*;
use crate::addr::Ipv4Addr;
use crate::clock;
use crate::clock::Instant;
use crate::dhcp4::client;
use crate::dhcp4::client::{Action, Client, ClientV, Config};
use crate::dhcp4::packet::{Message, MessageV};
use crate::libnetd::{Reply, ReplyV, Request, RequestV, Snapshot, SnapshotV, Status, StatusV};
use crate::text;
use super::config;
use super::dhcp;
use super::interface;
use super::interface::{Effect, EffectV, Interface, InterfaceV};
use super::matching;
use super::matching::{AddressConfig, DnsConfig, Match, Profile, ProfileV, StaticAddress};
use super::model;
use super::model::{Identity, Link, LinkV, Observed, ObservedV};
use super::reconcile;
use super::reconcile::Op;
use super::report;

verus! {

/// Something to be done about an interface.
#[derive(Debug, PartialEq, Eq)]
pub struct Task {
    /// The index of its link.
    pub index: u32,
    pub effect: Effect,
}

/// The same as values.
#[verifier::ext_equal]
pub struct TaskV {
    pub index: u32,
    pub effect: EffectV,
}

impl View for Task {
    type V = TaskV;

    open spec fn view(&self) -> TaskV {
        TaskV { index: self.index, effect: self.effect@ }
    }
}

/// Tasks as values.
pub open spec fn tasks_view(s: Seq<Task>) -> Seq<TaskV> {
    s.map_values(|t: Task| t@)
}

/// Effects on one interface.
pub open spec fn tagged(index: u32, s: Seq<EffectV>) -> Seq<TaskV> {
    s.map_values(|e: EffectV| TaskV { index, effect: e })
}

fn tag(index: u32, effects: Vec<Effect>, out: &mut Vec<Task>)
    ensures
        tasks_view(final(out)@) == tasks_view(old(out)@) + tagged(
            index,
            interface::effects_view(effects@),
        ),
{
    let ghost given = effects@;
    let ghost all = interface::effects_view(effects@);
    let ghost before = tasks_view(out@);
    let mut rest: Vec<Effect> = effects;
    let ghost mut done: int = 0;
    assert(rest@ =~= given.skip(0));
    assert(before =~= before + tagged(index, all.take(0)));
    while rest.len() > 0
        invariant
            0 <= done <= given.len(),
            all == interface::effects_view(given),
            rest@ == given.skip(done),
            tasks_view(out@) == before + tagged(index, all.take(done)),
        decreases rest@.len(),
    {
        let e: Effect = rest.remove(0);
        let ghost so_far = tasks_view(out@);
        let ghost t = TaskV { index, effect: e@ };
        proof {
            assert(e == given[done]);
            assert(rest@ =~= given.skip(done + 1));
            assert(tagged(index, all.take(done + 1)) =~= tagged(index, all.take(done)).push(t));
            done = done + 1;
        }
        out.push(Task { index, effect: e });
        assert(tasks_view(out@) =~= so_far.push(t));
        assert(tasks_view(out@) =~= before + tagged(index, all.take(done)));
    }
    assert(all.take(done) =~= all);
}

// ---- profiles --------------------------------------------------------------

fn same_match(a: &Match, b: &Match) -> (r: bool)
    ensures
        r == (a@ == b@),
{
    text::same_opt(&a.name, &b.name) && text::same_opt(&a.mac, &b.mac) && text::same_opt(
        &a.path,
        &b.path,
    ) && text::same_opt(&a.driver, &b.driver) && text::same_opt(&a.kind, &b.kind)
}

fn same_statics(a: &Vec<StaticAddress>, b: &Vec<StaticAddress>) -> (r: bool)
    ensures
        r == (a@ == b@),
{
    if a.len() != b.len() {
        return false;
    }
    let mut i: usize = 0;
    while i < a.len()
        invariant
            i <= a@.len(),
            a@.len() == b@.len(),
            forall|k: int| 0 <= k < i ==> a@[k] == b@[k],
        decreases a@.len() - i,
    {
        if a[i] != b[i] {
            return false;
        }
        i = i + 1;
    }
    assert(a@ =~= b@);
    true
}

fn same_servers(a: &Vec<Ipv4Addr>, b: &Vec<Ipv4Addr>) -> (r: bool)
    ensures
        r == (a@ == b@),
{
    if a.len() != b.len() {
        return false;
    }
    let mut i: usize = 0;
    while i < a.len()
        invariant
            i <= a@.len(),
            a@.len() == b@.len(),
            forall|k: int| 0 <= k < i ==> a@[k] == b@[k],
        decreases a@.len() - i,
    {
        if a[i] != b[i] {
            return false;
        }
        i = i + 1;
    }
    assert(a@ =~= b@);
    true
}

fn same_address(a: &AddressConfig, b: &AddressConfig) -> (r: bool)
    ensures
        r == (a@ == b@),
{
    a.dhcp4 == b.dhcp4 && same_statics(&a.statics, &b.statics) && a.gateway == b.gateway
        && a.link_local == b.link_local && a.on_lease_expiry == b.on_lease_expiry && a.send_hostname
        == b.send_hostname && a.accept_hostname == b.accept_hostname && a.route_metric
        == b.route_metric && a.mtu == b.mtu
}

fn same_dns(a: &DnsConfig, b: &DnsConfig) -> (r: bool)
    ensures
        r == (a@ == b@),
{
    same_servers(&a.servers, &b.servers) && text::same_list(&a.search, &b.search)
        && a.use_from_dhcp == b.use_from_dhcp && a.default_route == b.default_route && a.exclusive
        == b.exclusive
}

fn same_profile(a: &Profile, b: &Profile) -> (r: bool)
    ensures
        r == (a@ == b@),
{
    text::same(a.name.as_str(), b.name.as_str()) && a.priority == b.priority && a.managed
        == b.managed && same_match(&a.matches, &b.matches) && same_address(&a.address, &b.address)
        && same_dns(&a.dns, &b.dns)
}

/// A profile behind a reference, as values.
pub open spec fn profile_at(p: Option<&Profile>) -> Option<ProfileV> {
    match p {
        Some(p) => Some(p@),
        None => None,
    }
}

fn same_choice(a: Option<&Profile>, b: &Option<Profile>) -> (r: bool)
    ensures
        r == (profile_at(a) == interface::opt_profile(*b)),
{
    match (a, b) {
        (None, None) => true,
        (Some(a), Some(b)) => same_profile(a, b),
        _ => false,
    }
}

// ---- links -----------------------------------------------------------------

/// The first interface with this index.
pub open spec fn find(s: Seq<InterfaceV>, index: u32) -> Option<InterfaceV>
    decreases s.len(),
{
    if s.len() == 0 {
        None
    } else if s[0].link.index == index {
        Some(s[0])
    } else {
        find(s.drop_first(), index)
    }
}

/// What is known of a link besides what the kernel says.
pub type IdentityV = (Seq<char>, Seq<char>);

/// The first identity for this index; nothing known where there is none.
pub open spec fn identity_for(s: Seq<(u32, Identity)>, index: u32) -> IdentityV
    decreases s.len(),
{
    if s.len() == 0 {
        (Seq::empty(), Seq::empty())
    } else if s[0].0 == index {
        (s[0].1.path@, s[0].1.driver@)
    } else {
        identity_for(s.drop_first(), index)
    }
}

/// An interface seen for the first time.
pub open spec fn newcomer(link: LinkV, id: IdentityV) -> InterfaceV {
    InterfaceV {
        ifid: model::interface_id_of(id.0, link.mac, link.name),
        path: id.0,
        driver: id.1,
        link,
        profile: None,
        enabled: true,
        dhcp: None,
        lease: None,
        link_local: None,
    }
}

/// What becomes of an interface when its link is seen, and what is to be done
/// about it. A different intent — a different profile, or the same one edited —
/// starts over rather than trust the old lease; so does the loss of carrier.
pub open spec fn seen(
    known: Option<InterfaceV>,
    link: LinkV,
    id: IdentityV,
    profiles: Seq<ProfileV>,
    now: Instant,
) -> (InterfaceV, Seq<EffectV>) {
    let base = match known {
        Some(i) => i,
        None => newcomer(link, id),
    };
    let had_carrier = base.link.carrier && base.link.up;
    let linked = InterfaceV { link, ..base };
    let profile = matching::chosen(profiles, link, base.path, base.driver);
    let (fresh, e) = if profile != linked.profile {
        linked.stop_dhcp(now)
    } else {
        (linked, Seq::empty())
    };
    let chosen = InterfaceV { profile, ..fresh };
    if had_carrier && !(link.carrier && link.up) {
        let (i, f) = chosen.stop_dhcp(now);
        (i, e + f)
    } else {
        (chosen, e)
    }
}

/// The interfaces the links make, and what is to be done about them.
pub open spec fn synced(
    known: Seq<InterfaceV>,
    links: Seq<LinkV>,
    ids: Seq<(u32, Identity)>,
    profiles: Seq<ProfileV>,
    now: Instant,
) -> (Seq<InterfaceV>, Seq<TaskV>)
    decreases links.len(),
{
    if links.len() == 0 {
        (Seq::empty(), Seq::empty())
    } else {
        let (s, t) = synced(known, links.drop_last(), ids, profiles, now);
        let l = links.last();
        let (i, e) = seen(find(known, l.index), l, identity_for(ids, l.index), profiles, now);
        (s.push(i), t + tagged(l.index, e))
    }
}

fn know(ids: &Vec<(u32, Identity)>, index: u32) -> (r: Identity)
    ensures
        (r.path@, r.driver@) == identity_for(ids@, index),
{
    let mut i: usize = 0;
    assert(ids@.skip(0) =~= ids@);
    while i < ids.len()
        invariant
            i <= ids@.len(),
            identity_for(ids@, index) == identity_for(ids@.skip(i as int), index),
        decreases ids@.len() - i,
    {
        assert(ids@.skip(i as int)[0] == ids@[i as int]);
        assert(ids@.skip(i as int).drop_first() =~= ids@.skip(i + 1));
        if ids[i].0 == index {
            return ids[i].1.clone();
        }
        i = i + 1;
    }
    Identity::default()
}

fn see(
    known: Option<Interface>,
    link: &Link,
    identity: Identity,
    profiles: &Vec<Profile>,
    now: Instant,
) -> (r: (Interface, Vec<Effect>))
    requires
        known matches Some(i) ==> i@.wf(),
    ensures
        (r.0@, interface::effects_view(r.1@)) == seen(
            match known {
                Some(i) => Some(i@),
                None => None,
            },
            link@,
            (identity.path@, identity.driver@),
            matching::profiles_view(profiles@),
            now,
        ),
        r.0@.wf(),
{
    let mut i: Interface = match known {
        Some(i) => i,
        None => {
            let ifid: String = model::interface_id(
                &identity,
                link.mac.as_ref(),
                link.name.as_str(),
            );
            Interface {
                ifid,
                identity,
                link: link.clone(),
                profile: None,
                enabled: true,
                dhcp: None,
                lease: None,
                link_local: None,
            }
        },
    };
    let had_carrier: bool = i.link.carrier && i.link.up;
    i.link = link.clone();
    let choice: Option<&Profile> = matching::select(profiles, link, &i.identity);
    let mut out: Vec<Effect> = Vec::new();
    assert(interface::effects_view(out@) =~= Seq::empty());
    if !same_choice(choice, &i.profile) {
        out = i.stop_dhcp(now);
    }
    i.profile = match choice {
        Some(p) => Some(p.clone()),
        None => None,
    };
    let ghost first = interface::effects_view(out@);
    if had_carrier && !(link.carrier && link.up) {
        let mut more: Vec<Effect> = i.stop_dhcp(now);
        let ghost second = interface::effects_view(more@);
        out.append(&mut more);
        assert(interface::effects_view(out@) =~= first + second);
    }
    (i, out)
}

proof fn find_from(s: Seq<InterfaceV>, index: u32, n: int)
    requires
        0 <= n <= s.len(),
        forall|k: int| 0 <= k < n ==> (#[trigger] s[k]).link.index != index,
    ensures
        find(s, index) == find(s.skip(n), index),
    decreases n,
{
    if n > 0 {
        let t = s.drop_first();
        assert(s[0].link.index != index);
        assert forall|k: int| 0 <= k < n - 1 implies (#[trigger] t[k]).link.index != index by {
            assert(t[k] == s[k + 1]);
        }
        find_from(t, index, n - 1);
        assert(t.skip(n - 1) =~= s.skip(n));
    } else {
        assert(s.skip(0) =~= s);
    }
}

proof fn find_without(s: Seq<InterfaceV>, n: int, index: u32)
    requires
        0 <= n < s.len(),
        s[n].link.index != index,
    ensures
        find(s.remove(n), index) == find(s, index),
    decreases s.len(),
{
    let r = s.remove(n);
    if n == 0 {
        assert(r =~= s.drop_first());
    } else {
        assert(r[0] == s[0]);
        if s[0].link.index != index {
            assert(r.drop_first() =~= s.drop_first().remove(n - 1));
            find_without(s.drop_first(), n - 1, index);
        }
    }
}

fn take_known(known: &mut Vec<Interface>, index: u32) -> (r: Option<Interface>)
    ensures
        match r {
            Some(i) => find(report::table(old(known)@), index) == Some(i@),
            None => find(report::table(old(known)@), index) is None,
        },
        forall|other: u32|
            other != index ==> #[trigger] find(report::table(final(known)@), other) == find(
                report::table(old(known)@),
                other,
            ),
        (forall|k: int| 0 <= k < old(known)@.len() ==> (#[trigger] old(known)@[k])@.wf()) ==> (r
            matches Some(i) ==> i@.wf()) && (forall|k: int|
            0 <= k < final(known)@.len() ==> (#[trigger] final(known)@[k])@.wf()),
{
    let ghost all = report::table(known@);
    let mut n: usize = 0;
    while n < known.len()
        invariant
            n <= known@.len(),
            known@ == old(known)@,
            all == report::table(known@),
            forall|k: int| 0 <= k < n ==> (#[trigger] all[k]).link.index != index,
        decreases known@.len() - n,
    {
        assert(all[n as int] == known@[n as int]@);
        if known[n].link.index == index {
            let i: Interface = known.remove(n);
            proof {
                find_from(all, index, n as int);
                assert(all.skip(n as int)[0] == all[n as int]);
                assert(report::table(known@) =~= all.remove(n as int));
                assert forall|other: u32| other != index implies #[trigger] find(
                    report::table(known@),
                    other,
                ) == find(all, other) by {
                    find_without(all, n as int, other);
                }
            }
            return Some(i);
        }
        n = n + 1;
    }
    proof {
        find_from(all, index, n as int);
    }
    None
}

// ---- DHCP ------------------------------------------------------------------

/// What is due of an interface's DHCP client.
#[derive(Debug, Clone, Copy, PartialEq, Eq)]
pub enum Due {
    Nothing,
    Stop,
    /// To start, for this hardware address.
    Start([u8; 6]),
}

/// The same as values.
#[verifier::ext_equal]
pub enum DueV {
    Nothing,
    Stop,
    Start(Seq<u8>),
}

impl View for Due {
    type V = DueV;

    open spec fn view(&self) -> DueV {
        match self {
            Due::Nothing => DueV::Nothing,
            Due::Stop => DueV::Stop,
            Due::Start(m) => DueV::Start(m@),
        }
    }
}

/// What the outside world gives a client that is to start: its socket is open.
#[derive(Debug, Clone, Copy, PartialEq, Eq, Structural)]
pub struct Offer {
    /// The index of the link.
    pub index: u32,
    /// Noise.
    pub seed: u64,
    /// The address the interface had, if one is on record.
    pub previous: Option<Ipv4Addr>,
}

/// The first offer for this index.
pub open spec fn offer_for(s: Seq<Offer>, index: u32) -> Option<Offer>
    decreases s.len(),
{
    if s.len() == 0 {
        None
    } else if s[0].index == index {
        Some(s[0])
    } else {
        offer_for(s.drop_first(), index)
    }
}

/// What a client starts with, besides what its interface says.
#[verifier::ext_equal]
pub struct Terms {
    pub hostname: Option<Seq<char>>,
    pub offers: Seq<Offer>,
    /// The DUID on disk.
    pub stored: Option<Seq<u8>>,
    pub now: Instant,
}

/// The machine's DUID, made from a hardware address where none is on record.
pub open spec fn duid_from(stored: Option<Seq<u8>>, mac: Seq<u8>) -> Seq<u8> {
    match stored {
        Some(s) => if s.len() >= 4 {
            s
        } else {
            dhcp::duid_of(mac)
        },
        None => dhcp::duid_of(mac),
    }
}

/// A client that has not started.
pub open spec fn new_client(
    mac: Seq<u8>,
    client_id: Seq<u8>,
    hostname: Option<Seq<char>>,
    seed: u64,
) -> ClientV {
    ClientV {
        chaddr: mac,
        client_id,
        hostname,
        state: client::State::Init,
        rng: seed | 1,
        xid: 0,
        started: (Instant { nanos: 0 }),
        retransmit_at: None,
        backoff: (clock::Duration { nanos: client::FIRST_BACKOFF }),
        attempts: 0,
        no_offer_reported: false,
        offer: None,
        lease: None,
        bound_at: None,
        reboot_address: None,
    }
}

impl InterfaceV {
    /// Whether its profile wants a lease, and it can ask for one.
    pub open spec fn leases(self) -> bool {
        &&& self.managed()
        &&& self.enabled
        &&& (self.profile matches Some(p) && p.address.dhcp4)
        &&& self.link.up
        &&& self.link.carrier
    }

    /// What is due of its DHCP client.
    pub open spec fn due(self) -> DueV {
        if self.profile is None {
            DueV::Nothing
        } else if self.dhcp is Some {
            if self.leases() {
                DueV::Nothing
            } else {
                DueV::Stop
            }
        } else if self.leases() {
            match self.link.mac {
                Some(m) => DueV::Start(m),
                None => DueV::Nothing,
            }
        } else {
            DueV::Nothing
        }
    }

    /// Its DHCP client started with this DUID.
    pub open spec fn start_dhcp(self, mac: Seq<u8>, duid: Seq<u8>, offer: Offer, terms: Terms) -> (
        InterfaceV,
        Seq<EffectV>,
    ) {
        let announces = self.profile matches Some(p) && p.address.send_hostname;
        let idle = new_client(
            mac,
            dhcp::client_id_of(duid, self.ifid),
            if announces {
                terms.hostname
            } else {
                None
            },
            offer.seed ^ (self.link.index as u64),
        );
        let (c, actions) = idle.start(terms.now, offer.previous);
        let (i, e, _) = InterfaceV { dhcp: Some(c), lease: None, ..self }.perform(actions);
        (i, e)
    }

    /// What is due of its DHCP client done. The second result is the machine's
    /// DUID afterwards.
    pub open spec fn dhcp_step(self, duid: Option<Seq<u8>>, terms: Terms) -> (
        InterfaceV,
        Option<Seq<u8>>,
        Seq<EffectV>,
    ) {
        match self.due() {
            DueV::Nothing => (self, duid, Seq::empty()),
            DueV::Stop => {
                let (i, e) = self.stop_dhcp(terms.now);
                (i, duid, e)
            },
            DueV::Start(mac) => {
                let d = match duid {
                    Some(d) => d,
                    None => duid_from(terms.stored, mac),
                };
                match offer_for(terms.offers, self.link.index) {
                    Some(o) => {
                        let (i, e) = self.start_dhcp(mac, d, o, terms);
                        (i, Some(d), e)
                    },
                    None => (self, Some(d), Seq::empty()),
                }
            },
        }
    }
}

/// What is due of every DHCP client done, one interface after another.
pub open spec fn dhcp_steps(s: Seq<InterfaceV>, duid: Option<Seq<u8>>, terms: Terms) -> (
    Seq<InterfaceV>,
    Option<Seq<u8>>,
    Seq<TaskV>,
)
    decreases s.len(),
{
    if s.len() == 0 {
        (Seq::empty(), duid, Seq::empty())
    } else {
        let (r, d, t) = dhcp_steps(s.drop_last(), duid, terms);
        let (i, d2, e) = s.last().dhcp_step(d, terms);
        (r.push(i), d2, t + tagged(s.last().link.index, e))
    }
}

impl Interface {
    /// What is due of the interface's DHCP client.
    pub fn due(&self) -> (r: Due)
        ensures
            r@ == self@.due(),
    {
        let p: &Profile = match &self.profile {
            Some(p) => p,
            None => {
                return Due::Nothing;
            },
        };
        let leases: bool = self.managed() && self.enabled && p.address.dhcp4 && self.link.up
            && self.link.carrier;
        if self.dhcp.is_some() {
            if leases {
                Due::Nothing
            } else {
                Due::Stop
            }
        } else if leases {
            match self.link.mac {
                Some(m) => Due::Start(m),
                None => Due::Nothing,
            }
        } else {
            Due::Nothing
        }
    }

    fn start_dhcp(
        &mut self,
        mac: [u8; 6],
        duid: &Vec<u8>,
        offer: Offer,
        hostname: &Option<String>,
        terms: Ghost<Terms>,
        now: Instant,
    ) -> (out: Vec<Effect>)
        requires
            now.nanos <= clock::HORIZON,
            terms@.hostname == text::opt_view(*hostname),
            terms@.now == now,
        ensures
            (final(self)@, interface::effects_view(out@)) == old(self)@.start_dhcp(
                mac@,
                duid@,
                offer,
                terms@,
            ),
            final(self)@.wf(),
    {
        let announces: bool = match &self.profile {
            Some(p) => p.address.send_hostname,
            None => false,
        };
        let name: Option<String> = if announces {
            hostname.clone()
        } else {
            None
        };
        let seed: u64 = offer.seed ^ (self.link.index as u64);
        let settings: Config = Config {
            chaddr: mac,
            client_id: dhcp::client_id(duid.as_slice(), self.ifid.as_str()),
            hostname: name,
            seed,
        };
        let mut c: Client = Client::new(settings);
        assert(c@ =~= new_client(mac@, dhcp::client_id_of(duid@, self@.ifid), text::opt_view(name), seed));
        let actions: Vec<Action> = c.start(now, offer.previous);
        self.dhcp = Some(c);
        self.lease = None;
        let (out, _changed): (Vec<Effect>, bool) = self.perform(actions);
        out
    }

    fn dhcp_step(
        &mut self,
        duid: &mut Option<Vec<u8>>,
        hostname: &Option<String>,
        offers: &Vec<Offer>,
        stored: &Option<Vec<u8>>,
        now: Instant,
    ) -> (out: Vec<Effect>)
        requires
            old(self)@.wf(),
            now.nanos <= clock::HORIZON,
        ensures
            (final(self)@, config::opt_bytes(*final(duid)), interface::effects_view(out@)) == old(
                self,
            )@.dhcp_step(
                config::opt_bytes(*old(duid)),
                (Terms {
                    hostname: text::opt_view(*hostname),
                    offers: offers@,
                    stored: config::opt_bytes(*stored),
                    now,
                }),
            ),
            final(self)@.wf(),
    {
        let ghost terms = Terms {
            hostname: text::opt_view(*hostname),
            offers: offers@,
            stored: config::opt_bytes(*stored),
            now,
        };
        match self.due() {
            Due::Nothing => {
                let out: Vec<Effect> = Vec::new();
                assert(interface::effects_view(out@) =~= Seq::empty());
                out
            },
            Due::Stop => self.stop_dhcp(now),
            Due::Start(mac) => {
                let d: Vec<u8> = match duid {
                    Some(d) => vstd::slice::slice_to_vec(d.as_slice()),
                    None => {
                        let (made, _new): (Vec<u8>, bool) = dhcp::duid(copy_opt(stored), &mac);
                        made
                    },
                };
                *duid = Some(vstd::slice::slice_to_vec(d.as_slice()));
                match offer_of(offers, self.link.index) {
                    Some(o) => self.start_dhcp(mac, &d, o, hostname, Ghost(terms), now),
                    None => {
                        let out: Vec<Effect> = Vec::new();
                        assert(interface::effects_view(out@) =~= Seq::empty());
                        out
                    },
                }
            },
        }
    }
}

fn copy_opt(v: &Option<Vec<u8>>) -> (r: Option<Vec<u8>>)
    ensures
        config::opt_bytes(r) == config::opt_bytes(*v),
{
    match v {
        Some(b) => Some(vstd::slice::slice_to_vec(b.as_slice())),
        None => None,
    }
}

fn offer_of(v: &Vec<Offer>, index: u32) -> (r: Option<Offer>)
    ensures
        r == offer_for(v@, index),
{
    let mut i: usize = 0;
    assert(v@.skip(0) =~= v@);
    while i < v.len()
        invariant
            i <= v@.len(),
            offer_for(v@, index) == offer_for(v@.skip(i as int), index),
        decreases v@.len() - i,
    {
        assert(v@.skip(i as int)[0] == v@[i as int]);
        assert(v@.skip(i as int).drop_first() =~= v@.skip(i + 1));
        if v[i].index == index {
            return Some(v[i]);
        }
        i = i + 1;
    }
    None
}

// ---- the daemon ------------------------------------------------------------

/// What the daemon knows.
pub struct Netd {
    /// The configured hostname.
    pub hostname: Option<String>,
    /// The profiles, by priority.
    pub profiles: Vec<Profile>,
    pub observed: Observed,
    /// One interface for each link, in the order of their indices.
    pub interfaces: Vec<Interface>,
    pub duid: Option<Vec<u8>>,
    /// The hostname the machine was given.
    pub hostname_set: Option<String>,
    /// The last picture subscribers were sent.
    pub last_snapshot: Option<Snapshot>,
}

/// The same as values.
#[verifier::ext_equal]
pub struct NetdV {
    pub hostname: Option<Seq<char>>,
    pub profiles: Seq<ProfileV>,
    pub observed: ObservedV,
    pub interfaces: Seq<InterfaceV>,
    pub duid: Option<Seq<u8>>,
    pub hostname_set: Option<Seq<char>>,
    pub last_snapshot: Option<SnapshotV>,
}

/// A picture that may be absent, as values.
pub open spec fn opt_snapshot(s: Option<Snapshot>) -> Option<SnapshotV> {
    match s {
        Some(s) => Some(s@),
        None => None,
    }
}

impl View for Netd {
    type V = NetdV;

    open spec fn view(&self) -> NetdV {
        NetdV {
            hostname: text::opt_view(self.hostname),
            profiles: matching::profiles_view(self.profiles@),
            observed: self.observed@,
            interfaces: report::table(self.interfaces@),
            duid: config::opt_bytes(self.duid),
            hostname_set: text::opt_view(self.hostname_set),
            last_snapshot: opt_snapshot(self.last_snapshot),
        }
    }
}

/// Whether every DHCP client is in order.
pub open spec fn all_wf(s: Seq<InterfaceV>) -> bool {
    forall|k: int| 0 <= k < s.len() ==> (#[trigger] s[k]).wf()
}

/// The first hostname a lease offers to an interface that takes one.
pub open spec fn offered_name(s: Seq<InterfaceV>) -> Option<Seq<char>>
    decreases s.len(),
{
    if s.len() == 0 {
        None
    } else {
        match s[0].offered_name() {
            Some(n) => Some(n),
            None => offered_name(s.drop_first()),
        }
    }
}

/// Where the first interface with this name or id is; past the end where there
/// is none.
pub open spec fn named(s: Seq<InterfaceV>, name: Seq<char>) -> int
    decreases s.len(),
{
    if s.len() == 0 || s[0].link.name == name || s[0].ifid == name {
        0
    } else {
        1 + named(s.drop_first(), name)
    }
}

/// The plans that come to anything.
pub open spec fn plans_for(s: Seq<InterfaceV>, o: ObservedV) -> Seq<(u32, Seq<Op>)>
    decreases s.len(),
{
    if s.len() == 0 {
        Seq::empty()
    } else {
        let before = plans_for(s.drop_last(), o);
        match s.last().desired() {
            Some(d) => if reconcile::planned(o, d).len() > 0 {
                before.push((s.last().link.index, reconcile::planned(o, d)))
            } else {
                before
            },
            None => before,
        }
    }
}

/// Plans as values.
pub open spec fn plans_view(v: Seq<(u32, Vec<Op>)>) -> Seq<(u32, Seq<Op>)> {
    v.map_values(|p: (u32, Vec<Op>)| (p.0, p.1@))
}

/// Every client's clock moved: the interfaces, the tasks, and whether a
/// reconcile is needed.
pub open spec fn ticked(s: Seq<InterfaceV>, now: Instant) -> (Seq<InterfaceV>, Seq<TaskV>, bool)
    decreases s.len(),
{
    if s.len() == 0 {
        (Seq::empty(), Seq::empty(), false)
    } else {
        let (r, t, c) = ticked(s.drop_last(), now);
        let (i, e, d) = s.last().tick(now);
        (r.push(i), t + tagged(s.last().link.index, e), c || d)
    }
}

/// The earlier of two deadlines.
pub open spec fn earlier(a: Option<Instant>, b: Option<Instant>) -> Option<Instant> {
    match (a, b) {
        (Some(x), Some(y)) => if y.nanos < x.nanos {
            Some(y)
        } else {
            Some(x)
        },
        (None, y) => y,
        (x, None) => x,
    }
}

/// The earliest deadline of the DHCP clients.
pub open spec fn deadline_of(s: Seq<InterfaceV>) -> Option<Instant>
    decreases s.len(),
{
    if s.len() == 0 {
        None
    } else {
        earlier(
            deadline_of(s.drop_last()),
            match s.last().dhcp {
                Some(c) => c.next_deadline(),
                None => None,
            },
        )
    }
}

/// How long to wait for a deadline, in whole milliseconds; for ever, where
/// there is none.
pub open spec fn wait_for(deadline: Option<Instant>, now: Instant) -> int {
    match deadline {
        Some(t) => {
            let left = if t.nanos >= now.nanos {
                (t.nanos - now.nanos) / 1_000_000
            } else {
                0
            };
            if left > i32::MAX {
                i32::MAX as int
            } else {
                left
            }
        },
        None => -1,
    }
}

impl InterfaceV {
    /// The hostname its lease offers, where its profile takes one.
    pub open spec fn offered_name(self) -> Option<Seq<char>> {
        match (self.profile, self.lease) {
            (Some(p), Some(l)) => if p.address.accept_hostname {
                l.hostname
            } else {
                None
            },
            _ => None,
        }
    }

    /// Its client's clock moved.
    pub open spec fn tick(self, now: Instant) -> interface::Performed {
        match self.dhcp {
            Some(c) => {
                let (d, actions) = c.tick(now);
                InterfaceV { dhcp: Some(d), ..self }.perform(actions)
            },
            None => (self, Seq::empty(), false),
        }
    }

    /// A message came for its client.
    pub open spec fn receive(self, now: Instant, m: MessageV) -> interface::Performed {
        match self.dhcp {
            Some(c) => {
                let (d, actions) = c.receive(now, m);
                InterfaceV { dhcp: Some(d), ..self }.perform(actions)
            },
            None => (self, Seq::empty(), false),
        }
    }

    /// Its lease renewed now.
    pub open spec fn renew(self, now: Instant) -> interface::Performed {
        match self.dhcp {
            Some(c) => {
                let (d, actions) = c.renew_now(now);
                InterfaceV { dhcp: Some(d), ..self }.perform(actions)
            },
            None => (self, Seq::empty(), false),
        }
    }
}

/// What is answered to a request.
#[derive(Debug, PartialEq, Eq)]
pub enum Answer {
    /// This, at once.
    Reply(Reply),
    /// This picture, and every later one on the same connection.
    Stream(Snapshot),
    /// Success, once the whole pass has been made.
    Converge,
}

/// The same as values.
#[verifier::ext_equal]
pub enum AnswerV {
    Reply(ReplyV),
    Stream(SnapshotV),
    Converge,
}

impl View for Answer {
    type V = AnswerV;

    open spec fn view(&self) -> AnswerV {
        match self {
            Answer::Reply(r) => AnswerV::Reply(r@),
            Answer::Stream(s) => AnswerV::Stream(s@),
            Answer::Converge => AnswerV::Converge,
        }
    }
}

impl NetdV {
    /// Whether every DHCP client is in order.
    pub open spec fn wf(self) -> bool {
        all_wf(self.interfaces)
    }

    /// The interface table in line with the kernel's link list.
    pub open spec fn sync_links(self, ids: Seq<(u32, Identity)>, now: Instant) -> (
        NetdV,
        Seq<TaskV>,
    ) {
        let (interfaces, tasks) = synced(
            self.interfaces,
            self.observed.links,
            ids,
            self.profiles,
            now,
        );
        (NetdV { interfaces, ..self }, tasks)
    }

    /// The DNS picture.
    pub open spec fn snapshot(self) -> SnapshotV {
        report::snapshot_of(self.interfaces, self.observed, self.hostname_set)
    }

    /// The picture to send to every subscriber, if it changed since the last,
    /// and what is remembered then.
    pub open spec fn published(self) -> (NetdV, Option<SnapshotV>) {
        if self.last_snapshot == Some(self.snapshot()) {
            (self, None)
        } else {
            (
                NetdV { last_snapshot: Some(self.snapshot()), ..self },
                Some(self.snapshot()),
            )
        }
    }

    /// The whole picture.
    pub open spec fn status(self, now: Instant) -> StatusV {
        report::status_of(self.interfaces, self.observed, self.hostname_set, now)
    }

    /// The hostname the machine is to be given: the configured one, else one
    /// that a lease offers; none where it has it already.
    pub open spec fn hostname_due(self) -> Option<Seq<char>> {
        let name = match self.hostname {
            Some(n) => Some(n),
            None => offered_name(self.interfaces),
        };
        if name == self.hostname_set {
            None
        } else {
            name
        }
    }

    /// What becomes of a request, and what is answered to it.
    pub open spec fn control(self, request: RequestV, permitted: bool, now: Instant) -> (
        NetdV,
        Seq<TaskV>,
        AnswerV,
    ) {
        if !permitted {
            (self, Seq::empty(), AnswerV::Reply(ReplyV::Error("access denied"@)))
        } else {
            match request {
                RequestV::Status => (
                    self,
                    Seq::empty(),
                    AnswerV::Reply(ReplyV::Status(self.status(now))),
                ),
                RequestV::Subscribe => (
                    self,
                    Seq::empty(),
                    AnswerV::Stream(
                        match self.last_snapshot {
                            Some(s) => s,
                            None => self.snapshot(),
                        },
                    ),
                ),
                RequestV::Reconcile => (self, Seq::empty(), AnswerV::Converge),
                RequestV::Renew { interface } => {
                    let n = named(self.interfaces, interface);
                    if n >= self.interfaces.len() {
                        (
                            self,
                            Seq::empty(),
                            AnswerV::Reply(ReplyV::Error("no interface "@ + interface)),
                        )
                    } else if self.interfaces[n].dhcp is None {
                        (
                            self,
                            Seq::empty(),
                            AnswerV::Reply(ReplyV::Error(interface + " is not using DHCP"@)),
                        )
                    } else {
                        let (i, e, _) = self.interfaces[n].renew(now);
                        (
                            NetdV { interfaces: self.interfaces.update(n, i), ..self },
                            tagged(self.interfaces[n].link.index, e),
                            AnswerV::Reply(ReplyV::Done),
                        )
                    }
                },
            }
        }
    }
}

impl Interface {
    /// The interface's client's clock moved.
    pub fn tick(&mut self, now: Instant) -> (r: (Vec<Effect>, bool))
        requires
            old(self)@.wf(),
            now.nanos <= clock::HORIZON,
        ensures
            (final(self)@, interface::effects_view(r.0@), r.1) == old(self)@.tick(now),
            final(self)@.wf(),
    {
        match self.dhcp.take() {
            Some(c) => {
                let mut client: Client = c;
                let actions: Vec<Action> = client.tick(now);
                self.dhcp = Some(client);
                self.perform(actions)
            },
            None => {
                let out: Vec<Effect> = Vec::new();
                assert(interface::effects_view(out@) =~= Seq::empty());
                (out, false)
            },
        }
    }

    /// A message came on the interface.
    pub fn receive(&mut self, now: Instant, message: &Message) -> (r: (Vec<Effect>, bool))
        requires
            old(self)@.wf(),
            now.nanos <= clock::HORIZON,
        ensures
            (final(self)@, interface::effects_view(r.0@), r.1) == old(self)@.receive(now, message@),
            final(self)@.wf(),
    {
        match self.dhcp.take() {
            Some(c) => {
                let mut client: Client = c;
                let actions: Vec<Action> = client.receive(now, message);
                self.dhcp = Some(client);
                self.perform(actions)
            },
            None => {
                let out: Vec<Effect> = Vec::new();
                assert(interface::effects_view(out@) =~= Seq::empty());
                (out, false)
            },
        }
    }

    /// Renews the interface's lease now.
    pub fn renew(&mut self, now: Instant) -> (r: (Vec<Effect>, bool))
        requires
            old(self)@.wf(),
            now.nanos <= clock::HORIZON,
        ensures
            (final(self)@, interface::effects_view(r.0@), r.1) == old(self)@.renew(now),
            final(self)@.wf(),
    {
        match self.dhcp.take() {
            Some(c) => {
                let mut client: Client = c;
                let actions: Vec<Action> = client.renew_now(now);
                self.dhcp = Some(client);
                self.perform(actions)
            },
            None => {
                let out: Vec<Effect> = Vec::new();
                assert(interface::effects_view(out@) =~= Seq::empty());
                (out, false)
            },
        }
    }
}

proof fn named_at(s: Seq<InterfaceV>, name: Seq<char>, n: int)
    requires
        0 <= n <= s.len(),
        forall|k: int|
            0 <= k < n ==> (#[trigger] s[k]).link.name != name && s[k].ifid != name,
        n < s.len() ==> s[n].link.name == name || s[n].ifid == name,
    ensures
        named(s, name) == n,
    decreases n,
{
    if n > 0 {
        let t = s.drop_first();
        assert(s[0].link.name != name && s[0].ifid != name);
        assert forall|k: int| 0 <= k < n - 1 implies (#[trigger] t[k]).link.name != name
            && t[k].ifid != name by {
            assert(t[k] == s[k + 1]);
        }
        named_at(t, name, n - 1);
    }
}

proof fn offered_from(s: Seq<InterfaceV>, n: int)
    requires
        0 <= n <= s.len(),
        forall|k: int| 0 <= k < n ==> (#[trigger] s[k]).offered_name() is None,
    ensures
        offered_name(s) == offered_name(s.skip(n)),
    decreases n,
{
    if n > 0 {
        let t = s.drop_first();
        assert(s[0].offered_name() is None);
        assert forall|k: int| 0 <= k < n - 1 implies (#[trigger] t[k]).offered_name() is None by {
            assert(t[k] == s[k + 1]);
        }
        offered_from(t, n - 1);
        assert(t.skip(n - 1) =~= s.skip(n));
    } else {
        assert(s.skip(0) =~= s);
    }
}

impl Netd {
    /// A daemon that has seen nothing yet.
    pub fn new(hostname: Option<String>, profiles: Vec<Profile>) -> (n: Netd)
        ensures
            n@ == (NetdV {
                hostname: text::opt_view(hostname),
                profiles: matching::profiles_view(profiles@),
                observed: (ObservedV {
                    links: Seq::empty(),
                    addresses: Seq::empty(),
                    routes: Seq::empty(),
                }),
                interfaces: Seq::empty(),
                duid: None,
                hostname_set: None,
                last_snapshot: None,
            }),
            n@.wf(),
    {
        let n: Netd = Netd {
            hostname,
            profiles,
            observed: Observed::default(),
            interfaces: Vec::new(),
            duid: None,
            hostname_set: None,
            last_snapshot: None,
        };
        assert(n@.interfaces =~= Seq::empty());
        n
    }

    /// The links that are not in the interface table yet, by their indices:
    /// what they are has to be read before they go in.
    pub fn newcomers(&self) -> (out: Vec<u32>)
        ensures
            out@ == strangers(self@.observed.links, self@.interfaces),
    {
        let ghost links = self@.observed.links;
        let ghost known = self@.interfaces;
        let mut out: Vec<u32> = Vec::new();
        let mut i: usize = 0;
        while i < self.observed.links.len()
            invariant
                i <= self.observed.links@.len(),
                links == self@.observed.links,
                known == self@.interfaces,
                out@ == strangers(links.take(i as int), known),
            decreases self.observed.links@.len() - i,
        {
            assert(links.take(i + 1).drop_last() =~= links.take(i as int));
            assert(links.take(i + 1).last() == self.observed.links@[i as int]@);
            let index: u32 = self.observed.links[i].index;
            if !self.knows(index) {
                out.push(index);
            }
            i = i + 1;
        }
        assert(links.take(i as int) =~= links);
        out
    }

    fn knows(&self, index: u32) -> (r: bool)
        ensures
            r == (find(self@.interfaces, index) is Some),
    {
        let ghost all = self@.interfaces;
        let mut n: usize = 0;
        while n < self.interfaces.len()
            invariant
                n <= self.interfaces@.len(),
                all == self@.interfaces,
                forall|k: int| 0 <= k < n ==> (#[trigger] all[k]).link.index != index,
            decreases self.interfaces@.len() - n,
        {
            assert(all[n as int] == self.interfaces@[n as int]@);
            if self.interfaces[n].link.index == index {
                proof {
                    find_from(all, index, n as int);
                    assert(all.skip(n as int)[0] == all[n as int]);
                }
                return true;
            }
            n = n + 1;
        }
        proof {
            find_from(all, index, n as int);
        }
        false
    }

    /// Brings the interface table in line with the kernel's link list. `ids`
    /// says what the newcomers are.
    pub fn sync_links(&mut self, ids: &Vec<(u32, Identity)>, now: Instant) -> (tasks: Vec<Task>)
        requires
            old(self)@.wf(),
            model::links_rise(old(self)@.observed.links),
        ensures
            (final(self)@, tasks_view(tasks@)) == old(self)@.sync_links(ids@, now),
            final(self)@.wf(),
    {
        let ghost start = self@;
        let ghost links = self@.observed.links;
        let ghost profiles = self@.profiles;
        let mut known: Vec<Interface> = Vec::new();
        known.append(&mut self.interfaces);
        assert(report::table(known@) =~= start.interfaces);
        assert forall|k: int| 0 <= k < known@.len() implies (#[trigger] known@[k])@.wf() by {
            assert(start.interfaces[k] == known@[k]@);
        }
        let mut tasks: Vec<Task> = Vec::new();
        let mut fresh: Vec<Interface> = Vec::new();
        let mut j: usize = 0;
        assert(report::table(fresh@) =~= Seq::empty());
        assert(tasks_view(tasks@) =~= Seq::empty());
        while j < self.observed.links.len()
            invariant
                j <= self.observed.links@.len(),
                links == self.observed@.links,
                links == start.observed.links,
                model::links_rise(links),
                profiles == matching::profiles_view(self.profiles@),
                self@ == (NetdV { interfaces: self@.interfaces, ..start }),
                (report::table(fresh@), tasks_view(tasks@)) == synced(
                    start.interfaces,
                    links.take(j as int),
                    ids@,
                    profiles,
                    now,
                ),
                forall|index: u32|
                    (forall|k: int| 0 <= k < j ==> (#[trigger] links[k]).index != index)
                        ==> #[trigger] find(report::table(known@), index) == find(
                        start.interfaces,
                        index,
                    ),
                forall|k: int| 0 <= k < known@.len() ==> (#[trigger] known@[k])@.wf(),
                forall|k: int| 0 <= k < fresh@.len() ==> (#[trigger] fresh@[k])@.wf(),
            decreases self.observed.links@.len() - j,
        {
            assert(links.take(j + 1).drop_last() =~= links.take(j as int));
            assert(links.take(j + 1).last() == self.observed.links@[j as int]@);
            assert(links[j as int] == self.observed.links@[j as int]@);
            let index: u32 = self.observed.links[j].index;
            let ghost had = report::table(known@);
            assert forall|k: int| 0 <= k < j implies (#[trigger] links[k]).index != index by {
                assert(links[k].index < links[j as int].index);
            }
            assert(find(had, index) == find(start.interfaces, index));
            let before: Option<Interface> = take_known(&mut known, index);
            let identity: Identity = know(ids, index);
            let (i, effects): (Interface, Vec<Effect>) = see(
                before,
                &self.observed.links[j],
                identity,
                &self.profiles,
                now,
            );
            tag(index, effects, &mut tasks);
            let ghost so_far = report::table(fresh@);
            fresh.push(i);
            assert(report::table(fresh@) =~= so_far.push(i@));
            proof {
                assert forall|other: u32|
                    (forall|k: int| 0 <= k < j + 1 ==> (#[trigger] links[k]).index != other)
                        implies #[trigger] find(report::table(known@), other) == find(
                    start.interfaces,
                    other,
                ) by {
                    assert(links[j as int].index != other);
                    assert(find(report::table(known@), other) == find(had, other));
                }
            }
            j = j + 1;
        }
        assert(links.take(j as int) =~= links);
        self.interfaces = fresh;
        proof {
            assert forall|k: int| 0 <= k < self@.interfaces.len() implies (
            #[trigger] self@.interfaces[k]).wf() by {
                assert(self@.interfaces[k] == self.interfaces@[k]@);
            }
        }
        tasks
    }

    /// Takes note of whether an interface is enabled.
    pub fn set_enabled(&mut self, index: u32, enabled: bool)
        requires
            old(self)@.wf(),
        ensures
            final(self)@ == (NetdV {
                interfaces: switched(old(self)@.interfaces, index, enabled),
                ..old(self)@
            }),
            final(self)@.wf(),
    {
        let ghost start = self@;
        let ghost want = switched(start.interfaces, index, enabled);
        let mut i: usize = 0;
        while i < self.interfaces.len()
            invariant
                i <= self.interfaces@.len(),
                start == old(self)@,
                start.wf(),
                want == switched(start.interfaces, index, enabled),
                self.interfaces@.len() == start.interfaces.len(),
                self@ == (NetdV { interfaces: self@.interfaces, ..start }),
                forall|k: int| 0 <= k < i ==> (#[trigger] self.interfaces@[k])@ == want[k],
                forall|k: int|
                    i <= k < self.interfaces@.len() ==> (#[trigger] self.interfaces@[k])@
                        == start.interfaces[k],
            decreases self.interfaces@.len() - i,
        {
            assert(self.interfaces@[i as int]@ == start.interfaces[i as int]);
            if self.interfaces[i].link.index == index {
                let x: &mut Interface = &mut self.interfaces[i];
                x.enabled = enabled;
            }
            i = i + 1;
        }
        assert(self@.interfaces =~= want);
        proof {
            assert forall|k: int| 0 <= k < want.len() implies (#[trigger] want[k]).wf() by {
                assert(start.interfaces[k].wf());
            }
        }
    }

    /// The interfaces whose DHCP client is to start, by their indices: each
    /// needs a socket first.
    pub fn to_start(&self) -> (out: Vec<u32>)
        ensures
            out@ == starters(self@.interfaces),
    {
        let ghost all = self@.interfaces;
        let mut out: Vec<u32> = Vec::new();
        let mut i: usize = 0;
        while i < self.interfaces.len()
            invariant
                i <= self.interfaces@.len(),
                all == self@.interfaces,
                out@ == starters(all.take(i as int)),
            decreases self.interfaces@.len() - i,
        {
            assert(all.take(i + 1).drop_last() =~= all.take(i as int));
            assert(all.take(i + 1).last() == self.interfaces@[i as int]@);
            match self.interfaces[i].due() {
                Due::Start(_) => out.push(self.interfaces[i].link.index),
                _ => {},
            }
            i = i + 1;
        }
        assert(all.take(i as int) =~= all);
        out
    }

    /// Starts the DHCP clients that are due and stops those that are not.
    /// `offers` is for those whose socket is open; `stored` is the DUID on
    /// disk.
    pub fn start_dhcp_where_due(
        &mut self,
        offers: &Vec<Offer>,
        stored: &Option<Vec<u8>>,
        now: Instant,
    ) -> (tasks: Vec<Task>)
        requires
            old(self)@.wf(),
            now.nanos <= clock::HORIZON,
        ensures
            ({
                let (interfaces, duid, t) = dhcp_steps(
                    old(self)@.interfaces,
                    old(self)@.duid,
                    Terms {
                        hostname: old(self)@.hostname,
                        offers: offers@,
                        stored: config::opt_bytes(*stored),
                        now,
                    },
                );
                &&& final(self)@ == (NetdV { interfaces, duid, ..old(self)@ })
                &&& tasks_view(tasks@) == t
            }),
            final(self)@.wf(),
    {
        let ghost start = self@;
        let ghost terms = Terms {
            hostname: start.hostname,
            offers: offers@,
            stored: config::opt_bytes(*stored),
            now,
        };
        let ghost all = start.interfaces;
        let mut tasks: Vec<Task> = Vec::new();
        let mut i: usize = 0;
        assert(tasks_view(tasks@) =~= Seq::empty());
        assert(self@.interfaces.take(0) =~= Seq::empty());
        while i < self.interfaces.len()
            invariant
                i <= self.interfaces@.len(),
                start == old(self)@,
                start.wf(),
                now.nanos <= clock::HORIZON,
                all == start.interfaces,
                terms == (Terms {
                    hostname: start.hostname,
                    offers: offers@,
                    stored: config::opt_bytes(*stored),
                    now,
                }),
                self.interfaces@.len() == all.len(),
                self@ == (NetdV { interfaces: self@.interfaces, duid: self@.duid, ..start }),
                (self@.interfaces.take(i as int), self@.duid, tasks_view(tasks@)) == dhcp_steps(
                    all.take(i as int),
                    start.duid,
                    terms,
                ),
                forall|k: int|
                    i <= k < self.interfaces@.len() ==> (#[trigger] self.interfaces@[k])@ == all[k],
                forall|k: int|
                    0 <= k < i ==> (#[trigger] self.interfaces@[k])@.wf(),
            decreases self.interfaces@.len() - i,
        {
            assert(all.take(i + 1).drop_last() =~= all.take(i as int));
            assert(all.take(i + 1).last() == self.interfaces@[i as int]@);
            assert(all[i as int].wf());
            let index: u32 = self.interfaces[i].link.index;
            let ghost done = self@.interfaces.take(i as int);
            let ghost held = self.interfaces@;
            let x: &mut Interface = &mut self.interfaces[i];
            let effects: Vec<Effect> = x.dhcp_step(
                &mut self.duid,
                &self.hostname,
                offers,
                stored,
                now,
            );
            tag(index, effects, &mut tasks);
            proof {
                assert forall|k: int| 0 <= k < held.len() && k != i implies self.interfaces@[k]
                    == held[k] by {}
                assert(self@.interfaces.take(i + 1) =~= done.push(self.interfaces@[i as int]@));
            }
            i = i + 1;
        }
        assert(all.take(i as int) =~= all);
        assert(self@.interfaces.take(i as int) =~= self@.interfaces);
        tasks
    }

    /// What is to be done to the kernel, interface by interface; nothing of
    /// those that are as they should be.
    pub fn plans(&self) -> (out: Vec<(u32, Vec<Op>)>)
        ensures
            plans_view(out@) == plans_for(self@.interfaces, self@.observed),
    {
        let ghost all = self@.interfaces;
        let mut out: Vec<(u32, Vec<Op>)> = Vec::new();
        let mut i: usize = 0;
        assert(plans_view(out@) =~= Seq::empty());
        while i < self.interfaces.len()
            invariant
                i <= self.interfaces@.len(),
                all == self@.interfaces,
                plans_view(out@) == plans_for(all.take(i as int), self@.observed),
            decreases self.interfaces@.len() - i,
        {
            assert(all.take(i + 1).drop_last() =~= all.take(i as int));
            assert(all.take(i + 1).last() == self.interfaces@[i as int]@);
            match self.interfaces[i].desired() {
                Some(d) => {
                    let ops: Vec<Op> = reconcile::plan(&self.observed, &d);
                    if ops.len() > 0 {
                        let ghost before = plans_view(out@);
                        let ghost entry = (self.interfaces@[i as int].link.index, ops@);
                        out.push((self.interfaces[i].link.index, ops));
                        assert(plans_view(out@) =~= before.push(entry));
                    }
                },
                None => {},
            }
            i = i + 1;
        }
        assert(all.take(i as int) =~= all);
        out
    }

    /// The hostname the machine is to be given, if it has not been given it.
    pub fn apply_hostname(&self) -> (r: Option<String>)
        ensures
            text::opt_view(r) == self@.hostname_due(),
    {
        let name: Option<String> = match &self.hostname {
            Some(n) => Some(n.clone()),
            None => self.leased_name(),
        };
        if text::same_opt(&name, &self.hostname_set) {
            None
        } else {
            name
        }
    }

    fn leased_name(&self) -> (r: Option<String>)
        ensures
            text::opt_view(r) == offered_name(self@.interfaces),
    {
        let ghost all = self@.interfaces;
        let mut i: usize = 0;
        while i < self.interfaces.len()
            invariant
                i <= self.interfaces@.len(),
                all == self@.interfaces,
                forall|k: int| 0 <= k < i ==> (#[trigger] all[k]).offered_name() is None,
            decreases self.interfaces@.len() - i,
        {
            assert(all[i as int] == self.interfaces@[i as int]@);
            match (&self.interfaces[i].profile, &self.interfaces[i].lease) {
                (Some(p), Some(l)) => {
                    if p.address.accept_hostname {
                        match &l.hostname {
                            Some(n) => {
                                proof {
                                    offered_from(all, i as int);
                                    assert(all.skip(i as int)[0] == all[i as int]);
                                }
                                return Some(n.clone());
                            },
                            None => {},
                        }
                    }
                },
                _ => {},
            }
            i = i + 1;
        }
        proof {
            offered_from(all, i as int);
        }
        None
    }

    /// Takes note that the machine was given a hostname.
    pub fn hostname_applied(&mut self, name: String)
        ensures
            final(self)@ == (NetdV { hostname_set: Some(name@), ..old(self)@ }),
    {
        self.hostname_set = Some(name);
    }

    /// The DNS picture for resolvd.
    pub fn snapshot(&self) -> (s: Snapshot)
        ensures
            s@ == self@.snapshot(),
    {
        report::snapshot(&self.interfaces, &self.observed, &self.hostname_set)
    }

    /// The picture to send to every subscriber, if it changed since the last.
    pub fn publish(&mut self) -> (r: Option<Snapshot>)
        ensures
            (final(self)@, opt_snapshot(r)) == old(self)@.published(),
    {
        let s: Snapshot = self.snapshot();
        match &self.last_snapshot {
            Some(last) => {
                if report::same_snapshot(last, &s) {
                    return None;
                }
            },
            None => {},
        }
        self.last_snapshot = Some(s.clone());
        Some(s)
    }

    /// The whole picture.
    pub fn status(&self, now: Instant) -> (s: Status)
        requires
            self@.wf(),
        ensures
            s@ == self@.status(now),
    {
        proof {
            assert forall|k: int| 0 <= k < self.interfaces@.len() implies (
            #[trigger] self.interfaces@[k])@.wf() by {
                assert(self@.interfaces[k] == self.interfaces@[k]@);
            }
        }
        report::status(&self.interfaces, &self.observed, &self.hostname_set, now)
    }

    fn place_of(&self, name: &str) -> (n: usize)
        ensures
            n == named(self@.interfaces, name@),
            n <= self.interfaces@.len(),
    {
        let ghost all = self@.interfaces;
        let mut n: usize = 0;
        while n < self.interfaces.len() && !text::same(
            self.interfaces[n].link.name.as_str(),
            name,
        ) && !text::same(self.interfaces[n].ifid.as_str(), name)
            invariant
                n <= self.interfaces@.len(),
                all == self@.interfaces,
                forall|k: int|
                    0 <= k < n ==> (#[trigger] all[k]).link.name != name@ && all[k].ifid != name@,
            decreases self.interfaces@.len() - n,
        {
            assert(all[n as int] == self.interfaces@[n as int]@);
            n = n + 1;
        }
        proof {
            if n < self.interfaces@.len() {
                assert(all[n as int] == self.interfaces@[n as int]@);
            }
            named_at(all, name@, n as int);
        }
        n
    }

    /// Answers a request from a peer that holds the right it needs, or does
    /// not.
    pub fn handle_control(&mut self, request: &Request, permitted: bool, now: Instant) -> (r: (
        Vec<Task>,
        Answer,
    ))
        requires
            old(self)@.wf(),
            now.nanos <= clock::HORIZON,
        ensures
            (final(self)@, tasks_view(r.0@), r.1@) == old(self)@.control(request@, permitted, now),
            final(self)@.wf(),
    {
        let mut tasks: Vec<Task> = Vec::new();
        assert(tasks_view(tasks@) =~= Seq::empty());
        if !permitted {
            return (tasks, Answer::Reply(Reply::Error(String::from_str("access denied"))));
        }
        match request {
            Request::Status => (tasks, Answer::Reply(Reply::Status(self.status(now)))),
            Request::Subscribe => {
                let s: Snapshot = match &self.last_snapshot {
                    Some(s) => s.clone(),
                    None => self.snapshot(),
                };
                (tasks, Answer::Stream(s))
            },
            Request::Reconcile => (tasks, Answer::Converge),
            Request::Renew { interface } => {
                let n: usize = self.place_of(interface.as_str());
                if n >= self.interfaces.len() {
                    let e: String = text::cat2("no interface ", interface.as_str());
                    return (tasks, Answer::Reply(Reply::Error(e)));
                }
                let ghost all = self@.interfaces;
                let ghost start = self@;
                assert(all[n as int] == self.interfaces@[n as int]@);
                if self.interfaces[n].dhcp.is_none() {
                    let e: String = text::cat2(interface.as_str(), " is not using DHCP");
                    return (tasks, Answer::Reply(Reply::Error(e)));
                }
                assert(all[n as int].wf());
                let index: u32 = self.interfaces[n].link.index;
                let ghost held = self.interfaces@;
                let x: &mut Interface = &mut self.interfaces[n];
                let (effects, _changed): (Vec<Effect>, bool) = x.renew(now);
                proof {
                    assert(self@.interfaces =~= all.update(n as int, self.interfaces@[n as int]@));
                    assert forall|k: int| 0 <= k < self@.interfaces.len() implies (
                    #[trigger] self@.interfaces[k]).wf() by {
                        if k != n {
                            assert(self@.interfaces[k] == all[k]);
                        }
                    }
                }
                tag(index, effects, &mut tasks);
                assert(tasks_view(tasks@) =~= tagged(index, all[n as int].renew(now).1));
                (tasks, Answer::Reply(Reply::Done))
            },
        }
    }

    /// A message came on the interface with this index. The second result says
    /// whether the network changed in a way that needs a reconcile.
    pub fn receive(&mut self, index: u32, message: &Message, now: Instant) -> (r: (Vec<Task>, bool))
        requires
            old(self)@.wf(),
            now.nanos <= clock::HORIZON,
        ensures
            ({
                let n = place_with(old(self)@.interfaces, index);
                if n < old(self)@.interfaces.len() {
                    let (i, e, c) = old(self)@.interfaces[n].receive(now, message@);
                    &&& final(self)@ == (NetdV {
                        interfaces: old(self)@.interfaces.update(n, i),
                        ..old(self)@
                    })
                    &&& tasks_view(r.0@) == tagged(index, e)
                    &&& r.1 == c
                } else {
                    final(self)@ == old(self)@ && r.0@.len() == 0 && !r.1
                }
            }),
            final(self)@.wf(),
    {
        let ghost all = self@.interfaces;
        let mut tasks: Vec<Task> = Vec::new();
        assert(tasks_view(tasks@) =~= Seq::empty());
        let mut n: usize = 0;
        while n < self.interfaces.len() && self.interfaces[n].link.index != index
            invariant
                n <= self.interfaces@.len(),
                self@ == old(self)@,
                all == self@.interfaces,
                forall|k: int| 0 <= k < n ==> (#[trigger] all[k]).link.index != index,
            decreases self.interfaces@.len() - n,
        {
            assert(all[n as int] == self.interfaces@[n as int]@);
            n = n + 1;
        }
        proof {
            if n < self.interfaces@.len() {
                assert(all[n as int] == self.interfaces@[n as int]@);
            }
            place_with_at(all, index, n as int);
        }
        if n >= self.interfaces.len() {
            return (tasks, false);
        }
        assert(all[n as int].wf());
        let x: &mut Interface = &mut self.interfaces[n];
        let (effects, changed): (Vec<Effect>, bool) = x.receive(now, message);
        proof {
            assert(self@.interfaces =~= all.update(n as int, self.interfaces@[n as int]@));
            assert forall|k: int| 0 <= k < self@.interfaces.len() implies (
            #[trigger] self@.interfaces[k]).wf() by {
                if k != n {
                    assert(self@.interfaces[k] == all[k]);
                }
            }
        }
        tag(index, effects, &mut tasks);
        assert(tasks_view(tasks@) =~= tagged(index, all[n as int].receive(now, message@).1));
        (tasks, changed)
    }

    /// The clock moved, for every client. The second result says whether the
    /// network changed in a way that needs a reconcile.
    pub fn tick(&mut self, now: Instant) -> (r: (Vec<Task>, bool))
        requires
            old(self)@.wf(),
            now.nanos <= clock::HORIZON,
        ensures
            ({
                let (interfaces, t, c) = ticked(old(self)@.interfaces, now);
                &&& final(self)@ == (NetdV { interfaces, ..old(self)@ })
                &&& tasks_view(r.0@) == t
                &&& r.1 == c
            }),
            final(self)@.wf(),
    {
        let ghost start = self@;
        let ghost all = start.interfaces;
        let mut tasks: Vec<Task> = Vec::new();
        let mut changed: bool = false;
        let mut i: usize = 0;
        assert(tasks_view(tasks@) =~= Seq::empty());
        assert(self@.interfaces.take(0) =~= Seq::empty());
        while i < self.interfaces.len()
            invariant
                i <= self.interfaces@.len(),
                start == old(self)@,
                start.wf(),
                now.nanos <= clock::HORIZON,
                all == start.interfaces,
                self.interfaces@.len() == all.len(),
                self@ == (NetdV { interfaces: self@.interfaces, ..start }),
                (self@.interfaces.take(i as int), tasks_view(tasks@), changed) == ticked(
                    all.take(i as int),
                    now,
                ),
                forall|k: int|
                    i <= k < self.interfaces@.len() ==> (#[trigger] self.interfaces@[k])@ == all[k],
                forall|k: int| 0 <= k < i ==> (#[trigger] self.interfaces@[k])@.wf(),
            decreases self.interfaces@.len() - i,
        {
            assert(all.take(i + 1).drop_last() =~= all.take(i as int));
            assert(all.take(i + 1).last() == self.interfaces@[i as int]@);
            assert(all[i as int].wf());
            let index: u32 = self.interfaces[i].link.index;
            let ghost done = self@.interfaces.take(i as int);
            let ghost held = self.interfaces@;
            let x: &mut Interface = &mut self.interfaces[i];
            let (effects, c): (Vec<Effect>, bool) = x.tick(now);
            tag(index, effects, &mut tasks);
            changed = changed || c;
            proof {
                assert forall|k: int| 0 <= k < held.len() && k != i implies self.interfaces@[k]
                    == held[k] by {}
                assert(self@.interfaces.take(i + 1) =~= done.push(self.interfaces@[i as int]@));
            }
            i = i + 1;
        }
        assert(all.take(i as int) =~= all);
        assert(self@.interfaces.take(i as int) =~= self@.interfaces);
        (tasks, changed)
    }

    /// How many milliseconds to wait for input before some client's clock has
    /// to be looked at; minus one where none runs.
    pub fn poll_timeout(&self, now: Instant) -> (r: i32)
        requires
            self@.wf(),
        ensures
            r == wait_for(deadline_of(self@.interfaces), now),
    {
        let ghost all = self@.interfaces;
        let mut deadline: Option<Instant> = None;
        let mut i: usize = 0;
        while i < self.interfaces.len()
            invariant
                i <= self.interfaces@.len(),
                self@.wf(),
                all == self@.interfaces,
                deadline == deadline_of(all.take(i as int)),
            decreases self.interfaces@.len() - i,
        {
            assert(all.take(i + 1).drop_last() =~= all.take(i as int));
            assert(all.take(i + 1).last() == self.interfaces@[i as int]@);
            assert(all[i as int].wf());
            let next: Option<Instant> = match &self.interfaces[i].dhcp {
                Some(c) => c.next_deadline(),
                None => None,
            };
            deadline = match (deadline, next) {
                (Some(x), Some(y)) => if y.nanos < x.nanos {
                    Some(y)
                } else {
                    Some(x)
                },
                (None, y) => y,
                (x, None) => x,
            };
            i = i + 1;
        }
        assert(all.take(i as int) =~= all);
        match deadline {
            Some(t) => {
                let left: u64 = t.since(now).nanos / 1_000_000;
                if left > 0x7fff_ffff {
                    0x7fff_ffff
                } else {
                    left as i32
                }
            },
            None => -1,
        }
    }
}

/// The links that are not among these interfaces, by their indices.
pub open spec fn strangers(links: Seq<LinkV>, known: Seq<InterfaceV>) -> Seq<u32>
    decreases links.len(),
{
    if links.len() == 0 {
        Seq::empty()
    } else if find(known, links.last().index) is None {
        strangers(links.drop_last(), known).push(links.last().index)
    } else {
        strangers(links.drop_last(), known)
    }
}

/// The interfaces whose DHCP client is to start, by their indices.
pub open spec fn starters(s: Seq<InterfaceV>) -> Seq<u32>
    decreases s.len(),
{
    if s.len() == 0 {
        Seq::empty()
    } else if s.last().due() is Start {
        starters(s.drop_last()).push(s.last().link.index)
    } else {
        starters(s.drop_last())
    }
}

/// The interfaces with the one of this index switched on or off.
pub open spec fn switched(s: Seq<InterfaceV>, index: u32, enabled: bool) -> Seq<InterfaceV> {
    s.map_values(
        |i: InterfaceV|
            if i.link.index == index {
                InterfaceV { enabled, ..i }
            } else {
                i
            },
    )
}

/// Where the first interface with this index is; past the end where there is
/// none.
pub open spec fn place_with(s: Seq<InterfaceV>, index: u32) -> int
    decreases s.len(),
{
    if s.len() == 0 || s[0].link.index == index {
        0
    } else {
        1 + place_with(s.drop_first(), index)
    }
}

proof fn place_with_at(s: Seq<InterfaceV>, index: u32, n: int)
    requires
        0 <= n <= s.len(),
        forall|k: int| 0 <= k < n ==> (#[trigger] s[k]).link.index != index,
        n < s.len() ==> s[n].link.index == index,
    ensures
        place_with(s, index) == n,
    decreases n,
{
    if n > 0 {
        let t = s.drop_first();
        assert(s[0].link.index != index);
        assert forall|k: int| 0 <= k < n - 1 implies (#[trigger] t[k]).link.index != index by {
            assert(t[k] == s[k + 1]);
        }
        place_with_at(t, index, n - 1);
    }
}

/// What is to be done after a turn of the loop.
#[derive(Debug, Clone, Copy, PartialEq, Eq, Structural)]
pub enum Pass {
    /// The full pass: links, DHCP starts, reconcile, hostname, publish.
    Converge,
    /// Reconcile, hostname, publish.
    Reconcile,
    Rest,
}

/// What is to be done after a turn in which the kernel's state was read anew, the
/// configuration was, or a DHCP client changed what is wanted. The first two may
/// change every decision, so they take the full pass.
pub fn pass_after(observed: bool, configured: bool, changed: bool) -> (p: Pass)
    ensures
        p is Converge <==> observed || configured,
        p is Reconcile <==> changed && !observed && !configured,
        p is Rest <==> !observed && !configured && !changed,
{
    if observed || configured {
        Pass::Converge
    } else if changed {
        Pass::Reconcile
    } else {
        Pass::Rest
    }
}

/// How many passes are made at most.
pub const MAX_PASSES: u32 = 4;

/// Whether the passes are over: when one leaves the kernel unchanged, or when
/// enough were made. Applying changes what the next decisions see: bringing a
/// link up gives it carrier, and carrier is what starts DHCP. One pass would
/// leave that for a later event that, on a virtual NIC, has already happened.
pub fn settled(passes: u32, before: &Observed, after: &Observed) -> (r: bool)
    ensures
        r == (passes >= MAX_PASSES || before@ == after@),
{
    passes >= MAX_PASSES || before.same(after)
}

} // verus!
