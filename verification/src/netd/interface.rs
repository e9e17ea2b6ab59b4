//! One managed (or at least seen) interface: what it is, what is wanted of it,
//! and what its DHCP client's actions do to it.

use vstd::prelude::*;
use vstd::string::*;
use crate::addr::Ipv4Addr;
use crate::clock::Instant;
use crate::dhcp4::client;
use crate::dhcp4::client::{Action, ActionV, Client, ClientV, Destination};
use crate::dhcp4::packet::{Lease, Message, MessageV};
use crate::dhcp4::packet::lease;
use crate::dhcp4::packet::lease::{LeaseV, StaticRoute};
use crate::libnetd::Level;
use crate::text;
use super::matching::{OnLeaseExpiry, Profile, ProfileV, StaticAddress};
use super::model;
use super::model::{Address, Identity, Link, LinkKind, LinkV, Observed, ObservedV, Route};
use super::reconcile;
use super::reconcile::{Desired, DesiredV};

verus! {

/// One managed (or at least seen) interface.
pub struct Interface {
    pub ifid: String,
    pub identity: Identity,
    pub link: Link,
    pub profile: Option<Profile>,
    pub enabled: bool,
    pub dhcp: Option<Client>,
    pub lease: Option<Lease>,
    /// Set once discovery has gone unanswered; cleared on a lease.
    pub link_local: Option<Ipv4Addr>,
}

/// The same as values.
#[verifier::ext_equal]
pub struct InterfaceV {
    pub ifid: Seq<char>,
    pub path: Seq<char>,
    pub driver: Seq<char>,
    pub link: LinkV,
    pub profile: Option<ProfileV>,
    pub enabled: bool,
    pub dhcp: Option<ClientV>,
    pub lease: Option<LeaseV>,
    pub link_local: Option<Ipv4Addr>,
}

/// A profile that may be absent, as values.
pub open spec fn opt_profile(p: Option<Profile>) -> Option<ProfileV> {
    match p {
        Some(p) => Some(p@),
        None => None,
    }
}

/// A lease that may be absent, as values.
pub open spec fn opt_lease(l: Option<Lease>) -> Option<LeaseV> {
    match l {
        Some(l) => Some(l@),
        None => None,
    }
}

/// A client that may be absent, as values.
pub open spec fn opt_client(c: Option<Client>) -> Option<ClientV> {
    match c {
        Some(c) => Some(c@),
        None => None,
    }
}

impl View for Interface {
    type V = InterfaceV;

    open spec fn view(&self) -> InterfaceV {
        InterfaceV {
            ifid: self.ifid@,
            path: self.identity.path@,
            driver: self.identity.driver@,
            link: self.link@,
            profile: opt_profile(self.profile),
            enabled: self.enabled,
            dhcp: opt_client(self.dhcp),
            lease: opt_lease(self.lease),
            link_local: self.link_local,
        }
    }
}

/// A message to send, or something to do with what is kept on disk.
#[derive(Debug, PartialEq, Eq)]
pub enum Effect {
    Send { message: Message, destination: Destination },
    /// Write the leased address down, for the next start.
    Remember(Lease),
    /// Strike it out.
    Forget,
}

/// The same as values.
#[verifier::ext_equal]
pub enum EffectV {
    Send { message: MessageV, destination: Destination },
    Remember(LeaseV),
    Forget,
}

impl View for Effect {
    type V = EffectV;

    open spec fn view(&self) -> EffectV {
        match self {
            Effect::Send { message, destination } => EffectV::Send {
                message: message@,
                destination: *destination,
            },
            Effect::Remember(l) => EffectV::Remember(l@),
            Effect::Forget => EffectV::Forget,
        }
    }
}

/// Effects as values.
pub open spec fn effects_view(s: Seq<Effect>) -> Seq<EffectV> {
    s.map_values(|e: Effect| e@)
}

// ---- what it is ------------------------------------------------------------

/// The metric of a wireless link, unless its profile says otherwise.
pub const WIRELESS_METRIC: u32 = 600;

/// The metric of any other.
pub const PLAIN_METRIC: u32 = 100;

/// What an interface contributes to name resolution, before routing.
#[derive(Debug, PartialEq, Eq)]
pub struct DnsFacts {
    pub servers: Vec<Ipv4Addr>,
    pub search: Vec<String>,
}

/// The routes of a lease that are not its default, by this metric.
pub open spec fn routes_of(s: Seq<StaticRoute>, metric: u32) -> Seq<(Ipv4Addr, u8, Ipv4Addr, u32)>
    decreases s.len(),
{
    if s.len() == 0 {
        Seq::empty()
    } else if s.last().prefix > 0 {
        routes_of(s.drop_last(), metric).push(
            (s.last().destination, s.last().prefix, s.last().gateway, metric),
        )
    } else {
        routes_of(s.drop_last(), metric)
    }
}

/// Fixed addresses as pairs.
pub open spec fn pairs(s: Seq<StaticAddress>) -> Seq<(Ipv4Addr, u8)> {
    s.map_values(|a: StaticAddress| (a.address, a.prefix))
}

/// Whether some address of a list is not a loopback address.
pub open spec fn any_usable(s: Seq<Address>) -> bool {
    exists|k: int| 0 <= k < s.len() && !(#[trigger] s[k]).address.loopback()
}

/// Whether some route of a list is a default route.
pub open spec fn any_default(s: Seq<Route>) -> bool {
    exists|k: int| 0 <= k < s.len() && (#[trigger] s[k]).prefix == 0
}

impl InterfaceV {
    /// Whether the DHCP client is in order.
    pub open spec fn wf(self) -> bool {
        self.dhcp matches Some(c) ==> c.wf()
    }

    /// Whether a profile says to configure the interface. The loopback never
    /// is.
    pub open spec fn managed(self) -> bool {
        (self.profile matches Some(p) && p.managed) && !self.link.loopback
    }

    /// The metric of its routes.
    pub open spec fn metric(self) -> u32 {
        match self.profile {
            Some(p) => match p.address.route_metric {
                Some(m) => m,
                None => if self.link.kind == LinkKind::Wireless {
                    WIRELESS_METRIC
                } else {
                    PLAIN_METRIC
                },
            },
            None => if self.link.kind == LinkKind::Wireless {
                WIRELESS_METRIC
            } else {
                PLAIN_METRIC
            },
        }
    }

    /// The packet size limit wanted of it: the profile's, else the lease's.
    pub open spec fn wanted_mtu(self, p: ProfileV) -> Option<u32> {
        match p.address.mtu {
            Some(m) => Some(m),
            None => match self.lease {
                Some(l) => match l.mtu {
                    Some(m) => Some(m as u32),
                    None => None,
                },
                None => None,
            },
        }
    }

    /// The addresses wanted of it: the profile's, then the lease's; one of its
    /// own choosing where there is neither.
    pub open spec fn wanted_addresses(self, p: ProfileV) -> Seq<(Ipv4Addr, u8)> {
        let fixed = pairs(p.address.statics);
        match self.lease {
            Some(l) => fixed.push((l.address, l.prefix)),
            None => match self.link_local {
                Some(a) => if fixed.len() == 0 {
                    fixed.push((a, 16))
                } else {
                    fixed
                },
                None => fixed,
            },
        }
    }

    /// The way out wanted of it: the profile's, else the lease's.
    pub open spec fn wanted_gateway(self, p: ProfileV) -> Option<Ipv4Addr> {
        match p.address.gateway {
            Some(g) => Some(g),
            None => match self.lease {
                Some(l) => lease::lease_gateway(l),
                None => None,
            },
        }
    }

    /// What is wanted of it.
    pub open spec fn desired(self) -> Option<DesiredV> {
        match self.profile {
            None => None,
            Some(p) => if !self.managed() {
                None
            } else if !self.enabled {
                Some(DesiredV { index: self.link.index, ..reconcile::nothing_wanted() })
            } else {
                Some(
                    DesiredV {
                        index: self.link.index,
                        up: true,
                        mtu: self.wanted_mtu(p),
                        addresses: self.wanted_addresses(p),
                        broadcast: match self.lease {
                            Some(l) => l.broadcast,
                            None => None,
                        },
                        default_route: match self.wanted_gateway(p) {
                            Some(g) => Some((g, self.metric())),
                            None => None,
                        },
                        routes: match self.lease {
                            Some(l) => routes_of(l.static_routes, self.metric()),
                            None => Seq::empty(),
                        },
                        ..reconcile::nothing_wanted()
                    },
                )
            },
        }
    }

    /// How far along it is.
    pub open spec fn level(self, o: ObservedV) -> Level {
        if !(self.link.up && self.link.carrier) {
            Level::Absent
        } else if !any_usable(model::addresses_on(o.addresses, self.link.index)) {
            Level::Link
        } else if any_default(model::routes_on(o.routes, self.link.index)) {
            Level::Routed
        } else {
            Level::Addressed
        }
    }

    /// The name servers it contributes: the profile's, then the lease's where
    /// the profile believes them.
    pub open spec fn dns_servers(self) -> Seq<Ipv4Addr> {
        match self.profile {
            Some(p) => match self.lease {
                Some(l) => if p.dns.use_from_dhcp {
                    p.dns.servers + l.dns
                } else {
                    p.dns.servers
                },
                None => p.dns.servers,
            },
            None => Seq::empty(),
        }
    }

    /// The search domains it contributes, likewise; the lease's domain where it
    /// has no list of them.
    pub open spec fn dns_search(self) -> Seq<Seq<char>> {
        match self.profile {
            Some(p) => match self.lease {
                Some(l) => if !p.dns.use_from_dhcp {
                    p.dns.search
                } else if l.search.len() > 0 {
                    p.dns.search + l.search
                } else {
                    match l.domain {
                        Some(d) => p.dns.search.push(d),
                        None => p.dns.search,
                    }
                },
                None => p.dns.search,
            },
            None => Seq::empty(),
        }
    }
}

fn no_facts() -> (f: DnsFacts)
    ensures
        f.servers@ == Seq::<Ipv4Addr>::empty(),
        text::list_view(f.search@) == Seq::<Seq<char>>::empty(),
{
    let f: DnsFacts = DnsFacts { servers: Vec::new(), search: Vec::new() };
    assert(text::list_view(f.search@) =~= Seq::empty());
    f
}

fn fixed_pairs(v: &Vec<StaticAddress>) -> (r: Vec<(Ipv4Addr, u8)>)
    ensures
        r@ == pairs(v@),
{
    let mut r: Vec<(Ipv4Addr, u8)> = Vec::new();
    let mut i: usize = 0;
    while i < v.len()
        invariant
            i <= v@.len(),
            r@.len() == i,
            forall|k: int| 0 <= k < i ==> #[trigger] r@[k] == (v@[k].address, v@[k].prefix),
        decreases v@.len() - i,
    {
        r.push((v[i].address, v[i].prefix));
        i = i + 1;
    }
    assert(r@ =~= pairs(v@));
    r
}

fn lease_routes(v: &Vec<StaticRoute>, metric: u32) -> (r: Vec<(Ipv4Addr, u8, Ipv4Addr, u32)>)
    ensures
        r@ == routes_of(v@, metric),
{
    let mut r: Vec<(Ipv4Addr, u8, Ipv4Addr, u32)> = Vec::new();
    let mut i: usize = 0;
    while i < v.len()
        invariant
            i <= v@.len(),
            r@ == routes_of(v@.take(i as int), metric),
        decreases v@.len() - i,
    {
        assert(v@.take(i + 1).drop_last() =~= v@.take(i as int));
        if v[i].prefix > 0 {
            r.push((v[i].destination, v[i].prefix, v[i].gateway, metric));
        }
        i = i + 1;
    }
    assert(v@.take(i as int) =~= v@);
    r
}

fn has_usable(v: &Vec<Address>) -> (r: bool)
    ensures
        r == any_usable(v@),
{
    let mut i: usize = 0;
    while i < v.len()
        invariant
            i <= v@.len(),
            forall|k: int| 0 <= k < i ==> (#[trigger] v@[k]).address.loopback(),
        decreases v@.len() - i,
    {
        if !v[i].address.is_loopback() {
            assert(!v@[i as int].address.loopback());
            return true;
        }
        i = i + 1;
    }
    false
}

fn has_default(v: &Vec<Route>) -> (r: bool)
    ensures
        r == any_default(v@),
{
    let mut i: usize = 0;
    while i < v.len()
        invariant
            i <= v@.len(),
            forall|k: int| 0 <= k < i ==> (#[trigger] v@[k]).prefix != 0,
        decreases v@.len() - i,
    {
        if v[i].is_default() {
            assert(v@[i as int].prefix == 0);
            return true;
        }
        i = i + 1;
    }
    false
}

impl Interface {
    pub fn managed(&self) -> (r: bool)
        ensures
            r == self@.managed(),
    {
        match &self.profile {
            Some(p) => p.managed && !self.link.loopback,
            None => false,
        }
    }

    pub fn metric(&self) -> (r: u32)
        ensures
            r == self@.metric(),
    {
        match &self.profile {
            Some(p) => match p.address.route_metric {
                Some(m) => {
                    return m;
                },
                None => {},
            },
            None => {},
        }
        match self.link.kind {
            LinkKind::Wireless => WIRELESS_METRIC,
            _ => PLAIN_METRIC,
        }
    }

    fn mtu(&self, p: &Profile) -> (r: Option<u32>)
        ensures
            r == self@.wanted_mtu(p@),
    {
        match p.address.mtu {
            Some(m) => Some(m),
            None => match &self.lease {
                Some(l) => match l.mtu {
                    Some(m) => Some(m as u32),
                    None => None,
                },
                None => None,
            },
        }
    }

    fn addresses(&self, p: &Profile) -> (r: Vec<(Ipv4Addr, u8)>)
        ensures
            r@ == self@.wanted_addresses(p@),
    {
        let mut r: Vec<(Ipv4Addr, u8)> = fixed_pairs(&p.address.statics);
        match &self.lease {
            Some(l) => {
                r.push((l.address, l.prefix));
            },
            None => match self.link_local {
                Some(a) => {
                    if r.len() == 0 {
                        r.push((a, 16));
                    }
                },
                None => {},
            },
        }
        r
    }

    fn gateway(&self, p: &Profile) -> (r: Option<Ipv4Addr>)
        ensures
            r == self@.wanted_gateway(p@),
    {
        match p.address.gateway {
            Some(g) => Some(g),
            None => match &self.lease {
                Some(l) => l.gateway(),
                None => None,
            },
        }
    }

    /// What is wanted of the interface; nothing at all of one that is not
    /// managed.
    pub fn desired(&self) -> (r: Option<Desired>)
        ensures
            match (r, self@.desired()) {
                (Some(d), Some(e)) => d@ == e,
                (None, None) => true,
                _ => false,
            },
    {
        let p: &Profile = match &self.profile {
            Some(p) => p,
            None => {
                return None;
            },
        };
        if !self.managed() {
            return None;
        }
        let mut d: Desired = Desired::default();
        d.index = self.link.index;
        if !self.enabled {
            return Some(d);
        }
        d.up = true;
        d.mtu = self.mtu(p);
        d.addresses = self.addresses(p);
        let metric: u32 = self.metric();
        match &self.lease {
            Some(l) => {
                d.broadcast = l.broadcast;
                d.routes = lease_routes(&l.static_routes, metric);
            },
            None => {},
        }
        match self.gateway(p) {
            Some(g) => {
                d.default_route = Some((g, metric));
            },
            None => {},
        }
        Some(d)
    }

    pub fn level(&self, observed: &Observed) -> (r: Level)
        ensures
            r == self@.level(observed@),
    {
        if !(self.link.up && self.link.carrier) {
            return Level::Absent;
        }
        let addresses: Vec<Address> = observed.addresses_of(self.link.index);
        if !has_usable(&addresses) {
            return Level::Link;
        }
        let routes: Vec<Route> = observed.routes_of(self.link.index);
        if has_default(&routes) {
            Level::Routed
        } else {
            Level::Addressed
        }
    }

    pub fn dns(&self) -> (f: DnsFacts)
        ensures
            f.servers@ == self@.dns_servers(),
            text::list_view(f.search@) == self@.dns_search(),
    {
        let mut f: DnsFacts = no_facts();
        match &self.profile {
            None => {},
            Some(p) => {
                f.servers = vstd::slice::slice_to_vec(p.dns.servers.as_slice());
                f.search = text::copy_list(&p.dns.search);
                if p.dns.use_from_dhcp {
                    match &self.lease {
                        None => {},
                        Some(l) => {
                            let mut more: Vec<Ipv4Addr> = vstd::slice::slice_to_vec(
                                l.dns.as_slice(),
                            );
                            f.servers.append(&mut more);
                            let ghost before = text::list_view(f.search@);
                            if l.search.len() > 0 {
                                let mut domains: Vec<String> = text::copy_list(&l.search);
                                let ghost added = text::list_view(domains@);
                                f.search.append(&mut domains);
                                assert(text::list_view(f.search@) =~= before + added);
                            } else {
                                match &l.domain {
                                    Some(d) => {
                                        f.search.push(d.clone());
                                        assert(text::list_view(f.search@) =~= before.push(d@));
                                    },
                                    None => {},
                                }
                            }
                        },
                    }
                }
            },
        }
        f
    }
}

// ---- what its client's actions do ------------------------------------------

/// The stable pseudo-random choice of a self-assigned address that RFC 3927
/// section 2.1 allows, seeded by the hardware address, else by the index.
pub open spec fn own_choice(mac: Option<Seq<u8>>, index: u32) -> Ipv4Addr {
    let seed = match mac {
        Some(m) => (m[2] * 0x100_0000 + m[3] * 0x1_0000 + m[4] * 0x100 + m[5]) as int,
        None => index as int * 2654435761 % 0x1_0000_0000,
    };
    Ipv4Addr { bits: (0xa9fe_0000 + 256 + seed % 64768) as u32 }
}

/// A self-assigned address for an interface. No probing yet.
pub fn link_local_for(mac: Option<&[u8; 6]>, index: u32) -> (a: Ipv4Addr)
    ensures
        a == own_choice(
            match mac {
                Some(m) => Some(m@),
                None => None,
            },
            index,
        ),
{
    let seed: u64 = match mac {
        Some(m) => m[2] as u64 * 0x100_0000 + m[3] as u64 * 0x1_0000 + m[4] as u64 * 0x100
            + m[5] as u64,
        None => index as u64 * 2654435761 % 0x1_0000_0000,
    };
    Ipv4Addr { bits: (0xa9fe_0000 + 256 + seed % 64768) as u32 }
}

/// What an interface becomes, what is to be done about it, and whether the
/// network changed in a way that needs a reconcile.
pub type Performed = (InterfaceV, Seq<EffectV>, bool);

impl InterfaceV {
    /// One action carried out.
    pub open spec fn act(self, a: ActionV) -> Performed {
        match a {
            ActionV::Send { message, destination } => (
                self,
                if self.dhcp is Some {
                    seq![EffectV::Send { message, destination }]
                } else {
                    Seq::empty()
                },
                false,
            ),
            ActionV::Bound(l) => (
                InterfaceV { lease: Some(l), link_local: None, ..self },
                seq![EffectV::Remember(l)],
                true,
            ),
            ActionV::NoOffer => if (self.profile matches Some(p) && p.address.link_local)
                && self.link_local is None {
                (
                    InterfaceV {
                        link_local: Some(own_choice(self.link.mac, self.link.index)),
                        ..self
                    },
                    Seq::empty(),
                    true,
                )
            } else {
                (self, Seq::empty(), false)
            },
            ActionV::Lost => if self.profile matches Some(p) && p.address.on_lease_expiry
                == OnLeaseExpiry::Keep {
                (self, Seq::empty(), false)
            } else {
                (InterfaceV { lease: None, ..self }, seq![EffectV::Forget], true)
            },
        }
    }

    /// Actions carried out one after another.
    pub open spec fn perform(self, actions: Seq<ActionV>) -> Performed
        decreases actions.len(),
    {
        if actions.len() == 0 {
            (self, Seq::empty(), false)
        } else {
            let (i, e, c) = self.perform(actions.drop_last());
            let (j, f, d) = i.act(actions.last());
            (j, e + f, c || d)
        }
    }

    /// The DHCP client stopped, its address given back, and what came of it
    /// dropped.
    pub open spec fn stop_dhcp(self, now: Instant) -> (InterfaceV, Seq<EffectV>) {
        (
            InterfaceV { dhcp: None, lease: None, link_local: None, ..self },
            match self.dhcp {
                Some(c) => sends(c.release(now).1),
                None => Seq::empty(),
            },
        )
    }
}

/// The messages among a client's actions.
pub open spec fn sends(actions: Seq<ActionV>) -> Seq<EffectV>
    decreases actions.len(),
{
    if actions.len() == 0 {
        Seq::empty()
    } else {
        match actions.last() {
            ActionV::Send { message, destination } => sends(actions.drop_last()).push(
                EffectV::Send { message, destination },
            ),
            _ => sends(actions.drop_last()),
        }
    }
}

fn take_sends(actions: Vec<Action>) -> (out: Vec<Effect>)
    ensures
        effects_view(out@) == sends(client::views(actions@)),
{
    let ghost all = client::views(actions@);
    let ghost given = actions@;
    let mut rest: Vec<Action> = actions;
    let mut out: Vec<Effect> = Vec::new();
    let ghost mut done: int = 0;
    assert(effects_view(out@) =~= Seq::empty());
    assert(rest@ =~= given.skip(0));
    while rest.len() > 0
        invariant
            all == client::views(given),
            0 <= done <= given.len(),
            rest@ == given.skip(done),
            effects_view(out@) == sends(all.take(done)),
        decreases rest@.len(),
    {
        let a: Action = rest.remove(0);
        proof {
            assert(a == given[done]);
            assert(all.take(done + 1).drop_last() =~= all.take(done));
            assert(all.take(done + 1).last() == a@);
            assert(rest@ =~= given.skip(done + 1));
            done = done + 1;
        }
        let ghost before = effects_view(out@);
        match a {
            Action::Send { message, destination } => {
                let ghost e = EffectV::Send { message: message@, destination };
                out.push(Effect::Send { message, destination });
                assert(effects_view(out@) =~= before.push(e));
            },
            _ => {},
        }
    }
    assert(all.take(done) =~= all);
    out
}

impl Interface {
    /// Stops the DHCP client, if there is one: the messages to send, and an
    /// interface without a lease or an address of its own choosing.
    pub fn stop_dhcp(&mut self, now: Instant) -> (out: Vec<Effect>)
        requires
            old(self)@.wf(),
        ensures
            (final(self)@, effects_view(out@)) == old(self)@.stop_dhcp(now),
            final(self)@.wf(),
    {
        let mut out: Vec<Effect> = Vec::new();
        assert(effects_view(out@) =~= Seq::empty());
        match self.dhcp.take() {
            Some(c) => {
                let mut client: Client = c;
                let actions: Vec<Action> = client.release(now);
                out = take_sends(actions);
            },
            None => {},
        }
        self.lease = None;
        self.link_local = None;
        out
    }

    fn act(&mut self, action: Action, out: &mut Vec<Effect>) -> (changed: bool)
        ensures
            (final(self)@, effects_view(final(out)@), changed) == ({
                let (i, e, c) = old(self)@.act(action@);
                (i, effects_view(old(out)@) + e, c)
            }),
    {
        let ghost before = effects_view(out@);
        match action {
            Action::Send { message, destination } => {
                if self.dhcp.is_some() {
                    let ghost e = EffectV::Send { message: message@, destination };
                    out.push(Effect::Send { message, destination });
                    assert(effects_view(out@) =~= before + seq![e]);
                } else {
                    assert(before =~= before + Seq::<EffectV>::empty());
                }
                false
            },
            Action::Bound(lease) => {
                let copy: Lease = lease.clone();
                let ghost e = EffectV::Remember(lease@);
                out.push(Effect::Remember(lease));
                assert(effects_view(out@) =~= before + seq![e]);
                self.lease = Some(copy);
                self.link_local = None;
                true
            },
            Action::NoOffer => {
                assert(before =~= before + Seq::<EffectV>::empty());
                let wanted: bool = match &self.profile {
                    Some(p) => p.address.link_local,
                    None => false,
                };
                if wanted && self.link_local.is_none() {
                    self.link_local = Some(link_local_for(self.link.mac.as_ref(), self.link.index));
                    true
                } else {
                    false
                }
            },
            Action::Lost => {
                let keep: bool = match &self.profile {
                    Some(p) => p.address.on_lease_expiry == OnLeaseExpiry::Keep,
                    None => false,
                };
                if keep {
                    assert(before =~= before + Seq::<EffectV>::empty());
                    false
                } else {
                    self.lease = None;
                    out.push(Effect::Forget);
                    assert(effects_view(out@) =~= before + seq![EffectV::Forget]);
                    true
                }
            },
        }
    }

    /// Carries out the state machine's actions: what is to be done about them,
    /// and whether the network changed in a way that needs a reconcile.
    pub fn perform(&mut self, actions: Vec<Action>) -> (r: (Vec<Effect>, bool))
        requires
            old(self)@.wf(),
        ensures
            (final(self)@, effects_view(r.0@), r.1) == old(self)@.perform(
                client::views(actions@),
            ),
            final(self)@.wf(),
    {
        let ghost start = self@;
        let ghost all = client::views(actions@);
        let ghost given = actions@;
        let mut rest: Vec<Action> = actions;
        let mut out: Vec<Effect> = Vec::new();
        let mut changed: bool = false;
        let ghost mut done: int = 0;
        assert(effects_view(out@) =~= Seq::empty());
        assert(rest@ =~= given.skip(0));
        assert(all.take(0) =~= Seq::empty());
        while rest.len() > 0
            invariant
                all == client::views(given),
                start == old(self)@,
                0 <= done <= given.len(),
                rest@ == given.skip(done),
                (self@, effects_view(out@), changed) == start.perform(all.take(done)),
                self@.wf(),
            decreases rest@.len(),
        {
            let a: Action = rest.remove(0);
            proof {
                assert(a == given[done]);
                assert(all.take(done + 1).drop_last() =~= all.take(done));
                assert(all.take(done + 1).last() == a@);
                assert(rest@ =~= given.skip(done + 1));
                done = done + 1;
            }
            let c: bool = self.act(a, &mut out);
            changed = changed || c;
        }
        assert(all.take(done) =~= all);
        (out, changed)
    }
}

// ---- laws ------------------------------------------------------------------

/// A self-assigned address is in 169.254.1.0 to 169.254.254.255, which leaves
/// the first and the last 256 addresses of the block alone.
pub proof fn own_choices_are_in_range(mac: Option<Seq<u8>>, index: u32)
    requires
        mac matches Some(m) ==> m.len() == 6,
    ensures
        0xa9fe_0100 <= own_choice(mac, index).bits <= 0xa9fe_feff,
{
}

/// Nothing but that it be down is wanted of an interface that is switched off,
/// and nothing at all of one that no profile manages.
pub proof fn a_disabled_interface_is_only_taken_down(i: InterfaceV)
    ensures
        !i.managed() ==> i.desired() is None,
        i.managed() && !i.enabled ==> i.desired() == Some(
            DesiredV { index: i.link.index, ..reconcile::nothing_wanted() },
        ),
        i.link.loopback ==> i.desired() is None,
{
}

/// A self-assigned address is wanted only while nothing better is known: no
/// lease, and no fixed address.
pub proof fn a_lease_ends_the_self_assigned_address(i: InterfaceV, l: LeaseV)
    ensures
        i.act(ActionV::Bound(l)).0.link_local is None,
        i.act(ActionV::Bound(l)).0.lease == Some(l),
        i.desired() matches Some(d) ==> (i.lease is Some && i.enabled ==> d.addresses
            == i.wanted_addresses(i.profile->Some_0) && d.addresses.len()
            == i.profile->Some_0.address.statics.len() + 1),
{
}

/// A lost lease that the profile keeps changes nothing; any other is dropped,
/// struck out and reconciled away.
pub proof fn a_lost_lease_is_dropped_unless_kept(i: InterfaceV)
    ensures
        ({
            let keep = i.profile matches Some(p) && p.address.on_lease_expiry
                == OnLeaseExpiry::Keep;
            let (j, e, c) = i.act(ActionV::Lost);
            if keep {
                j == i && e.len() == 0 && !c
            } else {
                j.lease is None && e == seq![EffectV::Forget] && c
            }
        }),
{
}

/// Actions that only send leave the interface as it is and need no reconcile.
pub proof fn sending_changes_nothing(i: InterfaceV, actions: Seq<ActionV>)
    requires
        forall|k: int| 0 <= k < actions.len() ==> (#[trigger] actions[k]) is Send,
    ensures
        i.perform(actions).0 == i,
        !i.perform(actions).2,
    decreases actions.len(),
{
    if actions.len() > 0 {
        sending_changes_nothing(i, actions.drop_last());
        assert(actions.last() is Send);
    }
}

/// An interface whose client was stopped carries nothing that came from it.
pub proof fn a_stopped_client_leaves_nothing(i: InterfaceV, now: Instant)
    ensures
        ({
            let j = i.stop_dhcp(now).0;
            &&& j.dhcp is None
            &&& j.lease is None
            &&& j.link_local is None
            &&& j.profile == i.profile
            &&& j.link == i.link
        }),
{
}

} // verus!
