//! What a judgment comes to for one link.
//!
//! A profile that a rule put a link in says how the link stands on its
//! network, in both families. The daemon addresses a link in IPv4, from a
//! profile that claims the link by its name.

use vstd::prelude::*;
use vstd::string::*;
use crate::addr;
use crate::addr::{IpAddr, Ipv4Addr};
use crate::text;
use super::interface::InterfaceV;
use super::matching;
use super::model::{Link, LinkKind, LinkV};
use super::policy::{Outcome, OutcomeV};
use super::profile;
use super::profile::OnExpiry;
use super::reconcile;
use super::reconcile::DesiredV;

verus! {

/// How the rules call a link of this kind; one that is neither wired nor
/// wireless has no such fact.
pub open spec fn kind_called(kind: LinkKind) -> Option<Seq<char>> {
    match kind {
        LinkKind::Ether => Some("wired"@),
        LinkKind::Wireless => Some("wireless"@),
        LinkKind::Loopback | LinkKind::Other => None,
    }
}

/// The name by which the rules know a kind of link.
pub fn kind_fact(kind: LinkKind) -> (r: Option<&'static str>)
    ensures
        match r {
            Some(s) => kind_called(kind) == Some(s@),
            None => kind_called(kind) is None,
        },
{
    match kind {
        LinkKind::Ether => Some("wired"),
        LinkKind::Wireless => Some("wireless"),
        LinkKind::Loopback | LinkKind::Other => None,
    }
}

/// The IPv4 addresses among these, in their order.
pub open spec fn v4_statics(s: Seq<profile::StaticAddress>) -> Seq<matching::StaticAddress>
    decreases s.len(),
{
    if s.len() == 0 {
        Seq::empty()
    } else {
        let before = v4_statics(s.drop_last());
        match s.last().address {
            IpAddr::V4(address) => before.push(
                matching::StaticAddress { address, prefix: s.last().prefix },
            ),
            IpAddr::V6(_) => before,
        }
    }
}

/// The IPv4 servers among these, in their order.
pub open spec fn v4_servers(s: Seq<IpAddr>) -> Seq<Ipv4Addr>
    decreases s.len(),
{
    if s.len() == 0 {
        Seq::empty()
    } else {
        match s.last() {
            IpAddr::V4(a) => v4_servers(s.drop_last()).push(a),
            IpAddr::V6(_) => v4_servers(s.drop_last()),
        }
    }
}

/// What a link of this name is to be under this profile.
pub open spec fn intended(name: Seq<char>, p: profile::ProfileV) -> matching::ProfileV {
    matching::ProfileV {
        name: p.path,
        priority: 0,
        managed: true,
        matches: matching::MatchV {
            name: Some(name),
            mac: None,
            path: None,
            driver: None,
            kind: None,
        },
        address: matching::AddressConfigV {
            dhcp4: p.address.offered && p.address.ipv4,
            statics: v4_statics(p.address.statics),
            gateway: p.address.gateway,
            link_local: p.address.link_local,
            on_lease_expiry: match p.address.on_expiry {
                OnExpiry::Keep => matching::OnLeaseExpiry::Keep,
                OnExpiry::Drop => matching::OnLeaseExpiry::Drop,
            },
            send_hostname: p.address.announce_hostname,
            accept_hostname: p.address.accept_hostname,
            route_metric: p.address.route_metric,
            mtu: p.address.mtu,
        },
        dns: matching::DnsConfigV {
            servers: v4_servers(p.dns.servers),
            search: p.dns.domains,
            use_from_dhcp: p.dns.offered,
            default_route: p.dns.default_route,
            exclusive: p.dns.exclusive,
        },
    }
}

fn statics_in(s: &Vec<profile::StaticAddress>) -> (out: Vec<matching::StaticAddress>)
    ensures
        out@ == v4_statics(s@),
{
    let mut out: Vec<matching::StaticAddress> = Vec::new();
    let mut i: usize = 0;
    while i < s.len()
        invariant
            i <= s@.len(),
            out@ == v4_statics(s@.take(i as int)),
        decreases s@.len() - i,
    {
        assert(s@.take(i + 1).drop_last() =~= s@.take(i as int));
        match s[i].address {
            IpAddr::V4(address) => {
                out.push(matching::StaticAddress { address, prefix: s[i].prefix });
            },
            IpAddr::V6(_) => {},
        }
        i = i + 1;
    }
    assert(s@.take(i as int) =~= s@);
    out
}

fn servers_in(s: &Vec<IpAddr>) -> (out: Vec<Ipv4Addr>)
    ensures
        out@ == v4_servers(s@),
{
    let mut out: Vec<Ipv4Addr> = Vec::new();
    let mut i: usize = 0;
    while i < s.len()
        invariant
            i <= s@.len(),
            out@ == v4_servers(s@.take(i as int)),
        decreases s@.len() - i,
    {
        assert(s@.take(i + 1).drop_last() =~= s@.take(i as int));
        match s[i] {
            IpAddr::V4(a) => {
                out.push(a);
            },
            IpAddr::V6(_) => {},
        }
        i = i + 1;
    }
    assert(s@.take(i as int) =~= s@);
    out
}

/// What this link is to be under this profile.
pub fn intent(link: &Link, p: &profile::Profile) -> (r: matching::Profile)
    ensures
        r@ == intended(link@.name, p@),
{
    matching::Profile {
        name: p.path.clone(),
        priority: 0,
        managed: true,
        matches: matching::Match {
            name: Some(link.name.clone()),
            mac: None,
            path: None,
            driver: None,
            kind: None,
        },
        address: matching::AddressConfig {
            dhcp4: p.address.dhcp4(),
            statics: statics_in(&p.address.statics),
            gateway: p.address.gateway,
            link_local: p.address.link_local,
            on_lease_expiry: match p.address.on_expiry {
                OnExpiry::Keep => matching::OnLeaseExpiry::Keep,
                OnExpiry::Drop => matching::OnLeaseExpiry::Drop,
            },
            send_hostname: p.address.announce_hostname,
            accept_hostname: p.address.accept_hostname,
            route_metric: p.address.route_metric,
            mtu: p.address.mtu,
        },
        dns: matching::DnsConfig {
            servers: servers_in(&p.dns.servers),
            search: text::copy_list(&p.dns.domains),
            use_from_dhcp: p.dns.offered,
            default_route: p.dns.default_route,
            exclusive: p.dns.exclusive,
        },
    }
}

/// How the profile of a link that is kept down is called.
pub open spec fn down_called() -> Seq<char> {
    "DOWN"@
}

/// What manages a link of this name and asks nothing for it.
pub open spec fn held(name: Seq<char>) -> matching::ProfileV {
    matching::ProfileV {
        name: down_called(),
        priority: 0,
        managed: true,
        matches: matching::MatchV {
            name: Some(name),
            mac: None,
            path: None,
            driver: None,
            kind: None,
        },
        address: matching::AddressConfigV {
            dhcp4: false,
            statics: Seq::empty(),
            gateway: None,
            link_local: false,
            on_lease_expiry: matching::OnLeaseExpiry::Drop,
            send_hostname: false,
            accept_hostname: false,
            route_metric: None,
            mtu: None,
        },
        dns: matching::DnsConfigV {
            servers: Seq::empty(),
            search: Seq::empty(),
            use_from_dhcp: false,
            default_route: None,
            exclusive: false,
        },
    }
}

/// What is wanted of a link: the profile that claims it, and whether it may be
/// up at all.
#[derive(Debug, PartialEq, Eq)]
pub struct Intent {
    pub profile: matching::Profile,
    pub up: bool,
}

/// The same as values.
#[verifier::ext_equal]
pub struct IntentV {
    pub profile: matching::ProfileV,
    pub up: bool,
}

impl View for Intent {
    type V = IntentV;

    open spec fn view(&self) -> IntentV {
        IntentV { profile: self.profile@, up: self.up }
    }
}

/// What a judgment wants of a link of this name: to stand in the profile it
/// joins, to be kept down, or nothing where it is left alone.
pub open spec fn meant_for(name: Seq<char>, outcome: OutcomeV) -> Option<IntentV> {
    match outcome {
        OutcomeV::Join(p) => Some(IntentV { profile: intended(name, p), up: true }),
        OutcomeV::Down => Some(IntentV { profile: held(name), up: false }),
        OutcomeV::Ignore => None,
    }
}

/// What a judgment wants of this link.
pub fn meant(link: &Link, outcome: &Outcome) -> (r: Option<Intent>)
    ensures
        match r {
            Some(x) => meant_for(link@.name, outcome@) == Some(x@),
            None => meant_for(link@.name, outcome@) is None,
        },
{
    match outcome {
        Outcome::Join(p) => Some(Intent { profile: intent(link, p), up: true }),
        Outcome::Down => {
            let profile: matching::Profile = matching::Profile {
                name: "DOWN".to_owned(),
                priority: 0,
                managed: true,
                matches: matching::Match {
                    name: Some(link.name.clone()),
                    mac: None,
                    path: None,
                    driver: None,
                    kind: None,
                },
                address: matching::AddressConfig::default(),
                dns: matching::DnsConfig::default(),
            };
            assert(profile@ =~= held(link@.name));
            Some(Intent { profile, up: false })
        },
        Outcome::Ignore => None,
    }
}

/// Whether an interface may be up: it is enabled, and no judgment keeps its link
/// down.
pub fn may_be_up(enabled: bool, down: &Vec<u32>, index: u32) -> (r: bool)
    ensures
        r == (enabled && !down@.contains(index)),
{
    let mut i: usize = 0;
    while i < down.len()
        invariant
            i <= down@.len(),
            forall|k: int| 0 <= k < i ==> #[trigger] down@[k] != index,
        decreases down@.len() - i,
    {
        if down[i] == index {
            return false;
        }
        i = i + 1;
    }
    enabled
}

proof fn index_of_is_no_less_than_zero(s: Seq<char>, c: char)
    ensures
        addr::index_of(s, c) >= 0,
    decreases s.len(),
{
    if s.len() > 0 {
        index_of_is_no_less_than_zero(s.drop_first(), c);
    }
}

/// What is meant for a link claims it, whatever the link is connected to.
pub proof fn what_is_meant_for_a_link_claims_it(
    link: LinkV,
    path: Seq<char>,
    driver: Seq<char>,
    outcome: OutcomeV,
)
    ensures
        meant_for(link.name, outcome) matches Some(x) ==> matching::claims(
            x.profile.matches,
            link,
            path,
            driver,
        ),
{
    let low = text::lowered(link.name);
    let star = addr::index_of(low, '*');
    if star < low.len() {
        index_of_is_no_less_than_zero(low, '*');
        assert(low =~= (low.take(star) + seq![low[star]]) + low.skip(star + 1));
    }
}

/// An interface that a judgment keeps down, and that is therefore switched off,
/// is taken down and nothing else is wanted of it; one that is ignored is not
/// touched.
pub proof fn a_link_judged_down_is_kept_down(i: InterfaceV, outcome: OutcomeV)
    requires
        !i.link.loopback,
        match meant_for(i.link.name, outcome) {
            Some(x) => i.profile == Some(x.profile) && i.enabled == x.up,
            None => i.profile is None,
        },
    ensures
        outcome is Down ==> i.desired() == Some(
            DesiredV { index: i.link.index, ..reconcile::nothing_wanted() },
        ) && !reconcile::nothing_wanted().up,
        outcome is Ignore ==> i.desired() is None,
        outcome is Join ==> (i.desired() matches Some(d) && d.up),
{
}

} // verus!
