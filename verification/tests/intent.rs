use netd::addr::{IpAddr, Ipv4Addr, Ipv6Addr};
use netd::clock::Instant;
use netd::netd::daemon::Netd;
use netd::netd::intent::{intent, kind_fact, may_be_up, meant};
use netd::netd::matching::{select, OnLeaseExpiry, StaticAddress};
use netd::netd::model::{Identity, Link, LinkKind, Observed};
use netd::netd::policy::Outcome;
use netd::netd::profile::{self, AddressConfig, DnsConfig, OnExpiry, Profile};
use netd::netd::reconcile::Op;

fn link(name: &str, index: u32) -> Link {
    Link {
        index,
        name: name.into(),
        mac: Some([2, 0, 0, 0, 0, 1]),
        up: true,
        carrier: true,
        loopback: false,
        mtu: 1500,
        link_type: 1,
        kind: LinkKind::Ether,
    }
}

fn v4(a: u8, b: u8, c: u8, d: u8) -> Ipv4Addr {
    Ipv4Addr::new(a, b, c, d)
}

fn v6() -> IpAddr {
    IpAddr::V6(Ipv6Addr::new(0xfd00, 0, 0, 0, 0, 0, 0, 1))
}

#[test]
fn rules_know_wired_and_wireless_links() {
    assert_eq!(kind_fact(LinkKind::Ether), Some("wired"));
    assert_eq!(kind_fact(LinkKind::Wireless), Some("wireless"));
    assert_eq!(kind_fact(LinkKind::Loopback), None);
    assert_eq!(kind_fact(LinkKind::Other), None);
}

#[test]
fn the_intent_is_what_the_profile_says_of_ipv4() {
    let mut address = AddressConfig::default();
    address.offered = true;
    address.statics = vec![
        profile::StaticAddress { address: v6(), prefix: 64 },
        profile::StaticAddress { address: IpAddr::V4(v4(10, 0, 0, 5)), prefix: 24 },
    ];
    address.gateway = Some(v4(10, 0, 0, 1));
    address.on_expiry = OnExpiry::Keep;
    address.route_metric = Some(7);
    let mut dns = DnsConfig::default();
    dns.servers = vec![IpAddr::V4(v4(9, 9, 9, 9)), v6(), IpAddr::V4(v4(1, 1, 1, 1))];
    dns.domains = vec!["corp".into()];
    dns.exclusive = true;
    let p = Profile { path: "office/london".into(), enabled: true, address, dns };

    let i = intent(&link("eth0", 2), &p);
    assert_eq!(i.name, "office/london");
    assert!(i.managed);
    assert!(i.address.dhcp4);
    assert_eq!(i.address.statics, [StaticAddress { address: v4(10, 0, 0, 5), prefix: 24 }]);
    assert_eq!(i.address.gateway, Some(v4(10, 0, 0, 1)));
    assert_eq!(i.address.on_lease_expiry, OnLeaseExpiry::Keep);
    assert_eq!(i.address.route_metric, Some(7));
    assert_eq!(i.dns.servers, [v4(9, 9, 9, 9), v4(1, 1, 1, 1)]);
    assert_eq!(i.dns.search, ["corp"]);
    assert!(i.dns.exclusive && !i.dns.use_from_dhcp);
}

#[test]
fn no_dhcp_where_ipv4_is_not_in_play() {
    let mut address = AddressConfig::default();
    address.offered = true;
    address.ipv4 = false;
    let p = Profile { path: "six".into(), enabled: true, address, dns: DnsConfig::default() };
    assert!(!intent(&link("eth0", 2), &p).address.dhcp4);
}

#[test]
fn what_is_meant_for_a_link_claims_that_link() {
    let p = Profile {
        path: "default".into(),
        enabled: true,
        address: AddressConfig::default(),
        dns: DnsConfig::default(),
    };
    let meant = vec![intent(&link("eth0", 2), &p)];
    let nowhere = Identity { path: "".into(), driver: "".into() };
    assert!(select(&meant, &link("eth0", 2), &nowhere).is_some());
    assert!(select(&meant, &link("eth1", 3), &nowhere).is_none());
}

#[test]
fn a_judgment_says_what_is_wanted_of_a_link() {
    let eth0 = link("eth0", 2);
    assert_eq!(meant(&eth0, &Outcome::Ignore), None);
    let p = Profile {
        path: "default".into(),
        enabled: true,
        address: AddressConfig::default(),
        dns: DnsConfig::default(),
    };
    let joined = meant(&eth0, &Outcome::Join(p.clone())).unwrap();
    assert!(joined.up);
    assert_eq!(joined.profile, intent(&eth0, &p));
    let down = meant(&eth0, &Outcome::Down).unwrap();
    assert!(!down.up && down.profile.managed && !down.profile.address.dhcp4);
    assert_eq!(down.profile.name, "DOWN");
    assert_eq!(down.profile.matches.name.as_deref(), Some("eth0"));
}

#[test]
fn a_link_judged_down_is_taken_down_and_nothing_else() {
    let nowhere = Identity { path: "".into(), driver: "".into() };
    let down = meant(&link("eth0", 2), &Outcome::Down).unwrap();
    let mut n = Netd::new(None, vec![down.profile]);
    n.observed = Observed { links: vec![link("eth0", 2)], addresses: vec![], routes: vec![] };
    n.sync_links(&vec![(2, nowhere)], Instant { nanos: 0 });
    n.set_enabled(2, down.up);
    assert!(n.to_start().is_empty());
    assert_eq!(n.plans(), vec![(2, vec![Op::LinkDown(2)])]);
}

#[test]
fn an_interface_may_be_up_unless_disabled_or_kept_down() {
    let down = vec![3, 5];
    assert!(may_be_up(true, &down, 4));
    assert!(!may_be_up(true, &down, 5));
    assert!(!may_be_up(false, &down, 4));
    assert!(!may_be_up(false, &down, 3));
    assert!(may_be_up(true, &vec![], 3));
}
