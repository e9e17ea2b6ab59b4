use netd::netd::matching::{glob, select, AddressConfig, DnsConfig, Match, Profile};
use netd::netd::model::{Identity, Link, LinkKind};

fn link() -> Link {
    Link {
        index: 2,
        name: "enp0s3".into(),
        mac: Some([0x52, 0x54, 0, 1, 2, 3]),
        up: false,
        carrier: false,
        loopback: false,
        mtu: 1500,
        link_type: 1,
        kind: LinkKind::Ether,
    }
}

fn profile(name: &str, priority: u32, m: Match) -> Profile {
    Profile {
        name: name.into(),
        priority,
        managed: true,
        matches: m,
        address: AddressConfig::default(),
        dns: DnsConfig::default(),
    }
}

#[test]
fn globs() {
    assert!(glob("en*", "enp0s3"));
    assert!(glob("*", "anything"));
    assert!(glob("52:54:*", "52:54:00:01:02:03"));
    assert!(!glob("eth*", "enp0s3"));
    assert!(glob("ENP0S3", "enp0s3"));
}

#[test]
fn every_given_key_must_match_and_none_matches_nothing() {
    let id = Identity { path: "pci-0000:00:03.0".into(), driver: "virtio_net".into() };
    let l = link();
    assert!(netd::netd::matching::matches(&Match { driver: Some("virtio_net".into()), ..Default::default() }, &l, &id));
    assert!(!netd::netd::matching::matches(
        &Match { driver: Some("virtio_net".into()), name: Some("eth*".into()), ..Default::default() },
        &l,
        &id
    ));
    assert!(!netd::netd::matching::matches(&Match::default(), &l, &id));
    assert!(netd::netd::matching::matches(&Match { kind: Some("ether".into()), ..Default::default() }, &l, &id));
}

#[test]
fn first_in_priority_order_wins() {
    let id = Identity::default();
    let profiles = vec![
        profile("specific", 200, Match { name: Some("enp0s3".into()), ..Default::default() }),
        profile("any", 100, Match { kind: Some("ether".into()), ..Default::default() }),
    ];
    assert_eq!(select(&profiles, &link(), &id).unwrap().name, "specific");
}
