use netd::addr::{Ipv4Addr, Ipv6Addr};
use netd::netd::networks::{subnet_of, Signals};

#[test]
fn the_same_offer_is_the_same_network_and_a_different_one_is_not() {
    let a = Signals {
        kind: "wired".into(),
        server: Some(Ipv4Addr::new(10, 0, 2, 2)),
        subnet: Some(subnet_of(Ipv4Addr::new(10, 0, 2, 15), 24)),
        ..Default::default()
    };
    let mut b = Signals { kind: "wired".into(), server: a.server, ..Default::default() };
    b.subnet = Some(subnet_of(Ipv4Addr::new(10, 0, 2, 99), 24));
    assert_eq!(a.identity(), b.identity(), "another address in the same subnet");
    b.server = Some(Ipv4Addr::new(10, 0, 3, 1));
    assert_ne!(a.identity(), b.identity(), "another server");
    assert_eq!(a.identity().unwrap().len(), 36);
}

#[test]
fn nothing_identifying_means_no_network_yet() {
    assert_eq!(Signals::default().identity(), None);
    let v6 = Signals {
        kind: "wired".into(),
        router6: Some(Ipv6Addr::parse("fe80::1").unwrap()),
        prefixes6: vec![(Ipv6Addr::parse("2001:db8::").unwrap(), 64)],
        ..Default::default()
    };
    assert!(v6.identity().is_some());
}

#[test]
fn subnets_mask() {
    assert_eq!(
        subnet_of(Ipv4Addr::new(192, 168, 1, 77), 24),
        (Ipv4Addr::new(192, 168, 1, 0), 24)
    );
    assert_eq!(subnet_of(Ipv4Addr::new(10, 1, 2, 3), 0), (Ipv4Addr::new(0, 0, 0, 0), 0));
}

#[test]
fn identities_are_digests_of_what_was_offered() {
    let offer = Signals {
        kind: "wired".into(),
        server: Some(Ipv4Addr::new(10, 0, 2, 2)),
        subnet: Some(subnet_of(Ipv4Addr::new(10, 0, 2, 15), 24)),
        router6: Some(Ipv6Addr::parse("fe80::1").unwrap()),
        ..Default::default()
    };
    assert_eq!(offer.identity().unwrap(), "1e928e4e-2a16-5232-a018-4e6bc4eb6dff");
    let advert = Signals {
        kind: "wired".into(),
        router6: Some(Ipv6Addr::parse("fe80::1").unwrap()),
        prefixes6: vec![(Ipv6Addr::parse("2001:db8::").unwrap(), 64)],
        ..Default::default()
    };
    assert_eq!(advert.identity().unwrap(), "89cabc54-892f-5fad-833a-4c4eabf5ced5");
    let routerless = Signals { prefixes6: vec![(Ipv6Addr { bits: 1 }, 64)], ..Default::default() };
    assert_eq!(routerless.identity(), None);
}
