use netd::addr::{IpAddr, Ipv4Addr, Ipv6Addr};
use netd::netd::model::{Address, Link, LinkKind, Observed, Route, RTPROT_NETD};
use netd::netd::reconcile::{apply, failed, plan, Desired, DesiredV6, Op, Outcome};

/// A kernel that does what it is told.
struct FakeRtnl {
    state: Observed,
}

impl FakeRtnl {
    fn take(&mut self, ops: &[Op]) -> Vec<Outcome> {
        for op in ops {
            match op {
                Op::LinkUp(i) => self.set_link_up(*i, true),
                Op::LinkDown(i) => self.set_link_up(*i, false),
                Op::Mtu(..) => {}
                Op::AddAddress(a, _) => self.state.addresses.push(*a),
                Op::DelAddress(a) => self.state.addresses.retain(|x| x != a),
                Op::AddRoute(r) => self.state.routes.push(*r),
                Op::DelRoute(r) => self.state.routes.retain(|x| x != r),
            }
        }
        vec![Outcome::Done; ops.len()]
    }

    fn set_link_up(&mut self, index: u32, up: bool) {
        for l in &mut self.state.links {
            if l.index == index {
                l.up = up;
                l.carrier = up;
            }
        }
    }
}

fn observed() -> Observed {
    let mut o = Observed::default();
    o.insert_link(
        Link {
            index: 2,
            name: "eth0".into(),
            mac: None,
            up: false,
            carrier: false,
            loopback: false,
            mtu: 1500,
            link_type: 1,
            kind: LinkKind::Ether,
        },
    );
    o
}

#[test]
fn a_fresh_link_is_brought_up_addressed_and_routed() {
    let o = observed();
    let d = Desired {
        index: 2,
        up: true,
        addresses: vec![(Ipv4Addr::new(10, 0, 2, 15), 24)],
        default_route: Some((Ipv4Addr::new(10, 0, 2, 2), 100)),
        ..Default::default()
    };
    let ops = plan(&o, &d);
    assert!(matches!(ops[0], Op::LinkUp(2)));
    assert!(matches!(ops[1], Op::AddAddress(..)));
    assert!(matches!(ops[2], Op::AddRoute(ref r) if r.is_default()));
    let mut fake = FakeRtnl { state: o };
    assert_eq!(apply(&ops, &fake.take(&ops)), 0);
    // Converged: the second plan is empty.
    assert!(plan(&fake.state, &d).is_empty());
}

#[test]
fn a_manual_address_is_reverted_but_a_foreign_route_is_kept() {
    let mut o = observed();
    o.addresses
        .push(Address::new(2, IpAddr::parse("192.168.9.9").unwrap(), 24));
    o.routes.push(Route {
        index: 2,
        destination: IpAddr::V4(Ipv4Addr::new(10, 9, 0, 0)),
        prefix: 16,
        gateway: Some(IpAddr::V4(Ipv4Addr::new(10, 0, 2, 1))),
        metric: 0,
        protocol: 4, // RTPROT_STATIC: somebody else's
    });
    let d = Desired {
        index: 2,
        up: true,
        addresses: vec![(Ipv4Addr::new(10, 0, 2, 15), 24)],
        ..Default::default()
    };
    let ops = plan(&o, &d);
    assert!(ops.iter().any(|o| matches!(o, Op::DelAddress(a) if a.prefix == 24 && a.address.to_text() == "192.168.9.9")));
    assert!(!ops.iter().any(|o| matches!(o, Op::DelRoute(_))));
}

#[test]
fn a_stale_netd_route_is_removed() {
    let mut o = observed();
    o.routes.push(Route {
        index: 2,
        destination: IpAddr::V4(Ipv4Addr::unspecified()),
        prefix: 0,
        gateway: Some(IpAddr::V4(Ipv4Addr::new(10, 0, 2, 2))),
        metric: 100,
        protocol: RTPROT_NETD,
    });
    let d = Desired {
        index: 2,
        up: true,
        ..Default::default()
    };
    let ops = plan(&o, &d);
    assert!(
        ops.iter()
            .any(|o| matches!(o, Op::DelRoute(r) if r.is_default()))
    );
}

#[test]
fn slaac_addresses_and_the_v6_default_route_land_beside_v4() {
    let mut o = observed();
    o.links[0].up = true;
    // The kernel's link-local is already there, and must be left alone.
    o.addresses.push(Address::new(2, IpAddr::parse("fe80::5054:ff:fe01:203").unwrap(), 64));
    let d = Desired {
        index: 2,
        up: true,
        addresses6: vec![DesiredV6 {
            address: Ipv6Addr::parse("fd00::1234").unwrap(),
            prefix: 64,
            deprecated: false,
            no_prefix_route: false,
        }],
        default_route6: Some((Ipv6Addr::parse("fe80::2").unwrap(), 100)),
        ..Default::default()
    };
    let ops = plan(&o, &d);
    assert!(
        ops.iter().any(
            |op| matches!(op, Op::AddAddress(a, _) if a.address.to_text() == "fd00::1234")
        )
    );
    assert!(
        ops.iter()
            .any(|op| matches!(op, Op::AddRoute(r) if r.is_default() && !r.is_v4()))
    );
    assert!(
        !ops.iter().any(|op| matches!(op, Op::DelAddress(_))),
        "the link-local stays: {ops:?}"
    );
    let mut fake = FakeRtnl { state: o };
    assert_eq!(apply(&ops, &fake.take(&ops)), 0);
    assert!(plan(&fake.state, &d).is_empty(), "converged");
}

#[test]
fn deprecation_is_a_replacing_add_never_a_delete() {
    let mut o = observed();
    o.links[0].up = true;
    o.addresses
        .push(Address::new(2, IpAddr::parse("fd00::1234").unwrap(), 64));
    let d = Desired {
        index: 2,
        up: true,
        addresses6: vec![DesiredV6 {
            address: Ipv6Addr::parse("fd00::1234").unwrap(),
            prefix: 64,
            deprecated: true,
            no_prefix_route: false,
        }],
        ..Default::default()
    };
    let ops = plan(&o, &d);
    assert!(
        !ops.iter().any(|op| matches!(op, Op::DelAddress(_))),
        "{ops:?}"
    );
    assert!(
        ops.iter()
            .any(|op| matches!(op, Op::AddAddress(a, _) if a.deprecated)),
        "the flag change is a replacing add: {ops:?}"
    );
}

#[test]
fn a_foreign_global_v6_address_is_reverted() {
    let mut o = observed();
    o.links[0].up = true;
    o.addresses
        .push(Address::new(2, IpAddr::parse("2001:db8::9").unwrap(), 64));
    let d = Desired {
        index: 2,
        up: true,
        ..Default::default()
    };
    let ops = plan(&o, &d);
    assert!(
        ops.iter().any(
            |op| matches!(op, Op::DelAddress(a) if a.address.to_text() == "2001:db8::9")
        )
    );
}

#[test]
fn unmanaged_desired_down_takes_the_link_down_last() {
    let mut o = observed();
    o.links[0].up = true;
    let d = Desired {
        index: 2,
        up: false,
        ..Default::default()
    };
    let ops = plan(&o, &d);
    assert_eq!(ops, vec![Op::LinkDown(2)]);
}

#[test]
fn what_the_kernel_did_first_is_no_failure() {
    let r = Route {
        index: 2,
        destination: IpAddr::V4(Ipv4Addr::unspecified()),
        prefix: 0,
        gateway: None,
        metric: 1,
        protocol: RTPROT_NETD,
    };
    assert!(!failed(&Op::AddRoute(r), Outcome::of(Some(17))));
    assert!(failed(&Op::AddRoute(r), Outcome::of(Some(2))));
    assert!(!failed(&Op::DelRoute(r), Outcome::of(Some(2))));
    assert!(!failed(&Op::DelRoute(r), Outcome::of(Some(3))));
    assert!(failed(&Op::DelRoute(r), Outcome::of(Some(17))));
    assert!(failed(&Op::LinkUp(2), Outcome::of(Some(17))));
    assert!(failed(&Op::AddRoute(r), Outcome::of(Some(1))));
    assert!(failed(&Op::AddRoute(r), Outcome::of(None)));
    assert_eq!(
        apply(
            &vec![Op::LinkUp(2), Op::AddRoute(r), Op::DelRoute(r)],
            &vec![Outcome::Failed, Outcome::Exists, Outcome::Exists]
        ),
        2
    );
}

#[test]
fn a_link_that_is_not_there_gets_no_plan() {
    let d = Desired { index: 9, up: true, ..Default::default() };
    assert!(plan(&observed(), &d).is_empty());
}

#[test]
fn the_mtu_is_set_only_where_it_differs() {
    let mut o = observed();
    o.links[0].up = true;
    let mut d = Desired { index: 2, up: true, mtu: Some(1400), ..Default::default() };
    assert_eq!(plan(&o, &d), vec![Op::Mtu(2, 1400)]);
    d.mtu = Some(1500);
    assert!(plan(&o, &d).is_empty());
}
