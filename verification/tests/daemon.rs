use netd::addr::{IpAddr, Ipv4Addr};
use netd::clock::{Duration, Instant};
use netd::dhcp4::packet::option;
use netd::dhcp4::{Destination, Message, MessageType};
use netd::libnetd::{Level, Reply, Request};
use netd::netd::daemon::{pass_after, settled, Answer, Netd, Offer, Pass, Task};
use netd::netd::interface::{link_local_for, Effect};
use netd::netd::inventory::{enabled, set_sz, Found, Record};
use netd::netd::matching::{
    AddressConfig, DnsConfig, Match, OnLeaseExpiry, Profile, StaticAddress,
};
use netd::netd::model::{Address, Identity, Link, LinkKind, Observed, Route, RTPROT_NETD};
use netd::netd::reconcile::Op;

const NOW: Instant = Instant { nanos: 9_000_000_000 };
const MAC: [u8; 6] = [0x52, 0x54, 0, 1, 2, 3];
const SERVER: Ipv4Addr = Ipv4Addr { bits: 0x0a00_0202 };
const LEASED: Ipv4Addr = Ipv4Addr { bits: 0x0a00_020f };

fn link(index: u32, name: &str) -> Link {
    Link {
        index,
        name: name.into(),
        mac: Some(MAC),
        up: true,
        carrier: true,
        loopback: false,
        mtu: 1500,
        link_type: 1,
        kind: LinkKind::Ether,
    }
}

fn profile() -> Profile {
    Profile {
        name: "lan".into(),
        priority: 100,
        managed: true,
        matches: Match { kind: Some("ether".into()), ..Default::default() },
        address: AddressConfig {
            dhcp4: true,
            link_local: true,
            send_hostname: true,
            accept_hostname: true,
            ..Default::default()
        },
        dns: DnsConfig { use_from_dhcp: true, ..Default::default() },
    }
}

fn identity() -> Identity {
    Identity { path: "pci-0000:00:03.0".into(), driver: "virtio_net".into() }
}

/// A daemon with one wired link.
fn daemon(p: Profile) -> Netd {
    let mut n = Netd::new(None, vec![p]);
    n.observed.insert_link(link(2, "eth0"));
    assert_eq!(n.newcomers(), [2]);
    assert!(n.sync_links(&vec![(2, identity())], NOW).is_empty());
    assert!(n.newcomers().is_empty());
    n
}

fn started() -> (Netd, Message) {
    let mut n = daemon(profile());
    assert_eq!(n.to_start(), [2]);
    let offers = vec![Offer { index: 2, seed: 42, previous: None }];
    let tasks = n.start_dhcp_where_due(&offers, &None, NOW);
    assert!(n.to_start().is_empty());
    (n, message(tasks))
}

fn message(mut tasks: Vec<Task>) -> Message {
    assert_eq!(tasks.len(), 1);
    match tasks.remove(0).effect {
        Effect::Send { message, .. } => message,
        other => panic!("{other:?}"),
    }
}

fn reply(to: &Message, kind: MessageType) -> Message {
    let mut m = Message::request(to.xid, MAC);
    m.is_reply = true;
    m.yiaddr = LEASED;
    m.options.push(option::MESSAGE_TYPE, vec![kind.code()]);
    m.options.push(option::SERVER_ID, SERVER.octets().to_vec());
    m.options.push(option::LEASE_TIME, 3600u32.to_be_bytes().to_vec());
    m.options.push(option::SUBNET_MASK, vec![255, 255, 255, 0]);
    m.options.push(option::ROUTER, vec![10, 0, 2, 2]);
    m.options.push(option::DNS, vec![10, 0, 2, 3]);
    m.options.push(option::HOSTNAME, b"box".to_vec());
    m
}

fn bound() -> Netd {
    let (mut n, discover) = started();
    let (tasks, changed) = n.receive(2, &reply(&discover, MessageType::Offer), NOW);
    assert!(!changed);
    let request = message(tasks);
    let (tasks, changed) = n.receive(2, &reply(&request, MessageType::Ack), NOW);
    assert!(changed);
    assert!(matches!(&tasks[..], [Task { index: 2, effect: Effect::Remember(l) }] if l.address == LEASED));
    n
}

#[test]
fn a_wired_link_gets_a_lease_and_is_configured() {
    let mut n = bound();
    assert_eq!(n.duid, Some(vec![0, 3, 0, 1, 0x52, 0x54, 0, 1, 2, 3]));
    let plans = n.plans();
    assert_eq!(plans.len(), 1);
    let (index, ops) = &plans[0];
    assert_eq!(*index, 2);
    let mine = Address::new(2, IpAddr::V4(LEASED), 24);
    assert!(ops.iter().any(|o| matches!(o, Op::AddAddress(a, _) if *a == mine)));
    assert!(ops.iter().any(|o| matches!(o, Op::AddRoute(r) if r.is_default() && r.metric == 100)));
    // Once the kernel has them, nothing is left to do and the machine is routed.
    n.observed.addresses.push(mine);
    n.observed.routes.push(Route {
        index: 2,
        destination: IpAddr::V4(Ipv4Addr::unspecified()),
        prefix: 0,
        gateway: Some(IpAddr::V4(SERVER)),
        metric: 100,
        protocol: RTPROT_NETD,
    });
    assert!(n.plans().is_empty());
    let s = n.status(NOW);
    assert_eq!(s.level, Level::Routed);
    assert_eq!(s.interfaces[0].addresses, ["10.0.2.15/24"]);
    assert_eq!(s.interfaces[0].gateway.as_deref(), Some("10.0.2.2"));
    assert_eq!(s.interfaces[0].dns, ["10.0.2.3"]);
    assert_eq!(s.interfaces[0].profile.as_deref(), Some("lan"));
    let lease = s.interfaces[0].lease.as_ref().unwrap();
    assert_eq!((lease.server.as_str(), lease.expires_in, lease.state.as_str()), ("10.0.2.2", 3600, "bound"));
    let picture = n.snapshot();
    assert_eq!(picture.scopes.len(), 1);
    assert_eq!(picture.scopes[0].servers, ["10.0.2.3"]);
    assert!(picture.scopes[0].default_route);
}

#[test]
fn a_leased_hostname_is_applied_once() {
    let mut n = bound();
    assert_eq!(n.apply_hostname().as_deref(), Some("box"));
    n.hostname_applied("box".into());
    assert_eq!(n.apply_hostname(), None);
    n.hostname = Some("tower".into());
    assert_eq!(n.apply_hostname().as_deref(), Some("tower"));
}

#[test]
fn a_picture_is_published_when_it_changes() {
    let mut n = bound();
    assert!(n.publish().is_some());
    assert!(n.publish().is_none());
    n.hostname_applied("box".into());
    assert_eq!(n.publish().unwrap().hostname, "box");
}

#[test]
fn a_refused_request_changes_nothing_and_says_so() {
    let mut n = bound();
    let before = n.status(NOW);
    let renew = Request::Renew { interface: "eth0".into() };
    let (tasks, answer) = n.handle_control(&renew, false, NOW);
    assert!(tasks.is_empty());
    assert!(matches!(answer, Answer::Reply(Reply::Error(_))));
    assert_eq!(n.status(NOW), before);
}

#[test]
fn requests_are_answered_in_kind() {
    let mut n = bound();
    let (tasks, answer) = n.handle_control(&Request::Status, true, NOW);
    assert!(tasks.is_empty());
    assert_eq!(answer, Answer::Reply(Reply::Status(n.status(NOW))));
    let (_, answer) = n.handle_control(&Request::Subscribe, true, NOW);
    assert_eq!(answer, Answer::Stream(n.snapshot()));
    let (_, answer) = n.handle_control(&Request::Reconcile, true, NOW);
    assert_eq!(answer, Answer::Converge);
    let nowhere = Request::Renew { interface: "eth9".into() };
    let (tasks, answer) = n.handle_control(&nowhere, true, NOW);
    assert!(tasks.is_empty() && matches!(answer, Answer::Reply(Reply::Error(_))));
    let here = Request::Renew { interface: "eth0".into() };
    let (tasks, answer) = n.handle_control(&here, true, NOW);
    assert_eq!(answer, Answer::Reply(Reply::Done));
    let m = message(tasks);
    assert_eq!(m.message_type(), Some(MessageType::Request));
    assert_eq!(m.ciaddr, LEASED);
}

#[test]
fn a_lost_lease_is_dropped_unless_it_is_kept() {
    for keep in [false, true] {
        let mut n = bound();
        if keep {
            let p = n.interfaces[0].profile.as_mut().unwrap();
            p.address.on_lease_expiry = OnLeaseExpiry::Keep;
        }
        for early in [1800, 3150] {
            let (_, changed) = n.tick(NOW.plus(Duration::from_secs(early)));
            assert!(!changed);
        }
        let (tasks, changed) = n.tick(NOW.plus(Duration::from_secs(3600)));
        assert_eq!(changed, !keep);
        assert_eq!(n.interfaces[0].lease.is_some(), keep);
        let forgot = tasks.iter().any(|t| t.effect == Effect::Forget);
        assert_eq!(forgot, !keep);
    }
}

#[test]
fn silence_ends_in_a_self_assigned_address() {
    let (mut n, _) = started();
    for _ in 0..3 {
        let wait = n.poll_timeout(NOW);
        assert!(wait > 0);
        let due = n.interfaces[0].dhcp.as_ref().unwrap().next_deadline().unwrap();
        n.tick(due);
    }
    let own = link_local_for(Some(&MAC), 2);
    assert_eq!(n.interfaces[0].link_local, Some(own));
    assert_eq!(own.octets()[..2], [169, 254]);
    assert!(own.octets()[2] >= 1 && own.octets()[2] <= 254);
    // From the last four bytes of the hardware address.
    let seed = 0x0001_0203u32;
    assert_eq!(own.bits, 0xa9fe_0000 + 256 + seed % 64768);
    assert_eq!(link_local_for(None, 2).bits, 0xa9fe_0000 + 256 + 2u32.wrapping_mul(2654435761) % 64768);
}

#[test]
fn a_link_that_goes_takes_its_interface_along() {
    let mut n = bound();
    n.observed = Observed::default();
    n.sync_links(&vec![], NOW);
    assert!(n.interfaces.is_empty());
    assert!(n.plans().is_empty());
    assert_eq!(n.poll_timeout(NOW), -1);
}

#[test]
fn a_disabled_interface_gives_its_lease_back() {
    let mut n = bound();
    n.set_enabled(2, false);
    let tasks = n.start_dhcp_where_due(&vec![], &None, NOW);
    let mut released = false;
    for t in &tasks {
        if let Effect::Send { message, destination } = &t.effect {
            released = message.message_type() == Some(MessageType::Release);
            assert!(matches!(destination, Destination::Unicast { .. }));
        }
    }
    assert!(released);
    assert!(n.interfaces[0].dhcp.is_none());
    assert_eq!(n.plans()[0].1, vec![Op::LinkDown(2)]);
}

#[test]
fn static_addresses_need_no_client() {
    let mut p = profile();
    p.address.dhcp4 = false;
    p.address.statics = vec![StaticAddress { address: Ipv4Addr::new(10, 0, 0, 5), prefix: 24 }];
    p.address.gateway = Some(Ipv4Addr::new(10, 0, 0, 1));
    p.address.route_metric = Some(7);
    let n = daemon(p);
    assert!(n.to_start().is_empty());
    let d = n.interfaces[0].desired().unwrap();
    assert_eq!(d.addresses, vec![(Ipv4Addr::new(10, 0, 0, 5), 24)]);
    assert_eq!(d.default_route, Some((Ipv4Addr::new(10, 0, 0, 1), 7)));
}

#[test]
fn the_registry_record_says_what_was_found() {
    let l = link(2, "eth0");
    let id = identity();
    let r = Record { ifid: "id", link: &l, identity: &id, profile: Some("lan") };
    let v = r.values();
    let v: Vec<(&str, &str)> = v.iter().map(|(a, b)| (a.as_str(), b.as_str())).collect();
    assert_eq!(
        v,
        [
            ("Name", "eth0"),
            ("MAC", "52:54:00:01:02:03"),
            ("Path", "pci-0000:00:03.0"),
            ("Driver", "virtio_net"),
            ("Type", "ether"),
            ("Profile", "lan"),
        ]
    );
    assert_eq!(set_sz(&Some(b"eth0\0".to_vec()), "eth0"), None);
    assert_eq!(set_sz(&Some(vec![0xff]), "eth0"), Some(b"eth0\0".to_vec()));
    assert_eq!(set_sz(&None, "eth0"), Some(b"eth0\0".to_vec()));
}

#[test]
fn interfaces_are_on_unless_switched_off() {
    assert_eq!(enabled(&Found::Number(vec![0, 0, 0, 0])), (false, false));
    assert_eq!(enabled(&Found::Number(vec![0, 1, 0, 0])), (true, false));
    assert_eq!(enabled(&Found::Number(vec![0])), (true, false));
    assert_eq!(enabled(&Found::Other), (true, false));
    assert_eq!(enabled(&Found::Nothing), (true, true));
}

#[test]
fn passes_end_when_nothing_changes_or_after_four() {
    let picture = |up: bool| {
        let mut l = link(2, "eth0");
        l.up = up;
        Observed { links: vec![l], addresses: vec![], routes: vec![] }
    };
    assert!(settled(1, &picture(true), &picture(true)));
    assert!(!settled(1, &picture(false), &picture(true)));
    assert!(!settled(3, &picture(false), &picture(true)));
    assert!(settled(4, &picture(false), &picture(true)));
    let mut addressed = picture(true);
    addressed.addresses.push(Address {
        index: 2,
        address: IpAddr::V4(Ipv4Addr::new(10, 0, 0, 5)),
        prefix: 24,
        deprecated: false,
        tentative: false,
        no_prefix_route: false,
    });
    assert!(!settled(1, &picture(true), &addressed));
    assert!(addressed.same(&addressed));
}

#[test]
fn a_turn_ends_with_the_pass_it_calls_for() {
    for changed in [false, true] {
        assert_eq!(pass_after(true, false, changed), Pass::Converge);
        assert_eq!(pass_after(false, true, changed), Pass::Converge);
        assert_eq!(pass_after(true, true, changed), Pass::Converge);
    }
    assert_eq!(pass_after(false, false, true), Pass::Reconcile);
    assert_eq!(pass_after(false, false, false), Pass::Rest);
}
