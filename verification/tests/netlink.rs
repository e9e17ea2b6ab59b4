use netlink_packet_core::{
    DoneMessage, ErrorMessage, NetlinkHeader, NetlinkMessage, NetlinkPayload,
};
use netlink_packet_route::link::{LinkAttribute, LinkFlags, LinkLayerType, LinkMessage};
use netlink_packet_route::RouteNetlinkMessage;

use netd::addr::{IpAddr, Ipv4Addr, Ipv6Addr};
use netd::netd::model::{Address, LinkKind, Observed, Route, RTPROT_NETD};
use netd::netd::reconcile::Op;
use netd::netd::netlink::{
    add_address, add_route, address_from_message, del_address, del_route, dump_addresses,
    dump_links, dump_routes, link_name, next_answer, next_sequence, receive, request,
    route_from_message, set_link_up, set_mtu, Answer, Body, Step, Wanted,
};

fn ip(a: u8, b: u8, c: u8, d: u8) -> IpAddr {
    IpAddr::V4(Ipv4Addr::new(a, b, c, d))
}

fn route() -> Route {
    Route {
        index: 3,
        destination: ip(10, 1, 0, 0),
        prefix: 16,
        gateway: Some(ip(10, 0, 2, 9)),
        metric: 100,
        protocol: RTPROT_NETD,
    }
}

/// Bytes as the outside crate writes them.
fn packed(sequence: u32, payload: NetlinkPayload<RouteNetlinkMessage>) -> Vec<u8> {
    let mut header = NetlinkHeader::default();
    header.sequence_number = sequence;
    let mut m = NetlinkMessage::new(header, payload);
    m.finalize();
    let mut b = vec![0; m.buffer_len()];
    m.serialize(&mut b);
    b
}

fn link_message(sequence: u32, flags: u32, ether: bool) -> Vec<u8> {
    let mut l = LinkMessage::default();
    l.header.index = 2;
    l.header.flags = LinkFlags::from_bits_retain(flags);
    l.header.link_layer_type = if ether { LinkLayerType::Ether } else { LinkLayerType::Loopback };
    l.attributes.push(LinkAttribute::IfName("eth0".into()));
    l.attributes.push(LinkAttribute::Address(vec![0x52, 0x54, 0, 1, 2, 3]));
    l.attributes.push(LinkAttribute::Mtu(1400));
    packed(sequence, NetlinkPayload::InnerMessage(RouteNetlinkMessage::NewLink(l)))
}

#[test]
fn a_route_that_is_asked_for_reads_back_as_itself() {
    let b = add_route(41, &route()).unwrap();
    let (a, next) = next_answer(&b, 0).unwrap();
    assert_eq!(next, b.len());
    assert_eq!(a.sequence, 41);
    match a.body {
        Body::Route(m) => assert_eq!(route_from_message(&m), Some(route())),
        other => panic!("{other:?}"),
    }
}

#[test]
fn an_address_that_is_asked_for_reads_back_as_itself() {
    let mine = Address::new(3, ip(10, 0, 2, 15), 24);
    let b = add_address(42, &mine, None).unwrap();
    let (a, next) = next_answer(&b, 0).unwrap();
    assert_eq!(next, b.len());
    match a.body {
        Body::Address(m) => assert_eq!(address_from_message(&m), Some(mine)),
        other => panic!("{other:?}"),
    }
    // The last of the block is the broadcast address, unless another is given.
    let holds = |b: &[u8], a: [u8; 4]| b.windows(4).any(|w| w == a);
    assert!(holds(&b, [10, 0, 2, 255]));
    let given = add_address(42, &mine, Some(Ipv4Addr::new(10, 0, 2, 254))).unwrap();
    assert!(holds(&given, [10, 0, 2, 254]) && !holds(&given, [10, 0, 2, 255]));
    let alone = add_address(42, &Address { prefix: 32, ..mine }, None).unwrap();
    assert!(alone.len() < b.len());
}

#[test]
fn ipv6_is_not_spoken_here() {
    let six = IpAddr::V6(Ipv6Addr { bits: 1 });
    let a = Address::new(3, six, 64);
    assert_eq!(add_address(1, &a, None), None);
    assert_eq!(del_address(1, &a), None);
    let r = Route { destination: six, ..route() };
    assert_eq!(add_route(1, &r), None);
    assert_eq!(del_route(1, &r), None);
}

#[test]
fn requests_differ_in_their_heads() {
    let head = |b: &[u8]| {
        let word = |at: usize| u16::from_ne_bytes([b[at], b[at + 1]]);
        let long = |at: usize| u32::from_ne_bytes([b[at], b[at + 1], b[at + 2], b[at + 3]]);
        (long(0) as usize, word(4), word(6), long(8))
    };
    let links = dump_links(7);
    assert_eq!(head(&links), (links.len(), 18, 0x301, 7));
    let addresses = dump_addresses(8);
    assert_eq!(head(&addresses), (addresses.len(), 22, 0x301, 8));
    let routes = dump_routes(9);
    assert_eq!(head(&routes), (routes.len(), 26, 0x301, 9));
    let up = set_link_up(10, 2, true);
    assert_eq!(head(&up), (up.len(), 19, 0x5, 10));
    assert_ne!(up, set_link_up(10, 2, false));
    let mtu = set_mtu(11, 2, 1400);
    assert_eq!(head(&mtu), (mtu.len(), 19, 0x5, 11));
    assert!(mtu.windows(4).any(|w| w == 1400u32.to_ne_bytes()));
    let new = add_route(12, &route()).unwrap();
    assert_eq!(head(&new), (new.len(), 24, 0x605, 12));
    let gone = del_route(13, &route()).unwrap();
    assert_eq!(head(&gone), (gone.len(), 25, 0x5, 13));
    let a = Address::new(3, ip(10, 0, 2, 15), 24);
    assert_eq!(head(&add_address(14, &a, None).unwrap()).2, 0x505);
    assert_eq!(head(&del_address(15, &a).unwrap()).1, 21);
}

#[test]
fn links_are_told_of_in_full() {
    let b = link_message(5, 0x1 | 0x1_0000, true);
    let (a, _) = next_answer(&b, 0).unwrap();
    match &a.body {
        Body::Link(m) => assert_eq!(link_name(m), "eth0"),
        other => panic!("{other:?}"),
    }
    let mut o = Observed::default();
    assert_eq!(receive(&mut o, Wanted::Links, 5, &a, false), Step::More);
    let l = o.link(2).unwrap();
    assert_eq!((l.name.as_str(), l.mtu, l.link_type), ("eth0", 1400, 1));
    assert_eq!(l.mac, Some([0x52, 0x54, 0, 1, 2, 3]));
    assert!(l.up && l.carrier && !l.loopback);
    assert_eq!(l.kind, LinkKind::Ether);
    receive(&mut o, Wanted::Links, 5, &a, true);
    assert_eq!(o.link(2).unwrap().kind, LinkKind::Wireless);
    assert_eq!(o.links.len(), 1);
    let (lo, _) = next_answer(&link_message(5, 0x8, false), 0).unwrap();
    receive(&mut o, Wanted::Links, 5, &lo, false);
    let l = o.link(2).unwrap();
    assert!(l.loopback && !l.up && !l.carrier);
    assert_eq!(l.kind, LinkKind::Loopback);
}

#[test]
fn a_dump_is_read_message_by_message() {
    let mut b = link_message(5, 0, true);
    let second = b.len();
    b.extend(packed(5, NetlinkPayload::Done(DoneMessage::default())));
    let (_, next) = next_answer(&b, 0).unwrap();
    assert_eq!(next, second);
    let (done, end) = next_answer(&b, next).unwrap();
    assert_eq!(end, b.len());
    assert_eq!(done, Answer { sequence: 5, body: Body::Done });
    let mut o = Observed::default();
    assert_eq!(receive(&mut o, Wanted::Links, 5, &done, false), Step::Finished);
    assert!(next_answer(&b, b.len()).is_err());
    assert!(next_answer(&[1, 2, 3], 0).is_err());
}

#[test]
fn outcomes_are_error_numbers() {
    let mut e = ErrorMessage::default();
    e.code = std::num::NonZeroI32::new(-17);
    let (a, _) = next_answer(&packed(6, NetlinkPayload::Error(e)), 0).unwrap();
    let mut o = Observed::default();
    assert_eq!(receive(&mut o, Wanted::Change, 6, &a, false), Step::Failed(17));
    assert_eq!(receive(&mut o, Wanted::Change, 7, &a, false), Step::More);
    let ack = Answer { sequence: 6, body: Body::Code(0) };
    assert_eq!(receive(&mut o, Wanted::Change, 6, &ack, false), Step::Finished);
}

#[test]
fn strangers_are_not_listened_to() {
    let (a, _) = next_answer(&link_message(5, 0, true), 0).unwrap();
    let mut o = Observed::default();
    assert_eq!(receive(&mut o, Wanted::Links, 6, &a, false), Step::More);
    assert_eq!(receive(&mut o, Wanted::Routes, 5, &a, false), Step::More);
    assert_eq!(o, Observed::default());
}

#[test]
fn routes_of_other_tables_and_kinds_are_not_ours() {
    let (a, _) = next_answer(&add_route(1, &route()).unwrap(), 0).unwrap();
    let Body::Route(mut m) = a.body else { panic!("a route") };
    m.table = 255;
    assert_eq!(route_from_message(&m), None);
    m.table = 254;
    m.kind = 2;
    assert_eq!(route_from_message(&m), None);
    m.kind = 1;
    m.attributes.clear();
    assert_eq!(route_from_message(&m), None, "it leaves by no interface");
}

#[test]
fn sequence_numbers_skip_zero() {
    assert_eq!(next_sequence(1), 2);
    assert_eq!(next_sequence(u32::MAX), 1);
}

/// A number as the kernel of this machine takes it.
fn ne(n: u32) -> [u8; 4] {
    n.to_ne_bytes()
}

fn attribute(kind: u16, value: [u8; 4]) -> Vec<u8> {
    [&8u16.to_ne_bytes()[..], &kind.to_ne_bytes(), &value].concat()
}

#[test]
fn each_step_of_a_plan_has_its_request() {
    let a = Address::new(3, ip(10, 0, 2, 15), 24);
    let last = Ipv4Addr::new(10, 0, 2, 254);
    assert_eq!(request(5, &Op::LinkUp(2)), Some(set_link_up(5, 2, true)));
    assert_eq!(request(5, &Op::LinkDown(2)), Some(set_link_up(5, 2, false)));
    assert_eq!(request(5, &Op::Mtu(2, 1400)), Some(set_mtu(5, 2, 1400)));
    assert_eq!(request(5, &Op::AddAddress(a, Some(last))), add_address(5, &a, Some(last)));
    assert_eq!(request(5, &Op::DelAddress(a)), del_address(5, &a));
    assert_eq!(request(5, &Op::AddRoute(route())), add_route(5, &route()));
    assert_eq!(request(5, &Op::DelRoute(route())), del_route(5, &route()));
    let six = Address::new(3, IpAddr::V6(Ipv6Addr { bits: 1 }), 64);
    assert_eq!(request(5, &Op::DelAddress(six)), None);
}

#[test]
fn requests_are_these_bytes() {
    let up = [&ne(0)[..], &ne(2), &ne(1), &ne(1)].concat();
    assert_eq!(set_link_up(10, 2, true)[16..], up);
    let mtu = [&ne(0)[..], &ne(2), &ne(0), &ne(0), &attribute(4, ne(1400))].concat();
    assert_eq!(set_mtu(10, 2, 1400)[16..], mtu);
    let a = Address::new(3, ip(10, 0, 2, 15), 24);
    let address = [
        &[2, 24, 0, 0][..],
        &ne(3),
        &attribute(2, [10, 0, 2, 15]),
        &attribute(1, [10, 0, 2, 15]),
        &attribute(4, [10, 0, 2, 255]),
    ]
    .concat();
    assert_eq!(add_address(10, &a, None).unwrap()[16..], address);
    let way = [
        &[2, 16, 0, 0, 254, RTPROT_NETD, 0, 1][..],
        &ne(0),
        &attribute(1, [10, 1, 0, 0]),
        &attribute(5, [10, 0, 2, 9]),
        &attribute(4, ne(3)),
        &attribute(6, ne(100)),
    ]
    .concat();
    let b = add_route(10, &route()).unwrap();
    assert_eq!(b[16..], way);
    let head = [&ne(16 + way.len() as u32)[..], &24u16.to_ne_bytes(), &0x605u16.to_ne_bytes(), &ne(10), &ne(0)].concat();
    assert_eq!(b[..16], head);
}

/// An attribute, padded, in the machine's byte order.
fn padded(kind: u16, value: &[u8]) -> Vec<u8> {
    let mut b = (value.len() as u16 + 4).to_ne_bytes().to_vec();
    b.extend(kind.to_ne_bytes());
    b.extend(value);
    while b.len() % 4 != 0 {
        b.push(0);
    }
    b
}

fn joined(parts: &[Vec<u8>]) -> Vec<u8> {
    parts.concat()
}

/// The body of a link that says this of itself.
fn link_body(sort: &[u8], data: &[u8]) -> Vec<u8> {
    let info = joined(&[padded(1, sort), padded(2, data)]);
    joined(&[vec![0; 16], padded(18, &info)])
}

fn message(kind: u16, body: &[u8]) -> Vec<u8> {
    let mut b = (body.len() as u32 + 16).to_ne_bytes().to_vec();
    b.extend(kind.to_ne_bytes());
    b.extend([0; 10]);
    b.extend(body);
    b
}

fn refused(b: &[u8]) -> bool {
    next_answer(b, 0) == Err("a message the parser cannot take".to_string())
}

#[test]
fn a_tunnel_whose_lowest_port_is_not_two_bytes_long_is_refused() {
    let b = message(16, &link_body(b"bareudp\0", &padded(3, &[])));
    assert_eq!(b.len(), 56);
    assert!(refused(&b));
    assert!(refused(&message(16, &link_body(b"bareudp", &padded(3, &[1, 2, 3])))));
    assert!(refused(&message(17, &link_body(b"bareudp\0", &padded(3, &[1])))));
    // After a message that is read, it is refused where it begins.
    let first = link_message(5, 0x1, true);
    let both = joined(&[first.clone(), b]);
    let (_, next) = next_answer(&both, 0).unwrap();
    assert_eq!(next, first.len());
    assert!(next_answer(&both, next).is_err());
}

#[test]
fn a_tunnel_whose_lowest_port_is_two_bytes_long_is_read() {
    let b = message(16, &link_body(b"bareudp\0", &padded(3, &[1, 2])));
    let (a, next) = next_answer(&b, 0).unwrap();
    assert_eq!(next, b.len());
    assert!(matches!(a.body, Body::Link(_)));
    // The port is only a port in a tunnel of that sort.
    let b = message(16, &link_body(b"dummy\0", &padded(3, &[1])));
    assert!(matches!(next_answer(&b, 0).unwrap().0.body, Body::Link(_)));
}

#[test]
fn a_peer_is_looked_into() {
    let odd = link_body(b"bareudp\0", &padded(3, &[9]));
    for sort in [b"veth\0".as_slice(), b"vxcan\0", b"netkit\0"] {
        assert!(refused(&message(16, &link_body(sort, &padded(1, &odd)))));
    }
    // Of a pair only the first attribute is read; of a netkit all are.
    let later = joined(&[padded(7, &[0, 0, 0, 0]), padded(1, &odd)]);
    assert!(!refused(&message(16, &link_body(b"veth\0", &later))));
    assert!(refused(&message(16, &link_body(b"netkit\0", &later))));
}

#[test]
fn peers_lie_one_in_another_only_so_deep() {
    let mut body = vec![0; 16];
    for _ in 0..16 {
        body = link_body(b"veth\0", &padded(1, &body));
    }
    assert!(matches!(next_answer(&message(16, &body), 0).unwrap().0.body, Body::Link(_)));
    body = link_body(b"veth\0", &padded(1, &body));
    assert!(refused(&message(16, &body)));
}

#[test]
fn next_hops_lie_one_in_another_only_so_deep() {
    let hop = |inside: &[u8]| {
        let mut b = (inside.len() as u16 + 8).to_ne_bytes().to_vec();
        b.extend([0; 6]);
        b.extend(inside);
        b
    };
    let mut inside = vec![];
    for _ in 0..16 {
        inside = padded(9, &hop(&inside));
    }
    let mut head = vec![0; 12];
    head[0] = 2;
    assert!(!refused(&message(24, &joined(&[head.clone(), inside.clone()]))));
    inside = padded(9, &hop(&inside));
    assert!(refused(&message(24, &joined(&[head, inside]))));
}
