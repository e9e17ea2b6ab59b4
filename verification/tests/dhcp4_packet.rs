use netd::addr::Ipv4Addr;
use netd::dhcp4::packet::{decode_domain_search, option};
use netd::dhcp4::{Lease, Message, MessageType, Options};

fn ack() -> Message {
    let mut m = Message::request(0x1234, [1, 2, 3, 4, 5, 6]);
    m.is_reply = true;
    m.yiaddr = Ipv4Addr::new(10, 0, 2, 15);
    m.options.push(option::MESSAGE_TYPE, vec![MessageType::Ack.code()]);
    m.options.push(option::SERVER_ID, Ipv4Addr::new(10, 0, 2, 2).octets().to_vec());
    m.options.push(option::LEASE_TIME, 86400u32.to_be_bytes().to_vec());
    m.options.push(option::SUBNET_MASK, Ipv4Addr::new(255, 255, 255, 0).octets().to_vec());
    m.options.push(option::ROUTER, Ipv4Addr::new(10, 0, 2, 2).octets().to_vec());
    m.options.push(option::DNS, {
        let mut v = Ipv4Addr::new(10, 0, 2, 3).octets().to_vec();
        v.extend(Ipv4Addr::new(1, 1, 1, 1).octets());
        v
    });
    m.options.push(option::DOMAIN_NAME, b"lan".to_vec());
    m
}

#[test]
fn a_message_round_trips() {
    let m = ack();
    let bytes = m.encode();
    assert_eq!(bytes.len(), 300);
    let back = Message::decode(&bytes).unwrap();
    assert_eq!(back, m);
}

#[test]
fn a_lease_is_read_from_an_ack() {
    let l = Lease::from_ack(&ack()).unwrap();
    assert_eq!(l.address, Ipv4Addr::new(10, 0, 2, 15));
    assert_eq!(l.prefix, 24);
    assert_eq!(l.gateway(), Some(Ipv4Addr::new(10, 0, 2, 2)));
    assert_eq!(l.dns.len(), 2);
    assert_eq!(l.domain.as_deref(), Some("lan"));
    assert_eq!(l.t1, 43200);
    assert_eq!(l.t2, 75600);
}

#[test]
fn classless_routes_override_the_router_option() {
    let mut m = ack();
    // 10.1.0.0/16 via 10.0.2.9, then default via 10.0.2.7
    m.options.push(
        option::CLASSLESS_STATIC_ROUTE,
        vec![16, 10, 1, 10, 0, 2, 9, 0, 10, 0, 2, 7],
    );
    let l = Lease::from_ack(&m).unwrap();
    assert!(l.routers.is_empty());
    assert_eq!(l.static_routes.len(), 2);
    assert_eq!(l.static_routes[0].destination, Ipv4Addr::new(10, 1, 0, 0));
    assert_eq!(l.gateway(), Some(Ipv4Addr::new(10, 0, 2, 7)));
}

#[test]
fn an_ack_without_a_server_id_is_not_a_lease() {
    let mut m = ack();
    m.options.0.retain(|(c, _)| *c != option::SERVER_ID);
    assert!(Lease::from_ack(&m).is_none());
}

#[test]
fn domain_search_decodes_with_compression() {
    // "example.com" then "sub" + pointer to "example.com"
    let v = vec![
        7, b'e', b'x', b'a', b'm', b'p', b'l', b'e', 3, b'c', b'o', b'm', 0, 3, b's', b'u',
        b'b', 0xC0, 0,
    ];
    assert_eq!(decode_domain_search(&v), vec!["example.com", "sub.example.com"]);
}

#[test]
fn garbage_does_not_decode() {
    assert!(Message::decode(&[0u8; 10]).is_none());
    let mut bytes = ack().encode();
    bytes[236] = 0; // break the cookie
    assert!(Message::decode(&bytes).is_none());
}
