use netd::addr::Ipv4Addr;
use netd::dhcp4::{Destination, Message};
use netd::netd::dhcp::{
    checksum, client_id, duid, filter_program, incoming, ip_udp, outgoing, udp_payload, FilterOp,
    Outgoing,
};

const BROADCAST: Ipv4Addr = Ipv4Addr { bits: 0xffff_ffff };

#[test]
fn the_ip_header_checksums_and_the_payload_comes_back() {
    let d = ip_udp(Ipv4Addr::unspecified(), BROADCAST, 68, 67, b"hello");
    assert_eq!(checksum(&d[..20]), 0);
    // A reply to port 68 parses; our own to 67 does not.
    let mut reply = ip_udp(
        Ipv4Addr::new(10, 0, 2, 2),
        BROADCAST,
        67,
        68,
        b"hello",
    );
    assert_eq!(udp_payload(&reply), Some(&b"hello"[..]));
    assert_eq!(udp_payload(&d), None);
    reply.truncate(25);
    assert_eq!(udp_payload(&reply), None);
}

#[test]
fn client_ids_are_rfc4361_shaped() {
    let id = client_id(&[0, 3, 0, 1, 1, 2, 3, 4, 5, 6], "abcd");
    assert_eq!(id[0], 0xff);
    assert_eq!(id.len(), 1 + 4 + 10);
}

/// The filter program, run as the kernel runs it.
fn admits(program: &[FilterOp], p: &[u8]) -> bool {
    let (mut a, mut x, mut pc) = (0u32, 0usize, 0usize);
    loop {
        let op = program[pc];
        pc += 1;
        match op.code {
            0x30 => match p.get(op.k as usize) {
                Some(b) => a = u32::from(*b),
                None => return false,
            },
            0x28 | 0x48 => {
                let at = op.k as usize + if op.code == 0x48 { x } else { 0 };
                match p.get(at..at + 2) {
                    Some(b) => a = u32::from(b[0]) * 256 + u32::from(b[1]),
                    None => return false,
                }
            }
            0xb1 => match p.get(op.k as usize) {
                Some(b) => x = usize::from(b & 0xf) * 4,
                None => return false,
            },
            0x15 => pc += usize::from(if a == op.k { op.jt } else { op.jf }),
            0x45 => pc += usize::from(if a & op.k != 0 { op.jt } else { op.jf }),
            0x06 => return op.k != 0,
            other => panic!("{other:#x}"),
        }
    }
}

#[test]
fn the_filter_lets_replies_in_and_nothing_else() {
    let program = filter_program();
    let from = Ipv4Addr::new(10, 0, 2, 2);
    let reply = ip_udp(from, BROADCAST, 67, 68, b"hello");
    assert!(admits(&program, &reply));
    assert!(!admits(&program, &ip_udp(from, BROADCAST, 68, 67, b"hello")));
    let mut tcp = reply.clone();
    tcp[9] = 6;
    assert!(!admits(&program, &tcp));
    let mut fragment = reply.clone();
    fragment[7] = 1;
    assert!(!admits(&program, &fragment));
    assert!(!admits(&program, &[]));
}

#[test]
fn messages_travel_in_datagrams() {
    let mut m = Message::request(7, [1, 2, 3, 4, 5, 6]);
    m.is_reply = true;
    match outgoing(&m, Destination::Broadcast) {
        Outgoing::Broadcast(d) => {
            assert_eq!(udp_payload(&d), None, "it is for a server");
            assert_eq!(&d[28..], &m.encode()[..]);
            assert_eq!(checksum(&d[..20]), 0);
        }
        other => panic!("{other:?}"),
    }
    let reply = ip_udp(Ipv4Addr::new(10, 0, 2, 2), BROADCAST, 67, 68, &m.encode());
    assert_eq!(incoming(&reply), Some(m));
    assert_eq!(incoming(b"noise"), None);
}

#[test]
fn the_duid_on_record_stays() {
    let mac = [1, 2, 3, 4, 5, 6];
    assert_eq!(duid(Some(vec![9, 9, 9, 9]), &mac), (vec![9, 9, 9, 9], false));
    let fresh = vec![0, 3, 0, 1, 1, 2, 3, 4, 5, 6];
    assert_eq!(duid(Some(vec![9, 9]), &mac), (fresh.clone(), true));
    assert_eq!(duid(None, &mac), (fresh, true));
}

#[test]
fn checksums_of_known_headers() {
    let head = [
        0x45u8, 0, 0, 0x73, 0, 0, 0x40, 0, 0x40, 0x11, 0, 0, 0xc0, 0xa8, 0, 1, 0xc0, 0xa8, 0, 0xc7,
    ];
    assert_eq!(checksum(&head), 0xb861);
    assert_eq!(checksum(&[1]), !0x0100);
}

#[test]
fn client_ids_fold_the_interface_id() {
    let id = client_id(&[1, 2], "abcde");
    assert_eq!(id, vec![0xff, b'a' ^ b'e', b'b', b'c', b'd', 1, 2]);
}
