use netd::addr::Ipv6Addr;
use netd::ndp::packet::{domain_list, solicit, ROUTER_ADVERT, ROUTER_SOLICIT};
use netd::ndp::{PrefixInfo, RouterAdvert};

fn ip6(s: &str) -> Ipv6Addr {
    Ipv6Addr::parse(s).unwrap()
}

/// An RA as slirp or a home router would send it: one prefix, an MTU,
/// a DNS server.
fn sample() -> Vec<u8> {
    let mut b = vec![
        ROUTER_ADVERT,
        0,
        0,
        0,
        64,
        0xc0,
        0x07,
        0x08,
        0,
        0,
        0,
        0,
        0,
        0,
        0,
        0,
    ];
    // Prefix information: fd00::/64, on-link + autonomous.
    b.extend_from_slice(&[3, 4, 64, 0xc0]);
    b.extend_from_slice(&86400u32.to_be_bytes());
    b.extend_from_slice(&14400u32.to_be_bytes());
    b.extend_from_slice(&[0; 4]);
    b.extend_from_slice(&Ipv6Addr::new(0xfd00, 0, 0, 0, 0, 0, 0, 0).octets());
    // MTU 1500.
    b.extend_from_slice(&[5, 1, 0, 0]);
    b.extend_from_slice(&1500u32.to_be_bytes());
    // RDNSS: fd00::3, lifetime 1200.
    b.extend_from_slice(&[25, 3, 0, 0]);
    b.extend_from_slice(&1200u32.to_be_bytes());
    b.extend_from_slice(&Ipv6Addr::new(0xfd00, 0, 0, 0, 0, 0, 0, 3).octets());
    // DNSSL: "lan", lifetime 1200.
    b.extend_from_slice(&[31, 2, 0, 0]);
    b.extend_from_slice(&1200u32.to_be_bytes());
    b.extend_from_slice(&[3, b'l', b'a', b'n', 0, 0, 0, 0]);
    b
}

#[test]
fn a_full_advertisement_decodes() {
    let ra = RouterAdvert::decode(&sample()).unwrap();
    assert!(ra.managed && ra.other_config);
    assert_eq!(ra.router_lifetime, 1800);
    assert_eq!(ra.mtu, Some(1500));
    assert_eq!(
        ra.prefixes,
        vec![PrefixInfo {
            prefix: ip6("fd00::"),
            length: 64,
            on_link: true,
            autonomous: true,
            valid: 86400,
            preferred: 14400,
        }]
    );
    assert_eq!(
        ra.rdnss[0].servers,
        vec![ip6("fd00::3")]
    );
    assert_eq!(ra.rdnss[0].lifetime, 1200);
    assert_eq!(ra.dnssl[0].domains, vec!["lan".to_owned()]);
}

#[test]
fn short_wrong_typed_and_zero_length_option_messages_are_refused() {
    assert_eq!(RouterAdvert::decode(&[]), None);
    assert_eq!(RouterAdvert::decode(&[ROUTER_ADVERT, 0, 0, 0]), None);
    let mut wrong_type = sample();
    wrong_type[0] = ROUTER_SOLICIT;
    assert_eq!(RouterAdvert::decode(&wrong_type), None);
    let mut nonzero_code = sample();
    nonzero_code[1] = 1;
    assert_eq!(RouterAdvert::decode(&nonzero_code), None);
    let mut zero_length_option = sample();
    zero_length_option[17] = 0; // the prefix option's length
    assert_eq!(RouterAdvert::decode(&zero_length_option), None);
    let mut truncated = sample();
    truncated.truncate(30);
    assert_eq!(RouterAdvert::decode(&truncated), None);
}

#[test]
fn a_malformed_option_is_skipped_not_fatal() {
    // A prefix claiming length 129 is nonsense; the rest still parses.
    let mut b = sample();
    b[18] = 129;
    let ra = RouterAdvert::decode(&b).unwrap();
    assert!(ra.prefixes.is_empty());
    assert_eq!(ra.mtu, Some(1500));
}

#[test]
fn link_local_and_multicast_prefixes_are_never_accepted() {
    for bad in ["fe80::", "ff02::"] {
        let mut b = vec![
            ROUTER_ADVERT,
            0,
            0,
            0,
            64,
            0,
            0x07,
            0x08,
            0,
            0,
            0,
            0,
            0,
            0,
            0,
            0,
        ];
        b.extend_from_slice(&[3, 4, 64, 0xc0]);
        b.extend_from_slice(&86400u32.to_be_bytes());
        b.extend_from_slice(&14400u32.to_be_bytes());
        b.extend_from_slice(&[0; 4]);
        b.extend_from_slice(&ip6(bad).octets());
        let ra = RouterAdvert::decode(&b).unwrap();
        assert!(ra.prefixes.is_empty(), "{bad} must not be a prefix");
    }
}

#[test]
fn a_solicitation_carries_our_mac() {
    let s = solicit(Some(&[0x52, 0x54, 0, 1, 2, 3]));
    assert_eq!(s[0], ROUTER_SOLICIT);
    assert_eq!(s.len(), 16);
    assert_eq!(&s[8..10], &[1, 1]);
    assert_eq!(solicit(None).len(), 8);
}

#[test]
fn domain_lists_stop_at_malformation_and_lowercase() {
    assert_eq!(domain_list(&[3, b'L', b'A', b'N', 0, 0, 0, 0]), vec!["lan"]);
    assert_eq!(
        domain_list(&[1, b'a', 1, b'b', 0, 2, b'c', b'd', 0]),
        vec!["a.b".to_owned(), "cd".to_owned()]
    );
    // Compression pointer: refused, nothing after it either.
    assert_eq!(domain_list(&[3, b'l', b'a', b'n', 0, 0xc0, 0]), vec!["lan"]);
    // A label running off the end.
    assert!(domain_list(&[9, b'x']).is_empty());
}

fn servers_option(first: u16, n: u16) -> Vec<u8> {
    let mut b = vec![25, (1 + 2 * n) as u8, 0, 0];
    b.extend_from_slice(&1200u32.to_be_bytes());
    for i in 0..n {
        b.extend_from_slice(&Ipv6Addr::new(0xfd00, 0, 0, 0, 0, 0, 0, first + i).octets());
    }
    b
}

fn domains_option(first: u8, n: u8) -> Vec<u8> {
    let mut names = Vec::new();
    for i in 0..n {
        names.extend_from_slice(&[1, b'a' + first + i, 0]);
    }
    while names.len() % 8 != 0 {
        names.push(0);
    }
    let mut b = vec![31, (1 + names.len() / 8) as u8, 0, 0];
    b.extend_from_slice(&1200u32.to_be_bytes());
    b.extend_from_slice(&names);
    b
}

#[test]
fn ceilings_are_on_the_whole_advertisement() {
    let mut b = sample();
    b.truncate(16);
    b.extend(servers_option(0x10, 9));
    b.extend(servers_option(0x20, 9));
    b.extend(servers_option(0x30, 1));
    b.extend(domains_option(0, 9));
    b.extend(domains_option(9, 9));
    b.extend(domains_option(18, 1));
    let ra = RouterAdvert::decode(&b).unwrap();
    let servers: Vec<usize> = ra.rdnss.iter().map(|r| r.servers.len()).collect();
    assert_eq!(servers, [9, 7]);
    assert_eq!(ra.rdnss[1].servers[6], ip6("fd00::26"));
    let domains: Vec<usize> = ra.dnssl.iter().map(|d| d.domains.len()).collect();
    assert_eq!(domains, [9, 7]);
    assert_eq!(ra.dnssl[1].domains[6], "p");

    let mut few = sample();
    few.truncate(16);
    few.extend(servers_option(0x10, 9));
    few.extend(servers_option(0x20, 7));
    let ra = RouterAdvert::decode(&few).unwrap();
    assert_eq!(ra.rdnss.iter().map(|r| r.servers.len()).sum::<usize>(), 16);
}

#[test]
fn domain_names_are_their_labels_joined() {
    // Every label in its order, small, with a dot between each two; a label may
    // hold a dot of its own.
    assert_eq!(
        domain_list(&[3, b'W', b'w', b'W', 2, b'a', b'.', 1, b'~', 0, 0]),
        vec!["www.a..~"]
    );
    // Labels of 63 bytes fit; four of them, with their dots, do not.
    let label = [vec![63u8], vec![b'Q'; 63]].concat();
    let three = [label.repeat(3), vec![0]].concat();
    let name = ["q"; 63].concat();
    assert_eq!(domain_list(&three), vec![[name.as_str(); 3].join(".")]);
    let four = [label.repeat(4), vec![0]].concat();
    assert!(domain_list(&four).is_empty());
    // 253 characters fit, one more does not.
    let tail = |n: u8| [vec![n], vec![b'z'; n as usize], vec![0]].concat();
    let longest = [label.repeat(3), tail(61)].concat();
    assert_eq!(domain_list(&longest)[0].len(), 253);
    assert!(domain_list(&[label.repeat(3), tail(62)].concat()).is_empty());
    // Nothing that is not printable.
    assert!(domain_list(&[2, b'a', b' ', 0]).is_empty());
    assert!(domain_list(&[2, b'a', 0x80, 0]).is_empty());
}

#[test]
fn what_was_read_before_a_malformed_name_stands() {
    let good = [1, b'a', 0, 0, 2, b'b', b'c', 1, b'd', 0];
    assert_eq!(domain_list(&good), vec!["a", "bc.d"]);
    for bad in [vec![0xc0, 0], vec![64], vec![5, b'x'], vec![1, 7, 0], vec![0, 0, 0], vec![]] {
        let both = [good.to_vec(), bad].concat();
        assert_eq!(domain_list(&both), vec!["a", "bc.d"]);
    }
    let both = [good.to_vec(), vec![1, b'e', 0]].concat();
    assert_eq!(domain_list(&both), vec!["a", "bc.d", "e"]);
}
