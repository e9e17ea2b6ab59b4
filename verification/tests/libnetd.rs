use netd::libnetd::decode::Token;
use netd::libnetd::encode::Item;
use netd::libnetd::frame::{frame, payload_length};
use netd::libnetd::{
    DnsScope, Fault, InterfaceStatus, LeaseStatus, Level, Reply, Request, Snapshot, Sort, Status,
    WireError,
    NETWORK_CONTROL, NETWORK_QUERY,
};
use netd::netd::control::{everyone_may, mapping, read_request};

/// What is read of a message that holds these items, each of one byte at least.
fn read(items: Vec<Item>) -> Vec<Token> {
    let n = items.len();
    items
        .into_iter()
        .enumerate()
        .map(|(i, item)| match item {
            Item::Fields(c) => Token::Fields(c as usize),
            Item::List(c) => Token::List { count: c as usize, left: n - i - 1 },
            Item::Str(s) => Token::Str(s),
            Item::Bool(b) => Token::Bool(b),
            Item::Uint(u) => Token::Uint(u),
            Item::Nil => Token::Nil,
        })
        .collect()
}

fn word(s: &str) -> Token {
    Token::Str(s.into())
}

#[test]
fn requests_round_trip() {
    for req in [
        Request::Status,
        Request::Reconcile,
        Request::Renew { interface: "eth0".into() },
        Request::Subscribe,
    ] {
        assert_eq!(Request::decode(&read(req.encode())).unwrap(), req);
    }
}

#[test]
fn a_status_round_trips_with_every_field() {
    let status = Status {
        hostname: "box".into(),
        level: Level::Routed,
        interfaces: vec![InterfaceStatus {
            ifid: "id".into(),
            name: "eth0".into(),
            index: 2,
            mac: "52:54:00:12:34:56".into(),
            path: "pci-0000:00:03.0".into(),
            driver: "virtio_net".into(),
            profile: Some("lan".into()),
            managed: true,
            enabled: true,
            up: true,
            carrier: true,
            level: Level::Routed,
            addresses: vec!["10.0.2.15/24".into()],
            gateway: Some("10.0.2.2".into()),
            dns: vec!["10.0.2.3".into()],
            search: vec![],
            lease: Some(LeaseStatus {
                server: "10.0.2.2".into(),
                expires_in: 86000,
                state: "bound".into(),
            }),
        }],
    };
    let reply = Reply::Status(status);
    assert_eq!(Reply::decode(&read(reply.encode())).unwrap(), reply);
    assert_eq!(Reply::decode(&read(Reply::Done.encode())).unwrap(), Reply::Done);
    let e = Reply::Error("no".into());
    assert_eq!(Reply::decode(&read(e.encode())).unwrap(), e);
}

#[test]
fn a_duplicate_key_is_refused_and_an_unknown_one_ignored() {
    let w = vec![
        Token::Fields(2),
        word("query"),
        word("status"),
        word("query"),
        word("status"),
    ];
    assert!(matches!(Request::decode(&w), Err(WireError::Duplicate(_))));
    let w = vec![
        Token::Fields(2),
        word("extra"),
        Token::Uint(3),
        word("query"),
        word("status"),
    ];
    assert_eq!(Request::decode(&w).unwrap(), Request::Status);
}

#[test]
fn a_snapshot_round_trips() {
    let reply = Reply::Snapshot(Snapshot {
        hostname: "box".into(),
        scopes: vec![DnsScope {
            ifid: "id".into(),
            name: "eth0".into(),
            servers: vec!["10.0.2.3".into()],
            domains: vec!["lan".into()],
            ntp: vec!["10.0.2.4".into()],
            addresses: vec!["10.0.2.15/24".into()],
            default_route: true,
            exclusive: false,
            metric: 100,
            level: Level::Routed,
        }],
    });
    assert_eq!(Reply::decode(&read(reply.encode())).unwrap(), reply);
    let empty = Reply::Snapshot(Snapshot::default());
    assert_eq!(Reply::decode(&read(empty.encode())).unwrap(), empty);
}

#[test]
fn an_array_count_the_message_cannot_hold_is_refused() {
    // A snapshot holding one scope whose server list declares four billion
    // entries, with nothing after it.
    let tokens = vec![
        Token::Fields(2),
        word("kind"),
        word("snapshot"),
        word("scopes"),
        Token::List { count: 1, left: 14 },
        Token::Fields(1),
        word("servers"),
        Token::List { count: 0xffff_ffff, left: 0 },
    ];
    assert!(
        matches!(Reply::decode(&tokens), Err(WireError::TooLarge(_))),
        "{:?}",
        Reply::decode(&tokens)
    );
}

#[test]
fn levels_are_ordered() {
    assert!(Level::Absent < Level::Link);
    assert!(Level::Link < Level::Addressed);
    assert!(Level::Addressed < Level::Routed);
    assert_eq!(Level::parse("routed"), Some(Level::Routed));
}

fn unread(left: usize, wanted: Sort) -> WireError {
    WireError::Encoding(Fault { left, wanted, words: String::new() })
}

#[test]
fn requests_need_their_fields() {
    let no_query = vec![Token::Fields(0)];
    assert_eq!(Request::decode(&no_query), Err(WireError::Missing("query")));
    let no_interface = vec![Token::Fields(1), word("query"), word("renew")];
    assert_eq!(Request::decode(&no_interface), Err(WireError::Missing("interface")));
    let unknown = vec![Token::Fields(1), word("query"), word("dance")];
    assert_eq!(Request::decode(&unknown), Err(WireError::UnknownQuery("dance".into())));
    let noise = vec![Token::Bad];
    assert_eq!(Request::decode(&noise), Err(unread(1, Sort::Fields)));
    assert_eq!(Request::decode(&vec![]), Err(unread(0, Sort::Fields)));
    let number = vec![Token::Fields(1), word("query"), Token::Uint(3)];
    assert_eq!(Request::decode(&number), Err(unread(1, Sort::Str)));
    let short = vec![Token::Fields(1), word("extra"), Token::List { count: 1, left: 1 }, Token::Bad];
    assert_eq!(Request::decode(&short), Err(unread(2, Sort::Any)));
    let yes = vec![Token::Fields(1), word("ok"), word("yes")];
    assert_eq!(Reply::decode(&yes), Err(unread(1, Sort::Bool)));
}

#[test]
fn errors_have_their_words() {
    assert_eq!(WireError::Missing("query").to_text(), "missing field query");
    assert_eq!(WireError::Duplicate("query".into()).to_text(), "duplicate field query");
    assert_eq!(
        WireError::UnknownQuery("a\"b\n".into()).to_text(),
        "unknown query \"a\\\"b\\n\""
    );
    assert_eq!(
        WireError::TooLarge(70000).to_text(),
        "message of 70000 bytes exceeds the ceiling"
    );
    assert_eq!(
        unread(1, Sort::Str).worded("not a string".into()).to_text(),
        "malformed message: not a string"
    );
    let missing = WireError::Missing("query").worded("not a string".into());
    assert_eq!(missing, WireError::Missing("query"));
}

#[test]
fn frames_carry_their_length() {
    assert_eq!(frame(b"abc").unwrap(), [3, 0, 0, 0, b'a', b'b', b'c']);
    assert_eq!(payload_length(&[3, 0, 0, 0]), Ok(3));
    assert_eq!(payload_length(&[0, 0, 1, 0]), Ok(65536));
    assert_eq!(payload_length(&[1, 0, 1, 0]), Err(WireError::TooLarge(65537)));
    assert_eq!(frame(&[0; 65537]), Err(WireError::TooLarge(65537)));
    assert_eq!(frame(&[0; 65536]).unwrap().len(), 65540);
}

#[test]
fn controlling_needs_more_than_querying() {
    assert_eq!(Request::Status.required_right(), NETWORK_QUERY);
    assert_eq!(Request::Subscribe.required_right(), NETWORK_QUERY);
    assert_eq!(Request::Reconcile.required_right(), NETWORK_CONTROL);
    assert_eq!(Request::Renew { interface: "x".into() }.required_right(), NETWORK_CONTROL);
    assert_eq!(mapping(0x2_0000).write, 0x2_0002);
    assert_eq!(everyone_may(0x2_0000), 0x2_0001);
    assert_eq!(
        read_request(Request::decode(&vec![Token::Fields(0)]), String::new()),
        Err(Reply::Error("missing field query".into()))
    );
    assert_eq!(
        read_request(Request::decode(&vec![Token::Nil]), "not a map".into()),
        Err(Reply::Error("malformed message: not a map".into()))
    );
    assert_eq!(read_request(Ok(Request::Status), "unused".into()), Ok(Request::Status));
}

#[test]
fn random_tokens_decode_to_what_encodes_again() {
    let mut x: u64 = 0x1234_5678_9abc_def1;
    let mut next = move || {
        x ^= x >> 12;
        x ^= x << 25;
        x ^= x >> 27;
        x.wrapping_mul(0x2545_F491_4F6C_DD1D)
    };
    let seeds = || {
        [
            Request::Renew { interface: "eth0".into() }.encode(),
            Request::Subscribe.encode(),
            Reply::Snapshot(Snapshot { hostname: "h".into(), scopes: vec![DnsScope::default()] })
                .encode(),
            Reply::Status(Status {
                interfaces: vec![InterfaceStatus::default()],
                ..Default::default()
            })
            .encode(),
        ]
    };
    for _ in 0..20_000 {
        let [a, b, c, d] = seeds();
        let mut tokens = read(match next() % 4 {
            0 => a,
            1 => b,
            2 => c,
            _ => d,
        });
        for _ in 0..1 + next() % 5 {
            if tokens.is_empty() {
                break;
            }
            let at = (next() % tokens.len() as u64) as usize;
            let other = match next() % 6 {
                0 => Token::Fields((next() % 5) as usize),
                1 => Token::List { count: (next() % 9) as usize, left: (next() % 9) as usize },
                2 => word("name"),
                3 => Token::Uint(next()),
                4 => Token::Nil,
                _ => Token::Bad,
            };
            match next() % 3 {
                0 => tokens[at] = other,
                1 => tokens.truncate(at),
                _ => tokens.insert(at, other),
            }
        }
        if let Ok(r) = Request::decode(&tokens) {
            assert_eq!(Request::decode(&read(r.encode())).unwrap(), r);
        }
        if let Ok(r) = Reply::decode(&tokens) {
            assert_eq!(Reply::decode(&read(r.encode())).unwrap(), r);
        }
    }
}
