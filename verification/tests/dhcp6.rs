use netd::addr::Ipv6Addr;
use netd::clock::{Duration, Instant};
use netd::dhcp6::{
    options, push_option, Action, Client, Config, INFORMATION_REQUEST, OPTION_CLIENT_ID,
    OPTION_DNS_SERVERS, OPTION_DOMAIN_LIST, OPTION_ELAPSED_TIME, OPTION_INFORMATION_REFRESH_TIME,
    OPTION_SERVER_ID, REFRESH_DEFAULT, REFRESH_MINIMUM, REPLY,
};

const NOW: Instant = Instant { nanos: 77_000_000_000 };

fn ip6(s: &str) -> Ipv6Addr {
    Ipv6Addr::parse(s).unwrap()
}

fn config() -> Config {
    Config {
        duid: vec![0, 3, 0, 1, 1, 2, 3, 4, 5, 6],
        seed: 99,
    }
}

fn reply_for(request: &[u8], extra: impl FnOnce(&mut Vec<u8>)) -> Vec<u8> {
    let mut r = vec![REPLY, request[1], request[2], request[3]];
    push_option(&mut r, OPTION_CLIENT_ID, &config().duid);
    push_option(&mut r, OPTION_SERVER_ID, &[0, 1, 0, 0, 0xab, 0xcd]);
    extra(&mut r);
    r
}

fn sent(actions: &[Action]) -> Vec<u8> {
    actions
        .iter()
        .find_map(|a| match a {
            Action::Send(m) => Some(m.clone()),
            _ => None,
        })
        .expect("a message was sent")
}

#[test]
fn the_exchange_yields_dns_and_search() {
    let mut c = Client::new(config());
    let t0 = NOW;
    let request = sent(&c.start(t0));
    assert_eq!(request[0], INFORMATION_REQUEST);
    let reply = reply_for(&request, |r| {
        push_option(
            r,
            OPTION_DNS_SERVERS,
            &ip6("fd00::3").octets(),
        );
        push_option(r, OPTION_DOMAIN_LIST, &[3, b'l', b'a', b'n', 0]);
    });
    let actions = c.receive(t0, &reply);
    assert_eq!(actions, vec![Action::Changed]);
    let info = c.info().unwrap();
    assert_eq!(info.dns, vec![ip6("fd00::3")]);
    assert_eq!(info.search, vec!["lan".to_owned()]);
    // Answered: nothing to retransmit, a refresh a day out.
    let soon = t0.plus(Duration::from_secs(30));
    assert!(c.tick(soon).is_empty());
    let refresh = c.next_deadline().unwrap();
    assert_eq!(refresh.since(t0).nanos, REFRESH_DEFAULT);
    // At refresh time, a new exchange begins.
    let actions = c.tick(refresh);
    assert_eq!(sent(&actions)[0], INFORMATION_REQUEST);
}

#[test]
fn wrong_transaction_wrong_client_and_serverless_replies_are_ignored() {
    let mut c = Client::new(config());
    let t0 = NOW;
    let request = sent(&c.start(t0));

    let mut wrong_txid = reply_for(&request, |_| {});
    wrong_txid[1] ^= 0xff;
    assert!(c.receive(t0, &wrong_txid).is_empty());

    let mut foreign = vec![REPLY, request[1], request[2], request[3]];
    push_option(&mut foreign, OPTION_CLIENT_ID, &[9, 9, 9]);
    push_option(&mut foreign, OPTION_SERVER_ID, &[0, 1]);
    assert!(c.receive(t0, &foreign).is_empty());

    let mut serverless = vec![REPLY, request[1], request[2], request[3]];
    push_option(&mut serverless, OPTION_CLIENT_ID, &config().duid);
    assert!(c.receive(t0, &serverless).is_empty());

    // Still unanswered, so the retransmit timer stands.
    assert!(c.next_deadline().is_some());
    assert!(c.info().is_none());
}

#[test]
fn retransmission_backs_off_and_reports_elapsed_time() {
    let mut c = Client::new(config());
    let t0 = NOW;
    c.start(t0);
    let mut at = t0;
    let mut intervals = Vec::new();
    for _ in 0..5 {
        let next = c.next_deadline().unwrap();
        intervals.push(next.since(at));
        at = next;
        assert!(!sent(&c.tick(at)).is_empty());
    }
    assert!(intervals[1] < Duration::from_secs(2));
    assert!(intervals[4] > Duration::from_secs(5), "{:?}", intervals);
    // The elapsed-time option grows across the exchange.
    let message = sent(&c.tick(c.next_deadline().unwrap()));
    let (_, elapsed) = options(&message, 4)
        .into_iter()
        .find(|(code, _)| *code == OPTION_ELAPSED_TIME)
        .unwrap();
    assert!(u16::from_be_bytes([elapsed[0], elapsed[1]]) > 0);
}

#[test]
fn a_refresh_floor_defeats_a_hostile_refresh_time() {
    let mut c = Client::new(config());
    let t0 = NOW;
    let request = sent(&c.start(t0));
    let reply = reply_for(&request, |r| {
        push_option(r, OPTION_INFORMATION_REFRESH_TIME, &1u32.to_be_bytes());
    });
    c.receive(t0, &reply);
    let refresh = c.next_deadline().unwrap();
    assert_eq!(refresh.since(t0).nanos, REFRESH_MINIMUM);
}

#[test]
fn an_unchanged_answer_is_not_a_change() {
    let mut c = Client::new(config());
    let t0 = NOW;
    let request = sent(&c.start(t0));
    let reply = reply_for(&request, |r| {
        push_option(
            r,
            OPTION_DNS_SERVERS,
            &ip6("fd00::3").octets(),
        );
    });
    assert_eq!(c.receive(t0, &reply), vec![Action::Changed]);
    // The refresh exchange later returns the same facts: no action.
    let refresh = c.next_deadline().unwrap();
    let request = sent(&c.tick(refresh));
    let reply = reply_for(&request, |r| {
        push_option(
            r,
            OPTION_DNS_SERVERS,
            &ip6("fd00::3").octets(),
        );
    });
    assert!(c.receive(refresh, &reply).is_empty());
}

/// Random replies, mostly mutations of a good one.
#[test]
fn fuzz_the_client_never_panics_on_arbitrary_replies() {
    let iters: usize = 20_000;
    let mut x: u64 = 0x6cb5_2026_0831_0001;
    let mut next = move || {
        x ^= x >> 12;
        x ^= x << 25;
        x ^= x >> 27;
        x.wrapping_mul(0x2545_F491_4F6C_DD1D)
    };
    let mut c = Client::new(config());
    let t0 = NOW;
    let mut now = t0;
    let request = sent(&c.start(t0));
    let seed = reply_for(&request, |r| {
        push_option(
            r,
            OPTION_DNS_SERVERS,
            &ip6("fd00::3").octets(),
        );
        push_option(r, OPTION_DOMAIN_LIST, &[3, b'l', b'a', b'n', 0]);
        push_option(r, OPTION_INFORMATION_REFRESH_TIME, &7200u32.to_be_bytes());
    });
    for _ in 0..iters {
        let mut bytes = if next() % 3 == 0 {
            (0..(next() % 120) as usize)
                .map(|_| next() as u8)
                .collect::<Vec<u8>>()
        } else {
            seed.clone()
        };
        for _ in 0..1 + next() % 5 {
            if bytes.is_empty() {
                break;
            }
            let at = (next() % bytes.len() as u64) as usize;
            match next() % 3 {
                0 => bytes[at] = next() as u8,
                1 => bytes.truncate(at),
                _ => bytes.insert(at, next() as u8),
            }
        }
        c.receive(now, &bytes);
        if next() % 4 == 0 {
            now = now.plus(Duration::from_secs((next() % 10_000) as u32));
            c.tick(now);
        }
        if let Some(info) = c.info() {
            assert!(info.dns.len() <= 16);
            assert!(info.search.len() <= 16);
        }
        // Something is always scheduled: a retransmission while
        // unanswered, a refresh once answered.
        assert!(c.next_deadline().is_some());
    }
}

#[test]
fn malformed_options_never_panic_and_end_cleanly() {
    let mut c = Client::new(config());
    let t0 = NOW;
    let request = sent(&c.start(t0));
    // An option whose length runs off the end.
    let mut truncated = vec![REPLY, request[1], request[2], request[3]];
    truncated.extend_from_slice(&[0, 23, 0xff, 0xff, 1, 2, 3]);
    assert!(c.receive(t0, &truncated).is_empty());
    assert!(c.receive(t0, &[]).is_empty());
    assert!(c.receive(t0, &[REPLY]).is_empty());
}
