use netd::addr::Ipv4Addr;
use netd::clock::{Duration, Instant};
use netd::dhcp4::packet::option;
use netd::dhcp4::{Action, Client, Config, Destination, Message, MessageType, State};

const NOW: Instant = Instant { nanos: 1_000_000_000_000 };

const MAC: [u8; 6] = [0x52, 0x54, 0, 0x12, 0x34, 0x56];

fn client() -> Client {
    Client::new(Config {
        chaddr: MAC,
        client_id: vec![
            0xff, 0, 0, 0, 1, 0, 3, 0, 1, 0x52, 0x54, 0, 0x12, 0x34, 0x56,
        ],
        hostname: Some("box".into()),
        seed: 42,
    })
}

fn sent(actions: &[Action]) -> Vec<(&Message, Destination)> {
    actions
        .iter()
        .filter_map(|a| match a {
            Action::Send {
                message,
                destination,
            } => Some((message, *destination)),
            _ => None,
        })
        .collect()
}

fn reply(to: &Message, kind: MessageType, address: Ipv4Addr, lease_time: u32) -> Message {
    let mut m = Message::request(to.xid, MAC);
    m.is_reply = true;
    m.yiaddr = address;
    m.options.push(option::MESSAGE_TYPE, vec![kind.code()]);
    m.options
        .push(option::SERVER_ID, Ipv4Addr::new(10, 0, 2, 2).octets().to_vec());
    m.options.push(option::LEASE_TIME, lease_time.to_be_bytes().to_vec());
    m.options.push(option::SUBNET_MASK, vec![255, 255, 255, 0]);
    m.options.push(option::ROUTER, vec![10, 0, 2, 2]);
    m
}

#[test]
fn the_happy_path_binds() {
    let mut c = client();
    let t0 = NOW;
    let a = c.start(t0, None);
    let s = sent(&a);
    assert_eq!(s.len(), 1);
    assert_eq!(s[0].0.message_type(), Some(MessageType::Discover));
    assert_eq!(s[0].1, Destination::Broadcast);
    assert_eq!(*c.state(), State::Selecting);

    let offer = reply(
        s[0].0,
        MessageType::Offer,
        Ipv4Addr::new(10, 0, 2, 15),
        3600,
    );
    let a = c.receive(t0, &offer);
    let s = sent(&a);
    assert_eq!(s[0].0.message_type(), Some(MessageType::Request));
    assert_eq!(
        s[0].0.options.ipv4(option::REQUESTED_IP),
        Some(Ipv4Addr::new(10, 0, 2, 15))
    );
    assert_eq!(*c.state(), State::Requesting);

    let ack = reply(s[0].0, MessageType::Ack, Ipv4Addr::new(10, 0, 2, 15), 3600);
    let a = c.receive(t0, &ack);
    assert!(matches!(a[0], Action::Bound(_)));
    assert_eq!(*c.state(), State::Bound);
    assert_eq!(c.expires_in(t0), Some(3600));
    // T1 at 1800 s.
    assert_eq!(c.next_deadline(), Some(t0.plus(Duration::from_secs(1800))));
}

#[test]
fn a_reply_with_the_wrong_xid_is_ignored() {
    let mut c = client();
    let t0 = NOW;
    let a = c.start(t0, None);
    let mut offer = reply(
        sent(&a)[0].0,
        MessageType::Offer,
        Ipv4Addr::new(10, 0, 2, 15),
        3600,
    );
    offer.xid ^= 1;
    assert!(c.receive(t0, &offer).is_empty());
    assert_eq!(*c.state(), State::Selecting);
}

#[test]
fn silence_backs_off_and_reports_no_offer_once() {
    let mut c = client();
    let mut now = NOW;
    c.start(now, None);
    let mut no_offers = 0;
    let mut gaps = Vec::new();
    for _ in 0..6 {
        let deadline = c.next_deadline().unwrap();
        gaps.push(deadline.since(now));
        now = deadline;
        let a = c.tick(now);
        no_offers += a.iter().filter(|a| matches!(a, Action::NoOffer)).count();
        assert_eq!(sent(&a).len(), 1);
    }
    assert_eq!(no_offers, 1);
    // Roughly 4, 8, 16, 32, 64, 64 with ±1 s jitter.
    assert!(gaps[0] >= Duration::from_secs(3) && gaps[0] <= Duration::from_secs(5));
    assert!(gaps[4] >= Duration::from_secs(63) && gaps[5] <= Duration::from_secs(65));
}

fn bind(c: &mut Client, t0: Instant, lease_time: u32) {
    let a = c.start(t0, None);
    let offer = reply(
        sent(&a)[0].0,
        MessageType::Offer,
        Ipv4Addr::new(10, 0, 2, 15),
        lease_time,
    );
    let a = c.receive(t0, &offer);
    let ack = reply(
        sent(&a)[0].0,
        MessageType::Ack,
        Ipv4Addr::new(10, 0, 2, 15),
        lease_time,
    );
    c.receive(t0, &ack);
    assert_eq!(*c.state(), State::Bound);
}

#[test]
fn t1_renews_by_unicast_t2_rebinds_by_broadcast_and_expiry_loses() {
    let mut c = client();
    let t0 = NOW;
    bind(&mut c, t0, 1000);

    let a = c.tick(t0.plus(Duration::from_secs(500)));
    let s = sent(&a);
    assert_eq!(*c.state(), State::Renewing);
    assert!(matches!(s[0].1, Destination::Unicast { .. }));
    assert_eq!(s[0].0.ciaddr, Ipv4Addr::new(10, 0, 2, 15));

    let a = c.tick(t0.plus(Duration::from_secs(875)));
    assert_eq!(*c.state(), State::Rebinding);
    assert_eq!(sent(&a)[0].1, Destination::Broadcast);

    let a = c.tick(t0.plus(Duration::from_secs(1000)));
    assert!(matches!(a[0], Action::Lost));
    assert_eq!(*c.state(), State::Selecting);
    assert!(c.lease().is_none());
}

#[test]
fn a_renewal_ack_rebinds_the_clock() {
    let mut c = client();
    let t0 = NOW;
    bind(&mut c, t0, 1000);
    let t1 = t0.plus(Duration::from_secs(500));
    let a = c.tick(t1);
    let ack = reply(
        sent(&a)[0].0,
        MessageType::Ack,
        Ipv4Addr::new(10, 0, 2, 15),
        1000,
    );
    let a = c.receive(t1, &ack);
    assert!(matches!(a[0], Action::Bound(_)));
    assert_eq!(c.expires_in(t1), Some(1000));
    assert_eq!(c.next_deadline(), Some(t1.plus(Duration::from_secs(500))));
}

#[test]
fn a_nak_while_renewing_loses_and_rediscovers() {
    let mut c = client();
    let t0 = NOW;
    bind(&mut c, t0, 1000);
    let t1 = t0.plus(Duration::from_secs(500));
    let a = c.tick(t1);
    let nak = reply(sent(&a)[0].0, MessageType::Nak, Ipv4Addr::unspecified(), 0);
    let a = c.receive(t1, &nak);
    assert!(matches!(a[0], Action::Lost));
    assert_eq!(sent(&a)[0].0.message_type(), Some(MessageType::Discover));
}

#[test]
fn init_reboot_asks_for_the_old_address_and_falls_back_to_discover() {
    let mut c = client();
    let t0 = NOW;
    let a = c.start(t0, Some(Ipv4Addr::new(10, 0, 2, 15)));
    let s = sent(&a);
    assert_eq!(*c.state(), State::Rebooting);
    assert_eq!(s[0].0.message_type(), Some(MessageType::Request));
    assert!(s[0].0.options.get(option::SERVER_ID).is_none());
    assert_eq!(
        s[0].0.options.ipv4(option::REQUESTED_IP),
        Some(Ipv4Addr::new(10, 0, 2, 15))
    );
    // Confirmed straight to Bound.
    let ack = reply(s[0].0, MessageType::Ack, Ipv4Addr::new(10, 0, 2, 15), 600);
    let a = c.receive(t0, &ack);
    assert!(matches!(a[0], Action::Bound(_)));

    // And when nobody answers, two tries then discover.
    let mut c = client();
    let mut now = t0;
    c.start(now, Some(Ipv4Addr::new(10, 0, 2, 15)));
    now = c.next_deadline().unwrap();
    c.tick(now);
    assert_eq!(*c.state(), State::Rebooting);
    now = c.next_deadline().unwrap();
    let a = c.tick(now);
    assert_eq!(*c.state(), State::Selecting);
    assert_eq!(sent(&a)[0].0.message_type(), Some(MessageType::Discover));
}

#[test]
fn release_sends_a_release_from_the_bound_address() {
    let mut c = client();
    let t0 = NOW;
    bind(&mut c, t0, 1000);
    let a = c.release(t0);
    let s = sent(&a);
    assert_eq!(s[0].0.message_type(), Some(MessageType::Release));
    assert_eq!(s[0].0.ciaddr, Ipv4Addr::new(10, 0, 2, 15));
    assert_eq!(*c.state(), State::Init);
    assert!(c.next_deadline().is_none());
}

/// The ticks, counted from one, of the next six deadlines that report silence.
fn reports(c: &mut Client) -> Vec<usize> {
    let mut at = Vec::new();
    for n in 1..7 {
        let deadline = c.next_deadline().unwrap();
        let a = c.tick(deadline);
        assert_eq!(sent(&a).len(), 1);
        if a.contains(&Action::NoOffer) {
            at.push(n);
        }
    }
    at
}

#[test]
fn silence_is_reported_again_after_a_lease_was_lost() {
    let mut c = client();
    c.start(NOW, None);
    assert_eq!(reports(&mut c), [3]);
    let mut now = c.next_deadline().unwrap();
    let a = c.tick(now);
    let offer = reply(sent(&a)[0].0, MessageType::Offer, Ipv4Addr::new(10, 0, 2, 15), 1000);
    let a = c.receive(now, &offer);
    let ack = reply(sent(&a)[0].0, MessageType::Ack, Ipv4Addr::new(10, 0, 2, 15), 1000);
    assert!(matches!(c.receive(now, &ack)[0], Action::Bound(_)));
    loop {
        now = c.next_deadline().unwrap();
        if c.tick(now).contains(&Action::Lost) {
            break;
        }
    }
    assert_eq!(*c.state(), State::Selecting);
    assert_eq!(reports(&mut c), [3]);
}

#[test]
fn silence_is_reported_again_after_a_nak() {
    let mut c = client();
    c.start(NOW, None);
    assert_eq!(reports(&mut c), [3]);
    let now = c.next_deadline().unwrap();
    let a = c.tick(now);
    let offer = reply(sent(&a)[0].0, MessageType::Offer, Ipv4Addr::new(10, 0, 2, 15), 1000);
    let a = c.receive(now, &offer);
    let nak = reply(sent(&a)[0].0, MessageType::Nak, Ipv4Addr::unspecified(), 0);
    assert_eq!(sent(&c.receive(now, &nak)).len(), 1);
    assert_eq!(*c.state(), State::Selecting);
    assert_eq!(reports(&mut c), [3]);
}
