use netd::addr::Ipv6Addr;
use netd::clock::{Duration, Instant};
use netd::ndp::engine::{reserved_iid, TEMP_PREFERRED, TEMP_VALID};
use netd::ndp::packet::ROUTER_ADVERT;
use netd::ndp::{Action, Config, Engine};

const NOW: Instant = Instant { nanos: 3_000_000_000 };

fn ip6(s: &str) -> Ipv6Addr {
    Ipv6Addr::parse(s).unwrap()
}

fn config() -> Config {
    Config {
        interface: "8ecde363-0000-5000-8000-000000000001".into(),
        secret: [7u8; 32],
        temporary: false,
        mac: Some([0x52, 0x54, 0, 1, 2, 3]),
        seed: 42,
    }
}

fn advert(prefix: &str, valid: u32, preferred: u32, router_lifetime: u16) -> Vec<u8> {
    let mut b = vec![
        ROUTER_ADVERT,
        0,
        0,
        0,
        64,
        0,
        0,
        0,
        0,
        0,
        0,
        0,
        0,
        0,
        0,
        0,
    ];
    b[6..8].copy_from_slice(&router_lifetime.to_be_bytes());
    b.extend_from_slice(&[3, 4, 64, 0xc0]);
    b.extend_from_slice(&valid.to_be_bytes());
    b.extend_from_slice(&preferred.to_be_bytes());
    b.extend_from_slice(&[0; 4]);
    b.extend_from_slice(&ip6(prefix).octets());
    b
}

fn router() -> Ipv6Addr {
    ip6("fe80::2")
}

#[test]
fn an_advertisement_yields_a_stable_address_and_a_router() {
    let mut e = Engine::new(config());
    let t0 = NOW;
    let actions = e.start(t0);
    assert!(matches!(actions[0], Action::Solicit(_)));
    let actions = e.receive(t0, router(), &advert("fd00::", 86400, 14400, 1800));
    assert_eq!(actions, vec![Action::Changed]);
    let addresses = e.addresses(t0);
    assert_eq!(addresses.len(), 1);
    assert_eq!(addresses[0].prefix, 64);
    assert!(!addresses[0].deprecated);
    assert!(addresses[0].on_link);
    assert_eq!((addresses[0].address.bits >> 112) as u16, 0xfd00);
    assert_eq!(e.default_router(t0), Some(router()));
    // The same advertisement again changes nothing.
    assert_eq!(
        e.receive(t0, router(), &advert("fd00::", 86400, 14400, 1800)),
        vec![]
    );
    // And the address is a pure function of prefix + identity + secret.
    let mut e2 = Engine::new(config());
    e2.receive(t0, router(), &advert("fd00::", 86400, 14400, 1800));
    assert_eq!(e2.addresses(t0), e.addresses(t0));
    // A different machine (secret) gets a different address.
    let mut e3 = Engine::new(Config {
        secret: [8u8; 32],
        ..config()
    });
    e3.receive(t0, router(), &advert("fd00::", 86400, 14400, 1800));
    assert_ne!(e3.addresses(t0)[0].address, e.addresses(t0)[0].address);
}

#[test]
fn lifetimes_deprecate_and_then_remove_the_address() {
    let mut e = Engine::new(config());
    let t0 = NOW;
    e.receive(t0, router(), &advert("fd00::", 9000, 600, 1800));
    let after_preferred = t0.plus(Duration::from_secs(601));
    let actions = e.tick(after_preferred);
    assert!(
        actions.contains(&Action::Changed),
        "deprecation is a change"
    );
    assert!(e.addresses(after_preferred)[0].deprecated);
    let after_valid = t0.plus(Duration::from_secs(9001));
    let actions = e.tick(after_valid);
    assert!(actions.contains(&Action::Changed));
    assert!(e.addresses(after_valid).is_empty());
}

#[test]
fn a_spoofed_short_lifetime_cannot_kill_the_address() {
    let mut e = Engine::new(config());
    let t0 = NOW;
    e.receive(t0, router(), &advert("fd00::", 86400, 14400, 1800));
    // An attacker's RA with valid=1: remaining is above two hours, so
    // it is clamped to two hours, not one second.
    e.receive(t0, router(), &advert("fd00::", 1, 0, 1800));
    let soon = t0.plus(Duration::from_secs(2));
    assert_eq!(e.addresses(soon).len(), 1, "the address survives");
    let within_two_hours = t0.plus(Duration::from_secs(7100));
    assert_eq!(e.addresses(within_two_hours).len(), 1);
    let after_two_hours = t0.plus(Duration::from_secs(7300));
    e.tick(after_two_hours);
    assert!(e.addresses(after_two_hours).is_empty());
}

#[test]
fn a_zero_router_lifetime_withdraws_the_default_route_only() {
    let mut e = Engine::new(config());
    let t0 = NOW;
    e.receive(t0, router(), &advert("fd00::", 86400, 14400, 1800));
    let actions = e.receive(t0, router(), &advert("fd00::", 86400, 14400, 0));
    assert!(actions.contains(&Action::Changed));
    assert_eq!(e.default_router(t0), None);
    assert_eq!(e.addresses(t0).len(), 1, "the prefix outlives its router");
}

#[test]
fn an_expired_router_restarts_solicitation() {
    let mut e = Engine::new(config());
    let t0 = NOW;
    e.start(t0);
    e.receive(t0, router(), &advert("fd00::", 86400, 14400, 10));
    assert!(e.next_deadline().is_some());
    let later = t0.plus(Duration::from_secs(11));
    let actions = e.tick(later);
    assert!(actions.contains(&Action::Changed), "the route went");
    // The next tick at its own deadline solicits again.
    let actions = e.tick(e.next_deadline().unwrap());
    assert!(actions.iter().any(|a| matches!(a, Action::Solicit(_))));
}

#[test]
fn temporary_addresses_come_and_go_beside_the_stable_one() {
    let mut e = Engine::new(Config {
        temporary: true,
        ..config()
    });
    let t0 = NOW;
    e.receive(t0, router(), &advert("fd00::", u32::MAX, u32::MAX, 1800));
    let addresses = e.addresses(t0);
    assert_eq!(addresses.len(), 2);
    let stable = Engine::new(config()).stable_address(&ip6("fd00::"));
    let temp = addresses
        .iter()
        .find(|a| a.address != stable)
        .unwrap()
        .clone();
    assert!(!temp.deprecated);
    // A day later the temp is deprecated and a fresh one exists; the
    // old one survives for standing connections.
    let next_day = t0.plus(Duration { nanos: TEMP_PREFERRED });
    e.tick(next_day);
    let addresses = e.addresses(next_day);
    assert_eq!(addresses.len(), 3);
    assert!(
        addresses
            .iter()
            .any(|a| a.address == temp.address && a.deprecated)
    );
    assert!(
        addresses
            .iter()
            .any(|a| a.address != stable && a.address != temp.address && !a.deprecated)
    );
    // Two days on, the first temp's valid lifetime is done.
    let later = t0.plus(Duration { nanos: TEMP_VALID }).plus(Duration::from_secs(1));
    e.tick(later);
    assert!(e.addresses(later).iter().all(|a| a.address != temp.address));
}

#[test]
fn dns_and_search_arrive_and_expire() {
    let mut e = Engine::new(config());
    let t0 = NOW;
    let mut b = advert("fd00::", 86400, 14400, 1800);
    b.extend_from_slice(&[25, 3, 0, 0]);
    b.extend_from_slice(&1200u32.to_be_bytes());
    b.extend_from_slice(&ip6("fd00::3").octets());
    b.extend_from_slice(&[31, 2, 0, 0]);
    b.extend_from_slice(&1200u32.to_be_bytes());
    b.extend_from_slice(&[3, b'l', b'a', b'n', 0, 0, 0, 0]);
    let actions = e.receive(t0, router(), &b);
    assert!(actions.contains(&Action::Changed));
    assert_eq!(
        e.dns_servers(t0),
        vec![ip6("fd00::3")]
    );
    assert_eq!(e.search_domains(t0), vec!["lan".to_owned()]);
    let later = t0.plus(Duration::from_secs(1201));
    let actions = e.tick(later);
    assert!(actions.contains(&Action::Changed));
    assert!(e.dns_servers(later).is_empty());
    assert!(e.search_domains(later).is_empty());
}

#[test]
fn the_managed_flag_wants_dhcp6() {
    let mut e = Engine::new(config());
    let t0 = NOW;
    assert!(!e.wants_dhcp6());
    let mut b = advert("fd00::", 86400, 14400, 1800);
    b[5] = 0x40; // O
    let actions = e.receive(t0, router(), &b);
    assert!(e.wants_dhcp6());
    assert!(actions.contains(&Action::Changed));
}

#[test]
fn solicitation_backs_off_while_nobody_answers() {
    let mut e = Engine::new(config());
    let t0 = NOW;
    let actions = e.start(t0);
    assert!(actions.iter().any(|a| matches!(a, Action::Solicit(_))));
    let mut at = t0;
    let mut intervals = Vec::new();
    for _ in 0..6 {
        let next = e.next_deadline().unwrap();
        intervals.push(next.since(at));
        at = next;
        let actions = e.tick(at);
        assert!(actions.iter().any(|a| matches!(a, Action::Solicit(_))));
    }
    // Early solicitations sit near four seconds; later ones back off.
    assert!(intervals[0] < Duration::from_secs(6));
    assert!(intervals[5] > Duration::from_secs(20));
    assert!(intervals.last().unwrap() <= &Duration::from_secs(3960));
}

#[test]
fn reserved_interface_identifiers_are_refused() {
    assert!(reserved_iid(&[0; 8]));
    assert!(reserved_iid(&[0x02, 0x00, 0x5e, 0xff, 0xfe, 0, 0, 1]));
    assert!(reserved_iid(&[
        0xfd, 0xff, 0xff, 0xff, 0xff, 0xff, 0xff, 0x80
    ]));
    assert!(!reserved_iid(&[
        0xfd, 0xff, 0xff, 0xff, 0xff, 0xff, 0xff, 0x7f
    ]));
    assert!(!reserved_iid(&[0, 0, 0, 0, 0, 0, 0, 1]));
}

#[test]
fn stable_identifiers_are_digests_under_the_secret() {
    let a = Engine::new(config()).stable_address(&ip6("fd00::"));
    assert_eq!(a.bits, (0xfd00u128 << 112) | 0x36b2bd8b83d33ea1);
    // What stands behind the first half of the prefix makes no difference.
    assert_eq!(Engine::new(config()).stable_address(&ip6("fd00::1:2")), a);
}

#[test]
fn a_range_of_five_bytes_is_reserved() {
    assert!(!reserved_iid(&[0x02, 0x00, 0x5e, 0xff, 0xfd, 0, 0, 1]));
    assert!(reserved_iid(&[0x02, 0x00, 0x5e, 0xff, 0xfe, 0xff, 0xff, 0xff]));
}

#[test]
fn at_most_four_temporary_addresses_are_held() {
    let mut e = Engine::new(Config { temporary: true, ..config() });
    let mut t = NOW;
    for round in 0..7usize {
        e.receive(t, router(), &advert("fd00::", 86400, 100, 1800));
        let stable = e.stable_address(&ip6("fd00::"));
        let temps: Vec<_> = e.addresses(t).into_iter().filter(|a| a.address != stable).collect();
        assert_eq!(temps.len(), (round + 1).min(4));
        assert_eq!(temps.iter().filter(|a| !a.deprecated).count(), 1);
        // The same again, at the same time, changes nothing.
        assert_eq!(e.receive(t, router(), &advert("fd00::", 86400, 100, 1800)), vec![]);
        t = t.plus(Duration::from_secs(100));
    }
}

#[test]
fn after_a_tick_the_next_deadline_lies_ahead() {
    let mut e = Engine::new(Config { temporary: true, ..config() });
    let t0 = NOW;
    e.start(t0);
    e.receive(t0, router(), &advert("fd00::", 8000, 100, 1800));
    assert_eq!(e.next_deadline(), Some(t0.plus(Duration::from_secs(100))));
    // The prefix is deprecated from here on, and valid for long.
    let later = t0.plus(Duration::from_secs(100));
    assert!(e.tick(later).contains(&Action::Changed));
    assert_eq!(e.next_deadline(), Some(t0.plus(Duration::from_secs(1800))));
    let mut now = later;
    for _ in 0..20 {
        let next = e.next_deadline().unwrap();
        assert!(next > now);
        now = next;
        e.tick(now);
    }
}

/// Until when, in seconds from `NOW`, the stable address lasts that was there for
/// `before` seconds and is then named again for `again`.
fn lasts(before: u32, again: u32) -> Option<u32> {
    let mut e = Engine::new(config());
    e.receive(NOW, router(), &advert("fd00::", before, 0, 1800));
    e.receive(NOW, router(), &advert("fd00::", again, 0, 1800));
    let stable = e.stable_address(&ip6("fd00::"));
    let there = |s: u32| {
        e.addresses(NOW.plus(Duration::from_secs(s))).iter().any(|a| a.address == stable)
    };
    let end = [1, 2, 100, 200, 7000, 7199, 7200, 7201, 8000, 86400].into_iter().find(|s| !there(*s));
    if let Some(s) = end {
        assert!(there(s - 1), "{before} {again} {s}");
    }
    end
}

#[test]
fn an_address_lasts_as_long_as_its_prefix() {
    const FOREVER: u32 = u32::MAX;
    // More than two hours, or more than what remained, is taken.
    assert_eq!(lasts(100, 86400), Some(86400));
    assert_eq!(lasts(86400, 7201), Some(7201));
    assert_eq!(lasts(100, 200), Some(200));
    // What remained stands, up to two hours.
    assert_eq!(lasts(7000, 100), Some(7000));
    assert_eq!(lasts(7200, 0), Some(7200));
    assert_eq!(lasts(86400, 1), Some(7200));
    assert_eq!(lasts(8000, 7199), Some(7200));
    // Forever is cut by more than two hours alone.
    assert_eq!(lasts(FOREVER, 8000), Some(8000));
    assert_eq!(lasts(FOREVER, 7200), None);
    assert_eq!(lasts(100, FOREVER), None);
    // A prefix that was not held lasts as long as it is named for.
    assert_eq!(lasts(0, 100), Some(100));
}

#[test]
fn a_tick_cuts_no_lifetime() {
    let mut e = Engine::new(config());
    e.receive(NOW, router(), &advert("fd00::", 500, 100, 1800));
    for s in [100, 200, 300, 400, 499] {
        e.tick(NOW.plus(Duration::from_secs(s)));
        assert_eq!(e.addresses(NOW.plus(Duration::from_secs(499))).len(), 1);
        assert_eq!(e.addresses(NOW.plus(Duration::from_secs(500))).len(), 0);
    }
}

#[test]
fn a_run_of_advertisements_leaves_few_addresses() {
    let mut e = Engine::new(Config { temporary: true, ..config() });
    let stable = e.stable_address(&ip6("fd00::"));
    for round in 0..5u32 {
        let t = NOW.plus(Duration::from_secs(100 * round));
        e.receive(t, router(), &advert("fd00::", 86400, 100, 1800));
        let all = e.addresses(t);
        assert!(all.len() <= 5);
        assert_eq!(all.iter().filter(|a| a.address == stable && !a.deprecated).count(), 1);
        assert_eq!(all.iter().filter(|a| a.address != stable && !a.deprecated).count(), 1);
    }
    let last = NOW.plus(Duration::from_secs(400));
    assert_eq!(e.addresses(last).len(), 5);
}
