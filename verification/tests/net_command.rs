use netd::libnetd::{InterfaceStatus, LeaseStatus, Level, Reply, Snapshot, Status};
use netd::net::{
    outcome, parse, print_status, profiles, rules, status, wait, Command, InterfaceReport, KeyTree,
    Report, RuleKey, Waited,
};
use netd::netd::config::{Record, RegValue, ValueType};

fn words(s: &str) -> Vec<String> {
    s.split(' ').map(|w| w.to_string()).collect()
}

#[test]
fn words_ask_for_commands() {
    assert_eq!(parse(&words("status")), Command::Status);
    assert_eq!(parse(&words("renew eth0")), Command::Renew("eth0".into()));
    assert_eq!(parse(&words("reconcile")), Command::Reconcile);
    assert_eq!(parse(&words("rules")), Command::Rules);
    assert_eq!(parse(&words("profiles")), Command::Profiles);
    assert_eq!(parse(&words("profile list")), Command::Profiles);
    assert_eq!(parse(&words("wait routed")), Command::Wait(Level::Routed, 60));
    assert_eq!(parse(&words("wait link 5")), Command::Wait(Level::Link, 5));
    assert_eq!(parse(&words("wait link +5")), Command::Wait(Level::Link, 5));
    assert_eq!(
        parse(&words("wait link 18446744073709551615")),
        Command::Wait(Level::Link, u64::MAX)
    );
    assert_eq!(
        parse(&words("wait link 18446744073709551616")),
        Command::Wait(Level::Link, 60)
    );
    assert_eq!(parse(&words("wait link soon")), Command::Wait(Level::Link, 60));
    for bad in ["wait", "wait online", "wait link 5 6", "renew", "status now", "profile", "frob"] {
        assert_eq!(parse(&words(bad)), Command::Usage, "{bad}");
    }
    assert_eq!(parse(&vec![]), Command::Usage);
}

#[test]
fn waiting_ends_at_the_level_or_the_deadline() {
    assert_eq!(wait(Some(Level::Routed), Level::Link, false), Waited::Reached);
    assert_eq!(wait(Some(Level::Link), Level::Link, true), Waited::Reached);
    assert_eq!(wait(Some(Level::Link), Level::Routed, false), Waited::Again);
    assert_eq!(wait(Some(Level::Link), Level::Routed, true), Waited::TimedOut);
    assert_eq!(wait(None, Level::Absent, false), Waited::Again);
}

#[test]
fn replies_are_successes_or_failures() {
    assert_eq!(outcome(&Reply::Done), Ok(()));
    assert_eq!(outcome(&Reply::Error("no".into())), Err(Some("no".into())));
    assert_eq!(outcome(&Reply::Snapshot(Snapshot::default())), Err(None));
    assert_eq!(status(Reply::Status(Status::default())), Ok(Status::default()));
    assert_eq!(status(Reply::Error("no".into())), Err("no".into()));
    assert_eq!(status(Reply::Done), Err("unexpected reply".into()));
}

#[test]
fn the_status_is_shown_in_full() {
    let full = InterfaceReport {
        status: InterfaceStatus {
            ifid: "id".into(),
            name: "eth0".into(),
            mac: "52:54:00:12:34:56".into(),
            path: "pci-0000:00:03.0".into(),
            driver: "virtio_net".into(),
            profile: Some("lan".into()),
            up: true,
            carrier: true,
            level: Level::Routed,
            addresses: vec!["10.0.2.15/24".into(), "10.0.2.16/24".into()],
            gateway: Some("10.0.2.2".into()),
            dns: vec!["10.0.2.3".into(), "10.0.2.4".into()],
            search: vec!["lan".into()],
            lease: Some(LeaseStatus {
                server: "10.0.2.2".into(),
                expires_in: 86000,
                state: "bound".into(),
            }),
            ..Default::default()
        },
        rule: Some("wired".into()),
        verdict: Some("JOIN".into()),
        network: Some("n1".into()),
        network_name: Some("home".into()),
        network_trust: Some("private".into()),
        gateway6: Some("fe80::2".into()),
        warning: Some("careful".into()),
    };
    let bare = InterfaceReport {
        status: InterfaceStatus { name: "lo".into(), ifid: "x".into(), ..Default::default() },
        rule: None,
        verdict: None,
        network: Some("n2".into()),
        network_name: None,
        network_trust: None,
        gateway6: None,
        warning: None,
    };
    let report = Report {
        hostname: String::new(),
        level: Level::Routed,
        refusal: Some("JOIN(nope) names no profile".into()),
        interfaces: vec![full, bare],
    };
    let expected = [
        "hostname   (unset)",
        "readiness  routed",
        "policy     REFUSED: JOIN(nope) names no profile (the last good generation stands)",
        "",
        "eth0  [id]",
        "  verdict    JOIN(lan) by wired",
        "  state      up, carrier",
        "  readiness  routed",
        "  hardware   52:54:00:12:34:56 pci-0000:00:03.0 virtio_net",
        "  network    home [n1] trust private",
        "  address    10.0.2.15/24",
        "  address    10.0.2.16/24",
        "  gateway    10.0.2.2",
        "  gateway6   fe80::2",
        "  dns        10.0.2.3 10.0.2.4",
        "  search     lan",
        "  lease      bound from 10.0.2.2, 86000s left",
        "  warning    careful",
        "",
        "lo  [x]",
        "  verdict    (none) by backstop",
        "  state      down, no-carrier",
        "  network    [n2]",
    ];
    assert_eq!(print_status(&report), expected);
}

fn text(ty: ValueType, s: &str) -> Option<RegValue> {
    Some(RegValue { ty, data: s.as_bytes().to_vec() })
}

fn number(n: u32) -> Option<RegValue> {
    Some(RegValue { ty: ValueType::Dword, data: n.to_le_bytes().to_vec() })
}

fn record(name: &str, v: &Option<RegValue>) -> Record {
    let v = v.as_ref().unwrap();
    Record { name: name.as_bytes().to_vec(), ty: v.ty, data: v.data.clone() }
}

#[test]
fn rules_and_profiles_are_listed_line_by_line() {
    let actions = text(ValueType::MultiSz, "JOIN(default)\0PROMPT\0\0");
    let kind = text(ValueType::Sz, "wired\0");
    let names = text(ValueType::MultiSz, "a\0b\0\0");
    let child = KeyTree {
        name: "slot3".into(),
        key: RuleKey { actions: None, priority: None, enabled: number(0), values: vec![] },
        children: vec![],
    };
    let tree = KeyTree {
        name: "wired".into(),
        key: RuleKey {
            values: vec![
                record("Priority", &number(10)),
                record("Name", &names),
                record("Actions", &actions),
                record("Kind", &kind),
                record("Enabled", &number(1)),
                record("", &number(1)),
                record("Blob", &text(ValueType::Binary, "?")),
            ],
            actions,
            priority: number(10),
            enabled: number(1),
        },
        children: vec![child],
    };
    assert_eq!(
        rules(&vec![tree]),
        [
            "wired [10]  Blob= Kind=wired Name=a,b  -> JOIN(default), PROMPT",
            "  wired/slot3 (disabled)  (everything)  -> NULL",
        ]
    );
    let office = KeyTree {
        name: "office".into(),
        key: RuleKey {
            actions: None,
            priority: None,
            enabled: None,
            values: vec![
                record("Priority", &number(3)),
                record("Blob", &text(ValueType::Binary, "?")),
            ],
        },
        children: vec![KeyTree {
            name: "dark".into(),
            key: RuleKey {
                actions: None,
                priority: None,
                enabled: number(0),
                values: vec![record("Enabled", &number(0))],
            },
            children: vec![],
        }],
    };
    assert_eq!(
        profiles(&vec![office]),
        ["office  Blob=(none) Priority=3", "  office/dark (disabled)  (inherits only)"]
    );
}
