use netd::addr::Ipv4Addr;
use netd::netd::config::{RawKey, RawValue};
use netd::netd::profile::{parse, resolve, AddressConfig, DnsConfig};

fn key(name: &str, values: &[(&str, RawValue)], children: Vec<RawKey>) -> RawKey {
    RawKey {
        name: name.into(),
        values: values
            .iter()
            .map(|(n, v)| ((*n).to_owned(), v.clone()))
            .collect(),
        children,
    }
}

fn s(v: &str) -> RawValue {
    RawValue::Str(v.into())
}

fn list(v: &[&str]) -> RawValue {
    RawValue::List(v.iter().map(|s| (*s).to_owned()).collect())
}

#[test]
fn a_bare_profile_believes_nothing_and_does_nothing() {
    let root = key("Profiles", &[], vec![key("bare", &[], vec![])]);
    let all = resolve(&root).unwrap();
    let p = all.get("bare").unwrap();
    assert!(p.enabled);
    assert!(!p.address.dhcp4());
    assert!(!p.address.autoconf6());
    assert!(!p.address.route_offered);
    assert!(!p.dns.offered);
    assert!(!p.address.link_local);
    assert!(!p.address.announce_hostname);
}

#[test]
fn subkeys_inherit_and_override_per_name_wholesale() {
    let root = key(
        "Profiles",
        &[],
        vec![key(
            "office",
            &[
                ("Address.Offered", RawValue::Int(1)),
                ("Route.Offered", RawValue::Int(1)),
                ("Dns.Servers", list(&["10.0.0.1", "10.0.0.2"])),
                ("Dns.Domains", list(&["corp.example"])),
            ],
            vec![key(
                "london",
                &[("Dns.Servers", list(&["10.1.0.1"]))],
                vec![key(
                    "db1",
                    &[
                        ("Address.Offered", RawValue::Int(0)),
                        ("Address.Static", s("10.1.0.50/24")),
                        ("Route.Offered", RawValue::Int(0)),
                        ("Route.Gateway", s("10.1.0.1")),
                        ("Dns.Servers", s("")),
                    ],
                    vec![],
                )],
            )],
        )],
    );
    let all = resolve(&root).unwrap();
    let london = all.get("office/london").unwrap();
    assert!(london.address.dhcp4());
    assert_eq!(london.dns.servers.len(), 1, "list replaced, not appended");
    assert_eq!(
        london.dns.domains,
        vec!["corp.example".to_owned()],
        "inherited"
    );
    let db1 = all.get("office/london/db1").unwrap();
    assert!(!db1.address.dhcp4());
    assert_eq!(db1.address.statics.len(), 1);
    assert_eq!(db1.address.gateway, Some(Ipv4Addr::new(10, 1, 0, 1)));
    assert!(db1.dns.servers.is_empty(), "present-but-empty means none");
    assert_eq!(
        db1.dns.domains,
        vec!["corp.example".to_owned()],
        "still inherited"
    );
    assert_eq!(db1.path, "office/london/db1");
}

#[test]
fn disabled_is_invisible_down_the_subtree_and_is_not_inherited_as_a_value() {
    let root = key(
        "Profiles",
        &[],
        vec![key(
            "office",
            &[("Enabled", RawValue::Int(0))],
            vec![key("london", &[("Enabled", RawValue::Int(1))], vec![])],
        )],
    );
    let all = resolve(&root).unwrap();
    assert!(!all.get("office").unwrap().enabled);
    assert!(
        !all.get("office/london").unwrap().enabled,
        "a child cannot re-enable itself"
    );
}

#[test]
fn families_gate_the_whole_bundle() {
    let root = key(
        "Profiles",
        &[],
        vec![key(
            "v4",
            &[
                ("Address.Offered", RawValue::Int(1)),
                ("Address.Families", s("ipv4")),
                ("Address.Static", list(&["fd00::5/64", "10.0.0.5/24"])),
            ],
            vec![],
        )],
    );
    let all = resolve(&root).unwrap();
    let p = all.get("v4").unwrap();
    assert!(p.address.dhcp4());
    assert!(!p.address.autoconf6());
    assert_eq!(p.address.statics.len(), 1);
    assert!(p.address.statics[0].address.is_ipv4());
}

#[test]
fn unknown_names_and_bad_shapes_refuse() {
    let root = key(
        "Profiles",
        &[],
        vec![key("x", &[("Address.Dhcp4", RawValue::Int(1))], vec![])],
    );
    assert!(resolve(&root).unwrap_err().contains("unknown value"));
    let root = key(
        "Profiles",
        &[],
        vec![key("x", &[("Mtu.Value", s("12"))], vec![])],
    );
    assert!(resolve(&root).unwrap_err().contains("below 68"));
    let root = key(
        "Profiles",
        &[],
        vec![key("x", &[("Address.OnExpiry", s("hold"))], vec![])],
    );
    assert!(resolve(&root).unwrap_err().contains("OnExpiry"));
    let root = key(
        "Profiles",
        &[],
        vec![key("x", &[("Route.Gateway", s("gateway"))], vec![])],
    );
    assert!(resolve(&root).unwrap_err().contains("Route.Gateway"));
}

#[test]
fn names_are_case_insensitive_and_paths_are_looked_up_lower_cased() {
    let root = key(
        "Profiles",
        &[],
        vec![key("Office", &[("address.OFFERED", s("yes"))], vec![])],
    );
    let all = resolve(&root).unwrap();
    assert!(all.get("office").unwrap().address.offered);
    assert_eq!(all.get("office").unwrap().path, "Office");
}

#[test]
fn a_present_but_empty_value_means_none() {
    let root = key(
        "Profiles",
        &[],
        vec![key(
            "office",
            &[
                ("Mtu.Value", RawValue::Int(1400)),
                ("Route.Metric", s("50")),
                ("Address.Offered", RawValue::Int(1)),
                ("Address.OnExpiry", s("keep")),
                ("Dns.Default", RawValue::Int(1)),
                ("Dns.Exclusive", s("yes")),
                ("Dns.Domains", list(&["corp"])),
            ],
            vec![key(
                "lab",
                &[
                    ("Mtu.Value", s("")),
                    ("Route.Metric", s("")),
                    ("Address.Offered", s("")),
                    ("Address.OnExpiry", s("")),
                    ("Dns.Default", s("")),
                    ("Dns.Exclusive", list(&[])),
                    ("Dns.Domains", s("")),
                ],
                vec![],
            )],
        )],
    );
    let all = resolve(&root).unwrap();
    let office = all.get("office").unwrap();
    assert_eq!((office.address.mtu, office.address.route_metric), (Some(1400), Some(50)));
    let lab = all.get("office/lab").unwrap();
    assert_eq!(lab.address, AddressConfig::default());
    assert_eq!(lab.dns, DnsConfig::default());

    let values = vec![("mtu.value".to_owned(), s(""))];
    let none = parse("office/lab", &values).unwrap();
    assert_eq!(none, (AddressConfig::default(), DnsConfig::default()));
    // Blanks are not nothing.
    let blank = vec![("mtu.value".to_owned(), s(" "))];
    assert!(parse("office/lab", &blank).is_err());
}
