use netd::addr::{IpAddr, Ipv4Addr, Ipv6Addr};
use netd::netd::model::{
    bus_path, format_mac, interface_id, is_pci_address, is_v6_link_local, wireless_paths, Address,
    Identity, Link, LinkKind, Observed, Route,
};

#[test]
fn ids_are_stable_and_distinct() {
    let id = Identity { path: "pci-0000:00:03.0".into(), driver: "virtio_net".into() };
    let mac = [0x52, 0x54, 0, 1, 2, 3];
    let a = interface_id(&id, Some(&mac), "eth0");
    let b = interface_id(&id, Some(&mac), "enp0s3");
    assert_eq!(a, b, "a rename does not change the id");
    assert_eq!(a.len(), 36);
    assert_eq!(&a[14..15], "5");
    let other = interface_id(&id, Some(&[0x52, 0x54, 0, 1, 2, 4]), "eth0");
    assert_ne!(a, other);
}

#[test]
fn pci_addresses_are_recognised() {
    assert!(is_pci_address("0000:00:04.0"));
    assert!(!is_pci_address("virtio1"));
    assert!(!is_pci_address("pci0000:00"));
}

#[test]
fn macs_format() {
    assert_eq!(format_mac(&[0x52, 0x54, 0, 0xab, 0xcd, 0xef]), "52:54:00:ab:cd:ef");
}

#[test]
fn ids_are_digests_of_slot_and_hardware_address() {
    let id = Identity { path: "pci-0000:00:03.0".into(), driver: "virtio_net".into() };
    let mac = [0x52, 0x54, 0, 1, 2, 3];
    assert_eq!(interface_id(&id, Some(&mac), "eth0"), "df78d91e-3d9e-59af-9246-c6ad38097ead");
    assert_eq!(interface_id(&Identity::default(), None, "lo"), "10efd87d-2a8f-5722-970b-9485745322d1");
}

#[test]
fn the_nearest_pci_function_names_the_slot() {
    let up = |names: &[&str]| -> Vec<String> { names.iter().map(|s| s.to_string()).collect() };
    assert_eq!(bus_path(&up(&["virtio1", "0000:00:04.0", "pci0000:00"])), "pci-0000:00:04.0");
    assert_eq!(
        bus_path(&up(&["net", "0000:01:00.0", "0000:00:02.0"])),
        "pci-0000:01:00.0"
    );
    assert_eq!(bus_path(&up(&["vmbus", "platform"])), "vmbus");
    assert_eq!(bus_path(&up(&[])), "");
}

#[test]
fn wireless_markers_stand_under_the_link() {
    assert_eq!(
        wireless_paths("wlan0"),
        (
            "/sys/class/net/wlan0/wireless".to_string(),
            "/sys/class/net/wlan0/phy80211".to_string()
        )
    );
}

fn link(index: u32, name: &str) -> Link {
    Link {
        index,
        name: name.into(),
        mac: None,
        up: true,
        carrier: true,
        loopback: false,
        mtu: 1500,
        link_type: 1,
        kind: LinkKind::Ether,
    }
}

#[test]
fn one_link_stands_for_each_index_in_order() {
    let mut o = Observed::default();
    o.insert_link(link(3, "c"));
    o.insert_link(link(1, "a"));
    o.insert_link(link(2, "b"));
    o.insert_link(link(3, "d"));
    let names: Vec<&str> = o.links.iter().map(|l| l.name.as_str()).collect();
    assert_eq!(names, ["a", "b", "d"]);
    assert_eq!(o.link(3).unwrap().name, "d");
    assert!(o.link(4).is_none());
}

#[test]
fn addresses_and_routes_are_found_by_index() {
    let mut o = Observed::default();
    let a = |i| Address::new(i, IpAddr::V4(Ipv4Addr::new(10, 0, 0, i as u8)), 24);
    o.addresses = vec![a(1), a(2), a(1)];
    assert_eq!(o.addresses_of(1), vec![a(1), a(1)]);
    assert!(o.addresses_of(9).is_empty());
    let r = Route {
        index: 2,
        destination: IpAddr::V6(Ipv6Addr { bits: 0 }),
        prefix: 0,
        gateway: None,
        metric: 0,
        protocol: 2,
    };
    o.routes = vec![r];
    assert!(o.routes_of(2)[0].is_default() && !o.routes_of(2)[0].is_v4());
    assert!(o.routes_of(1).is_empty());
}

#[test]
fn link_locals_are_told_apart() {
    assert!(is_v6_link_local(&Ipv6Addr::parse("fe80::1").unwrap()));
    assert!(is_v6_link_local(&Ipv6Addr::parse("febf::1").unwrap()));
    assert!(!is_v6_link_local(&Ipv6Addr::parse("fec0::1").unwrap()));
}
