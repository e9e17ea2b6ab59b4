use netd::addr::{IpAddr, Ipv4Addr, Ipv6Addr};

#[test]
fn ipv4_texts_are_read_and_written() {
    let a = Ipv4Addr::parse("192.168.1.77").unwrap();
    assert_eq!(a.octets(), [192, 168, 1, 77]);
    assert_eq!(a.to_text(), "192.168.1.77");
    for bad in ["", "1.2.3", "1.2.3.4.5", "256.1.1.1", "01.2.3.4", "1.2.3.x", " 1.2.3.4", "+1.2.3.4"] {
        assert_eq!(Ipv4Addr::parse(bad), None, "{bad}");
    }
}

#[test]
fn ipv6_texts_are_read_and_written() {
    for (given, shown) in [
        ("::", "::"),
        ("::1", "::1"),
        ("fe80::1", "fe80::1"),
        ("2001:db8:0:0:1:0:0:1", "2001:db8::1:0:0:1"),
        ("2001:0DB8::", "2001:db8::"),
        ("1:2:3:4:5:6:7:8", "1:2:3:4:5:6:7:8"),
        ("::ffff:10.0.2.2", "::ffff:10.0.2.2"),
        ("1:0:2:3:4:5:6:7", "1:0:2:3:4:5:6:7"),
    ] {
        assert_eq!(Ipv6Addr::parse(given).unwrap().to_text(), shown, "{given}");
    }
    for bad in ["", ":", ":::", "1::2::3", "12345::", "1:2:3:4:5:6:7", "1:2:3:4:5:6:7:8:9", "g::"] {
        assert_eq!(Ipv6Addr::parse(bad), None, "{bad}");
    }
}

#[test]
fn either_family_is_read() {
    assert!(IpAddr::parse("10.0.0.1").unwrap().is_ipv4());
    assert!(!IpAddr::parse("fd00::1").unwrap().is_ipv4());
    assert_eq!(IpAddr::parse("nowhere"), None);
    assert!(IpAddr::parse("127.0.0.1").unwrap().is_loopback());
    assert!(IpAddr::parse("::1").unwrap().is_loopback());
    assert!(!IpAddr::parse("::2").unwrap().is_loopback());
}
