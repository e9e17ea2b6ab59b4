use netd::addr::Ipv6Addr;
use netd::netd::ipv6::{
    advertisement_filter, all_dhcp_agents, all_routers, kernel_ra_off, kernel_ra_off_for, secret,
};

#[test]
fn groups_have_their_addresses() {
    assert_eq!(Some(all_routers()), Ipv6Addr::parse("ff02::2"));
    assert_eq!(Some(all_dhcp_agents()), Ipv6Addr::parse("ff02::1:2"));
}

#[test]
fn advertisements_alone_pass_the_filter() {
    let f = advertisement_filter();
    let passed: Vec<usize> = (0..256).filter(|t| f[t >> 5] & (1 << (t & 31)) == 0).collect();
    assert_eq!(passed, [134]);
}

#[test]
fn the_secret_is_made_once() {
    assert_eq!(secret(Some(vec![5; 32]), [9; 32]), ([5; 32], false));
    assert_eq!(secret(Some(vec![5; 31]), [9; 32]), ([9; 32], true));
    assert_eq!(secret(None, [9; 32]), ([9; 32], true));
}

#[test]
fn the_kernel_is_told_to_stand_back_everywhere() {
    let w = kernel_ra_off_for("eth0");
    assert_eq!(w.path, "/proc/sys/net/ipv6/conf/eth0/accept_ra");
    assert_eq!(w.value, "0");
    assert!(!w.warn);
    let all = kernel_ra_off(&vec!["default".into(), "lo".into(), "all".into(), "eth0".into()]);
    let paths: Vec<&str> = all.iter().map(|w| w.path.as_str()).collect();
    assert_eq!(
        paths,
        [
            "/proc/sys/net/ipv6/conf/all/accept_ra",
            "/proc/sys/net/ipv6/conf/default/accept_ra",
            "/proc/sys/net/ipv6/conf/lo/accept_ra",
            "/proc/sys/net/ipv6/conf/eth0/accept_ra",
        ]
    );
    assert!(all[0].warn && !all[1].warn && !all[2].warn);
}
