use custom_ospf::net::{
    format_cidr, format_ip_address, format_ip_net, format_ipv4_addr, is_loopback_v4, is_unspecified_v4, net_lt,
    parse_ipv4_addr, parse_ipv4_network, IpAddress, IpNet, Ipv4Net, Ipv6Net,
};

fn ip(a: u32, b: u32, c: u32, d: u32) -> u32 {
    (a << 24) | (b << 16) | (c << 8) | d
}

#[test]
fn ipv4_net_rejects_long_prefix() {
    assert!(Ipv4Net::new(ip(10, 0, 0, 1), 33).is_none());
    assert!(Ipv4Net::new(ip(10, 0, 0, 1), 32).is_some());
}

#[test]
fn ipv4_net_mask_network_broadcast() {
    let n = Ipv4Net::new(ip(192, 168, 1, 77), 24).unwrap();
    assert_eq!(n.mask(), 0xFFFF_FF00);
    assert_eq!(n.network(), ip(192, 168, 1, 0));
    assert_eq!(n.broadcast(), ip(192, 168, 1, 255));
    assert!(n.contains(ip(192, 168, 1, 3)));
    assert!(!n.contains(ip(192, 168, 2, 3)));
    let all = Ipv4Net::new(0, 0).unwrap();
    assert_eq!(all.mask(), 0);
    assert!(all.contains(ip(8, 8, 8, 8)));
}

#[test]
fn ip_net_contains_only_its_family() {
    let v4 = IpNet::V4(Ipv4Net::new(ip(10, 0, 0, 0), 8).unwrap());
    let v6 = IpNet::V6(Ipv6Net::new(0x2001_0db8u128 << 96, 32).unwrap());
    assert!(v4.contains(IpAddress::V4(ip(10, 1, 2, 3))));
    assert!(!v4.contains(IpAddress::V6(1)));
    assert!(v6.contains(IpAddress::V6((0x2001_0db8u128 << 96) | 5)));
    assert!(!v6.contains(IpAddress::V4(ip(10, 1, 2, 3))));
    assert_eq!(v6.prefix(), 32);
}

#[test]
fn parses_and_formats_cidr() {
    let n = parse_ipv4_network("10.0.0.7/24").unwrap();
    assert_eq!(n.ip(), ip(10, 0, 0, 7));
    assert_eq!(n.prefix(), 24);
    assert!(parse_ipv4_network("10.0.0.7/33").is_none());
    assert!(parse_ipv4_network("not a network").is_none());
    assert_eq!(format_cidr(ip(10, 0, 0, 7), 24), "10.0.0.7/24");
    assert_eq!(format_ipv4_addr(ip(172, 16, 5, 4)), "172.16.5.4");
    assert_eq!(parse_ipv4_addr("172.16.5.4"), Some(ip(172, 16, 5, 4)));
    assert_eq!(parse_ipv4_addr("172.16.5"), None);
}

#[test]
fn formats_either_family() {
    assert_eq!(format_ip_address(IpAddress::V4(ip(1, 2, 3, 4))), "1.2.3.4");
    assert_eq!(format_ip_address(IpAddress::V6(1)), "::1");
    assert_eq!(format_ip_net(IpNet::V4(Ipv4Net::new(ip(10, 0, 0, 0), 8).unwrap())), "10.0.0.0/8");
    assert_eq!(format_ip_net(IpNet::V6(Ipv6Net::new(0x2001_0db8u128 << 96, 32).unwrap())), "2001:db8::/32");
}

#[test]
fn loopback_and_unspecified() {
    assert!(is_loopback_v4(ip(127, 0, 0, 1)));
    assert!(!is_loopback_v4(ip(128, 0, 0, 1)));
    assert!(is_unspecified_v4(0));
    assert!(!is_unspecified_v4(1));
}

#[test]
fn network_order_is_strict_and_total() {
    let a = IpNet::V4(Ipv4Net::new(ip(10, 0, 0, 0), 8).unwrap());
    let b = IpNet::V4(Ipv4Net::new(ip(10, 0, 0, 0), 16).unwrap());
    let c = IpNet::V6(Ipv6Net::new(1, 128).unwrap());
    assert!(net_lt(&a, &b));
    assert!(!net_lt(&b, &a));
    assert!(!net_lt(&a, &a));
    assert!(net_lt(&b, &c));
    assert!(net_lt(&a, &c));
}
