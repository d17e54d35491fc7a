use minecraft_pinger::common::ip_filter::{filter_addresses, is_public_ip, with_port, IpAddress, SocketAddress};

fn v4(a: u8, b: u8, c: u8, d: u8) -> IpAddress {
    IpAddress::V4([a, b, c, d])
}

fn v6(s: [u16; 8]) -> IpAddress {
    IpAddress::V6(s)
}

/// `::ffff:a.b.c.d`
fn mapped(a: u8, b: u8, c: u8, d: u8) -> IpAddress {
    IpAddress::V6([0, 0, 0, 0, 0, 0xffff, (a as u16) << 8 | b as u16, (c as u16) << 8 | d as u16])
}

fn allowed(ip: IpAddress) -> bool {
    is_public_ip(ip)
}

#[test]
fn rejects_private_and_reserved_ipv4() {
    assert!(!allowed(v4(127, 0, 0, 1)));
    assert!(!allowed(v4(10, 0, 0, 1)));
    assert!(!allowed(v4(172, 16, 0, 1)));
    assert!(!allowed(v4(172, 31, 255, 255)));
    assert!(!allowed(v4(192, 168, 1, 1)));
    assert!(!allowed(v4(169, 254, 169, 254))); // cloud metadata endpoint
    assert!(!allowed(v4(0, 0, 0, 0)));
    assert!(!allowed(v4(255, 255, 255, 255)));
    assert!(!allowed(v4(100, 64, 0, 1))); // CGNAT
    assert!(!allowed(v4(192, 0, 2, 1))); // TEST-NET-1
    assert!(!allowed(v4(198, 51, 100, 7))); // TEST-NET-2
    assert!(!allowed(v4(203, 0, 113, 9))); // TEST-NET-3
    assert!(!allowed(v4(198, 18, 0, 1))); // benchmarking
    assert!(!allowed(v4(224, 0, 0, 1))); // multicast
    assert!(!allowed(v4(240, 0, 0, 1))); // reserved
    assert!(!allowed(v4(192, 0, 0, 8))); // IETF assignments
}

#[test]
fn accepts_public_ipv4() {
    assert!(allowed(v4(8, 8, 8, 8)));
    assert!(allowed(v4(1, 1, 1, 1)));
    assert!(allowed(v4(51, 75, 20, 104)));
    assert!(allowed(v4(172, 32, 0, 1))); // outside private range
    assert!(allowed(v4(100, 128, 0, 1))); // outside CGNAT range
    assert!(allowed(v4(9, 9, 9, 9)));
}

#[test]
fn rejects_private_and_reserved_ipv6() {
    assert!(!allowed(v6([0, 0, 0, 0, 0, 0, 0, 1]))); // ::1
    assert!(!allowed(v6([0, 0, 0, 0, 0, 0, 0, 0]))); // ::
    assert!(!allowed(v6([0xfe80, 0, 0, 0, 0, 0, 0, 1]))); // fe80::1
    assert!(!allowed(v6([0xfc00, 0, 0, 0, 0, 0, 0, 1]))); // fc00::1
    assert!(!allowed(v6([0xfd12, 0x3456, 0x789a, 0, 0, 0, 0, 1]))); // fd12:3456:789a::1
    assert!(!allowed(v6([0xff02, 0, 0, 0, 0, 0, 0, 1]))); // ff02::1
    assert!(!allowed(v6([0x2001, 0x0db8, 0, 0, 0, 0, 0, 1]))); // 2001:db8::1
    assert!(!allowed(v6([0x2001, 0, 0, 0, 0, 0, 0, 1]))); // 2001::1 (Teredo)
    assert!(!allowed(mapped(127, 0, 0, 1))); // IPv4-mapped loopback
    assert!(!allowed(mapped(10, 0, 0, 1)));
    assert!(!allowed(mapped(169, 254, 169, 254)));
}

#[test]
fn accepts_public_ipv6() {
    assert!(allowed(v6([0x2606, 0x4700, 0x4700, 0, 0, 0, 0, 0x1111]))); // 2606:4700:4700::1111
    assert!(allowed(v6([0x2001, 0x4860, 0x4860, 0, 0, 0, 0, 0x8888]))); // 2001:4860:4860::8888
    assert!(allowed(mapped(8, 8, 8, 8))); // mapped public: IPv4 rules apply
}

#[test]
fn test_ip_filter_public_ips() {
    let public_ips = vec![
        v4(8, 8, 8, 8),
        v4(1, 1, 1, 1),
        v4(51, 75, 20, 104),
        v4(172, 32, 0, 1),
        v4(100, 128, 0, 1),
        v4(9, 9, 9, 9),
        v6([0x2606, 0x4700, 0x4700, 0, 0, 0, 0, 0x1111]),
        v6([0x2001, 0x4860, 0x4860, 0, 0, 0, 0, 0x8888]),
        mapped(8, 8, 8, 8),
    ];

    for ip in public_ips {
        assert!(is_public_ip(ip), "Expected {:?} to be public", ip);
    }
}

#[test]
fn test_ip_filter_private_ips() {
    let private_ips = vec![
        v4(127, 0, 0, 1),
        v4(10, 0, 0, 1),
        v4(172, 16, 0, 1),
        v4(172, 31, 255, 255),
        v4(192, 168, 1, 1),
        v4(169, 254, 169, 254),
        v4(0, 0, 0, 0),
        v4(255, 255, 255, 255),
        v4(100, 64, 0, 1),
        v4(192, 0, 2, 1),
        v4(198, 51, 100, 7),
        v4(203, 0, 113, 9),
        v4(198, 18, 0, 1),
        v4(224, 0, 0, 1),
        v4(240, 0, 0, 1),
        v4(192, 0, 0, 8),
        v6([0, 0, 0, 0, 0, 0, 0, 1]),
        v6([0, 0, 0, 0, 0, 0, 0, 0]),
        v6([0xfe80, 0, 0, 0, 0, 0, 0, 1]),
        v6([0xfc00, 0, 0, 0, 0, 0, 0, 1]),
        v6([0xfd12, 0x3456, 0x789a, 0, 0, 0, 0, 1]),
        v6([0xff02, 0, 0, 0, 0, 0, 0, 1]),
        v6([0x2001, 0x0db8, 0, 0, 0, 0, 0, 1]),
        v6([0x2001, 0, 0, 0, 0, 0, 0, 1]),
        mapped(127, 0, 0, 1),
        mapped(10, 0, 0, 1),
        mapped(169, 254, 169, 254),
    ];

    for ip in private_ips {
        assert!(!is_public_ip(ip), "Expected {:?} to be private", ip);
    }
}

#[test]
fn block_edges() {
    assert!(allowed(v4(100, 63, 255, 255)));
    assert!(!allowed(v4(100, 127, 255, 255)));
    assert!(allowed(v4(172, 15, 255, 255)));
    assert!(allowed(v4(198, 17, 255, 255)));
    assert!(!allowed(v4(198, 19, 255, 255)));
    assert!(allowed(v4(198, 20, 0, 0)));
    assert!(allowed(v4(192, 0, 1, 1)));
    assert!(allowed(v4(223, 255, 255, 255)));
    assert!(!allowed(v6([0x0100, 0, 0, 0, 0, 0, 0, 1])));
    assert!(allowed(v6([0x0101, 0, 0, 0, 0, 0, 0, 1])));
    assert!(allowed(v6([0x2001, 0x0200, 0, 0, 0, 0, 0, 1])));
    assert!(!allowed(v6([0x2001, 0x00ff, 0, 0, 0, 0, 0, 1])));
    assert!(allowed(v6([0xfec0, 0, 0, 0, 0, 0, 0, 1])));
    assert!(!allowed(v6([0xfebf, 0, 0, 0, 0, 0, 0, 1])));
    assert!(allowed(v6([0xfe00, 0, 0, 0, 0, 0, 0, 1])));
    // Not IPv4-mapped (fifth segment set), judged by IPv6 rules: first segment 0.
    assert!(!allowed(v6([0, 0, 0, 0, 1, 0xffff, 0x0808, 0x0808])));
}

#[test]
fn mapped_addresses_follow_ipv4() {
    for (a, b, c, d) in [(8, 8, 8, 8), (10, 1, 2, 3), (192, 168, 0, 1), (51, 75, 20, 104), (240, 0, 0, 1)] {
        assert_eq!(is_public_ip(mapped(a, b, c, d)), is_public_ip(v4(a, b, c, d)));
    }
}

#[test]
fn filter_keeps_accepted_in_order() {
    let addrs = vec![
        SocketAddress { ip: v4(10, 0, 0, 1), port: 1 },
        SocketAddress { ip: v4(8, 8, 8, 8), port: 2 },
        SocketAddress { ip: v4(1, 1, 1, 1), port: 3 },
    ];
    let verdicts: Vec<bool> = addrs.iter().map(|a| is_public_ip(a.ip)).collect();
    let kept = filter_addresses(addrs.clone(), &verdicts).unwrap();
    assert_eq!(kept, vec![addrs[1], addrs[2]]);
}

#[test]
fn filter_rejecting_everything_reports_the_ips() {
    let addrs = vec![
        SocketAddress { ip: v4(10, 0, 0, 1), port: 1 },
        SocketAddress { ip: v6([0, 0, 0, 0, 0, 0, 0, 1]), port: 2 },
    ];
    let rejected = filter_addresses(addrs, &vec![false, false]).unwrap_err();
    assert_eq!(rejected, vec![v4(10, 0, 0, 1), v6([0, 0, 0, 0, 0, 0, 0, 1])]);
    assert_eq!(filter_addresses(vec![], &vec![]).unwrap_err(), vec![]);
}

#[test]
fn with_port_attaches_the_port() {
    let addrs = with_port(&vec![v4(1, 2, 3, 4), v4(5, 6, 7, 8)], 19132);
    assert_eq!(addrs, vec![
        SocketAddress { ip: v4(1, 2, 3, 4), port: 19132 },
        SocketAddress { ip: v4(5, 6, 7, 8), port: 19132 },
    ]);
}

#[test]
fn public_filter_keeps_only_public_addresses() {
    let ips = vec![v4(10, 0, 0, 1), v4(8, 8, 8, 8), mapped(192, 168, 0, 1), v6([0x2606, 0x4700, 0, 0, 0, 0, 0, 0x1111]), v4(127, 0, 0, 1)];
    let addrs = with_port(&ips, 25565);
    let verdicts: Vec<bool> = addrs.iter().map(|a| is_public_ip(a.ip)).collect();
    let kept = filter_addresses(addrs, &verdicts).unwrap();
    assert_eq!(kept.len(), 2);
    assert!(kept.iter().all(|a| is_public_ip(a.ip)));
    assert_eq!(kept[0].ip, v4(8, 8, 8, 8));
    assert_eq!(kept[1].port, 25565);

    let private = with_port(&vec![v4(192, 168, 1, 1), v6([0xfe80, 0, 0, 0, 0, 0, 0, 1])], 1);
    let verdicts: Vec<bool> = private.iter().map(|a| is_public_ip(a.ip)).collect();
    assert_eq!(filter_addresses(private, &verdicts), Err(vec![v4(192, 168, 1, 1), v6([0xfe80, 0, 0, 0, 0, 0, 0, 1])]));
}
