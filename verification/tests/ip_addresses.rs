//! Address parsing and canonical rendering.

use tailscale_dns::ip::{ip_to_string, parse_ip, IpAddress};

#[test]
fn parses_ipv4_literals() {
    assert_eq!(parse_ip("10.0.0.1"), Some(IpAddress::V4(10, 0, 0, 1)));
    assert_eq!(parse_ip("0.0.0.0"), Some(IpAddress::V4(0, 0, 0, 0)));
    assert_eq!(parse_ip("255.255.255.255"), Some(IpAddress::V4(255, 255, 255, 255)));
    assert_eq!(parse_ip("192.168.0.30"), Some(IpAddress::V4(192, 168, 0, 30)));
}

#[test]
fn rejects_malformed_ipv4_literals() {
    assert_eq!(parse_ip("not-an-ip"), None);
    assert_eq!(parse_ip(""), None);
    assert_eq!(parse_ip("256.0.0.1"), None);
    assert_eq!(parse_ip("01.2.3.4"), None);
    assert_eq!(parse_ip("1.2.3"), None);
    assert_eq!(parse_ip("1.2.3.4.5"), None);
    assert_eq!(parse_ip("1.2.3.4 "), None);
    assert_eq!(parse_ip("1..2.3"), None);
    assert_eq!(parse_ip("1.2.3."), None);
    assert_eq!(parse_ip("1234.2.3.4"), None);
}

#[test]
fn parses_ipv6_literals() {
    assert_eq!(parse_ip("fe80::1"), Some(IpAddress::V6(0xfe80, 0, 0, 0, 0, 0, 0, 1)));
    assert_eq!(parse_ip("::"), Some(IpAddress::V6(0, 0, 0, 0, 0, 0, 0, 0)));
    assert_eq!(parse_ip("::1"), Some(IpAddress::V6(0, 0, 0, 0, 0, 0, 0, 1)));
    assert_eq!(
        parse_ip("1:2:3:4:5:6:7:8"),
        Some(IpAddress::V6(1, 2, 3, 4, 5, 6, 7, 8))
    );
    assert_eq!(
        parse_ip("2001:db8::8:800:200c:417a"),
        Some(IpAddress::V6(0x2001, 0xdb8, 0, 0, 8, 0x800, 0x200c, 0x417a))
    );
    assert_eq!(parse_ip("1::"), Some(IpAddress::V6(1, 0, 0, 0, 0, 0, 0, 0)));
    assert_eq!(
        parse_ip("1:2:3:4:5:6:7::"),
        Some(IpAddress::V6(1, 2, 3, 4, 5, 6, 7, 0))
    );
    assert_eq!(
        parse_ip("ABCD::ef"),
        Some(IpAddress::V6(0xabcd, 0, 0, 0, 0, 0, 0, 0xef))
    );
}

#[test]
fn parses_mixed_notation() {
    assert_eq!(
        parse_ip("::ffff:192.168.0.1"),
        Some(IpAddress::V6(0, 0, 0, 0, 0, 0xffff, 0xc0a8, 0x0001))
    );
    assert_eq!(
        parse_ip("1:2:3:4:5:6:1.2.3.4"),
        Some(IpAddress::V6(1, 2, 3, 4, 5, 6, 0x0102, 0x0304))
    );
    assert_eq!(parse_ip("::1.2.3.4"), Some(IpAddress::V6(0, 0, 0, 0, 0, 0, 0x0102, 0x0304)));
    assert_eq!(parse_ip("::ffff:1.2.3"), None);
    assert_eq!(parse_ip("1.2.3.4::"), None);
    assert_eq!(parse_ip("1:2:3:4:5:6:7:1.2.3.4"), None);
    assert_eq!(parse_ip("::ffff:1.2.3.4.5"), None);
    assert_eq!(parse_ip("::ffff:256.1.1.1"), None);
}

#[test]
fn renders_mapped_addresses_in_mixed_notation() {
    assert_eq!(
        ip_to_string(&IpAddress::V6(0, 0, 0, 0, 0, 0xffff, 0xc0a8, 0x0001)),
        "::ffff:192.168.0.1"
    );
    // Only mapped addresses use the mixed notation.
    assert_eq!(ip_to_string(&IpAddress::V6(0, 0, 0, 0, 0, 0, 0x0102, 0x0304)), "::102:304");
    let mapped = parse_ip("::ffff:192.168.0.1").unwrap();
    assert_eq!(parse_ip(&ip_to_string(&mapped)), Some(mapped));
}

#[test]
fn rejects_malformed_ipv6_literals() {
    assert_eq!(parse_ip(":"), None);
    assert_eq!(parse_ip(":::"), None);
    assert_eq!(parse_ip("1::2::3"), None);
    assert_eq!(parse_ip("12345::"), None);
    assert_eq!(parse_ip("1:2:3:4:5:6:7"), None);
    assert_eq!(parse_ip("1:2:3:4:5:6:7:8:9"), None);
    assert_eq!(parse_ip("1:2:3:4:5:6:7:8::"), None);
    assert_eq!(parse_ip("g::1"), None);
    assert_eq!(parse_ip("fe80:"), None);
    assert_eq!(parse_ip(":fe80::"), None);
}

#[test]
fn renders_ipv4_canonically() {
    assert_eq!(ip_to_string(&IpAddress::V4(10, 0, 0, 1)), "10.0.0.1");
    assert_eq!(ip_to_string(&IpAddress::V4(255, 255, 255, 255)), "255.255.255.255");
    assert_eq!(ip_to_string(&IpAddress::V4(0, 0, 0, 0)), "0.0.0.0");
}

#[test]
fn renders_ipv6_canonically() {
    assert_eq!(ip_to_string(&IpAddress::V6(0, 0, 0, 0, 0, 0, 0, 0)), "::");
    assert_eq!(ip_to_string(&IpAddress::V6(0, 0, 0, 0, 0, 0, 0, 1)), "::1");
    assert_eq!(ip_to_string(&IpAddress::V6(0xfe80, 0, 0, 0, 0, 0, 0, 1)), "fe80::1");
    assert_eq!(
        ip_to_string(&IpAddress::V6(0x2001, 0xdb8, 0, 0, 0, 0, 2, 1)),
        "2001:db8::2:1"
    );
    assert_eq!(
        ip_to_string(&IpAddress::V6(1, 2, 3, 4, 5, 6, 7, 8)),
        "1:2:3:4:5:6:7:8"
    );
    // A single zero group is not compressed.
    assert_eq!(
        ip_to_string(&IpAddress::V6(1, 0, 1, 1, 1, 1, 1, 1)),
        "1:0:1:1:1:1:1:1"
    );
    // The longest zero run wins.
    assert_eq!(
        ip_to_string(&IpAddress::V6(1, 0, 0, 1, 0, 0, 0, 1)),
        "1:0:0:1::1"
    );
    // On a tie the leftmost run wins.
    assert_eq!(
        ip_to_string(&IpAddress::V6(1, 0, 0, 1, 0, 0, 1, 1)),
        "1::1:0:0:1:1"
    );
    // Hex is lowercase without leading zeros.
    assert_eq!(
        ip_to_string(&IpAddress::V6(0xabcd, 0, 0, 0, 0, 0, 0, 0x00ef)),
        "abcd::ef"
    );
}

#[test]
fn parse_and_render_round_trip() {
    for text in ["10.0.0.1", "255.0.0.255", "::1", "fe80::1", "2001:db8::2:1", "1:2:3:4:5:6:7:8"] {
        let ip = parse_ip(text).unwrap();
        assert_eq!(ip_to_string(&ip), text);
        assert_eq!(parse_ip(&ip_to_string(&ip)), Some(ip));
    }
}
