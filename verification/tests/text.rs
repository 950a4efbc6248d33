use tap_tunnel::addr::{IpAddr, Ipv4Addr, Ipv6Addr, SocketAddr};
use tap_tunnel::bytes::{
    append, copy_range, from_be_bytes, from_le_bytes, overwrite, to_be_bytes, to_le_bytes,
};
use tap_tunnel::ip_text::{ip_prefix_to_text, ip_to_text, parse_ip, parse_ip_prefix};
use tap_tunnel::text::{from_chars, join, parse_number, split_at, to_chars, to_decimal, to_hex, trim};

fn v4(a: u8, b: u8, c: u8, d: u8) -> IpAddr {
    IpAddr::V4(Ipv4Addr::new(a, b, c, d))
}

fn read(text: &str) -> Option<IpAddr> {
    parse_ip(&to_chars(text))
}

#[test]
fn numbers_as_bytes() {
    assert_eq!(to_be_bytes(0x0102_0304, 4), vec![1, 2, 3, 4]);
    assert_eq!(to_le_bytes(0x0102_0304, 4), vec![4, 3, 2, 1]);
    assert_eq!(to_be_bytes(0x0102_0304, 2), vec![3, 4]);
    assert_eq!(to_le_bytes(7, 0), Vec::<u8>::new());
    assert_eq!(from_be_bytes(&[1, 2, 3, 4]), 0x0102_0304);
    assert_eq!(from_le_bytes(&[1, 2, 3, 4]), 0x0403_0201);
    assert_eq!(from_be_bytes(&[0xff; 16]), u128::MAX);
    assert_eq!(from_be_bytes(&to_be_bytes(u128::MAX - 5, 16)), u128::MAX - 5);
    assert_eq!(from_le_bytes(&to_le_bytes(u128::MAX - 5, 16)), u128::MAX - 5);
}

#[test]
fn byte_strings_are_copied() {
    let mut data = vec![1, 2];
    append(&mut data, &[3, 4]);
    assert_eq!(data, vec![1, 2, 3, 4]);
    assert_eq!(copy_range(&data, 1, 3), vec![2, 3]);
    overwrite(&mut data, &[9, 8]);
    assert_eq!(data, vec![9, 8, 3, 4]);
}

#[test]
fn addresses_have_octets() {
    let ip = Ipv4Addr::new(192, 168, 1, 20);
    assert_eq!(ip.octets(), vec![192, 168, 1, 20]);
    assert_eq!(Ipv4Addr::from_octets(&[192, 168, 1, 20]), ip);
    let ip = Ipv6Addr::new(0xfd00, 1, 2, 3, 4, 5, 6, 0x1234);
    let octets = vec![0xfd, 0, 0, 1, 0, 2, 0, 3, 0, 4, 0, 5, 0, 6, 0x12, 0x34];
    assert_eq!(ip.octets(), octets);
    assert_eq!(Ipv6Addr::from_octets(&octets), ip);
}

#[test]
fn addresses_have_families() {
    assert!(v4(0, 0, 0, 0).is_unspecified());
    assert!(!v4(0, 0, 0, 1).is_unspecified());
    assert!(IpAddr::V6(Ipv6Addr { bits: 0 }).is_unspecified());
    assert_eq!(v4(1, 2, 3, 4).max_prefix_len(), 32);
    assert_eq!(IpAddr::V6(Ipv6Addr { bits: 1 }).max_prefix_len(), 128);
    let addr = SocketAddr::new(v4(1, 2, 3, 4), 80);
    assert_eq!(addr.ip(), v4(1, 2, 3, 4));
    assert_eq!(addr.port(), 80);
    let addr = SocketAddr::new(IpAddr::V6(Ipv6Addr { bits: 5 }), 81);
    assert_eq!(addr.ip(), IpAddr::V6(Ipv6Addr { bits: 5 }));
    assert_eq!(addr.port(), 81);
}

#[test]
fn numbers_are_written() {
    assert_eq!(to_decimal(0), "0");
    assert_eq!(to_decimal(10), "10");
    assert_eq!(to_decimal(u64::MAX), "18446744073709551615");
    assert_eq!(to_hex(0), "00");
    assert_eq!(to_hex(0x0a), "0a");
    assert_eq!(to_hex(0xf9), "f9");
    assert_eq!(join("ab", "cd"), "abcd");
    assert_eq!(from_chars(&to_chars("a\u{e9}\u{4e2d}")), "a\u{e9}\u{4e2d}");
}

#[test]
fn numbers_are_read() {
    let read = |text: &str, max: u64| parse_number(&to_chars(text), max);
    assert_eq!(read("0", 255), Some(0));
    assert_eq!(read("255", 255), Some(255));
    assert_eq!(read("256", 255), None);
    assert_eq!(read("+7", 255), Some(7));
    assert_eq!(read("007", 255), Some(7));
    assert_eq!(read("", 255), None);
    assert_eq!(read("+", 255), None);
    assert_eq!(read("-1", 255), None);
    assert_eq!(read("1a", 255), None);
    assert_eq!(read(" 1", 255), None);
    assert_eq!(read("18446744073709551615", u64::MAX), Some(u64::MAX));
    assert_eq!(read("18446744073709551616", u64::MAX), None);
    assert_eq!(read("99999999999999999999999", u64::MAX), None);
    for value in [0u64, 9, 10, 99, 100, 12345, u64::MAX] {
        assert_eq!(read(&to_decimal(value), u64::MAX), Some(value));
    }
}

#[test]
fn text_is_taken_apart() {
    let parts = |text: &str| -> Vec<String> {
        split_at(&to_chars(text), '/').iter().map(|p| from_chars(p)).collect()
    };
    assert_eq!(parts("a/b"), vec!["a", "b"]);
    assert_eq!(parts(""), vec![""]);
    assert_eq!(parts("/"), vec!["", ""]);
    assert_eq!(parts("a//b"), vec!["a", "", "b"]);
    assert_eq!(trim("  /usr/bin/x \n"), "/usr/bin/x");
    assert_eq!(trim("\u{3000}x y\t"), "x y");
    assert_eq!(trim(" \n "), "");
    assert_eq!(trim(""), "");
}

#[test]
fn addresses_are_written() {
    assert_eq!(ip_to_text(v4(10, 0, 0, 1)), "10.0.0.1");
    assert_eq!(ip_to_text(v4(255, 255, 255, 255)), "255.255.255.255");
    assert_eq!(ip_to_text(v4(0, 0, 0, 0)), "0.0.0.0");
    let v6 = IpAddr::V6(Ipv6Addr::new(0xfd00, 0, 0, 0, 0, 0, 0, 1));
    assert_eq!(ip_to_text(v6), "fd00::1");
    assert_eq!(ip_prefix_to_text(v4(10, 99, 0, 0), 24), "10.99.0.0/24");
    assert_eq!(ip_prefix_to_text(v6, 64), "fd00::1/64");
}

#[test]
fn addresses_are_read() {
    assert_eq!(read("10.0.0.1"), Some(v4(10, 0, 0, 1)));
    assert_eq!(read("255.255.255.255"), Some(v4(255, 255, 255, 255)));
    for wrong in ["256.0.0.1", "1.2.3", "1.2.3.4.5", "01.2.3.4", "+1.2.3.4", "1.2.3.", "", "a", "1.2.3.4 "] {
        assert_eq!(read(wrong), None, "{}", wrong);
    }
    assert_eq!(read("0.0.0.0"), Some(v4(0, 0, 0, 0)));
    assert_eq!(read("fd00::1"), Some(IpAddr::V6(Ipv6Addr::new(0xfd00, 0, 0, 0, 0, 0, 0, 1))));
    assert_eq!(
        read("0:0:0:0:0:ffff:1.2.3.4"),
        Some(IpAddr::V6(Ipv6Addr::new(0, 0, 0, 0, 0, 0xffff, 0x0102, 0x0304)))
    );
    assert_eq!(read("fd00::1::2"), None);
}

#[test]
fn prefixes_are_read() {
    assert_eq!(parse_ip_prefix("10.0.0.1/24"), Some((v4(10, 0, 0, 1), 24)));
    assert_eq!(parse_ip_prefix("10.0.0.1/0"), Some((v4(10, 0, 0, 1), 0)));
    assert_eq!(parse_ip_prefix("10.0.0.1/32"), Some((v4(10, 0, 0, 1), 32)));
    assert_eq!(parse_ip_prefix("10.0.0.1/33"), None);
    let v6 = IpAddr::V6(Ipv6Addr::new(0xfd00, 0, 0, 0, 0, 0, 0, 1));
    assert_eq!(parse_ip_prefix("fd00::1/64"), Some((v6, 64)));
    assert_eq!(parse_ip_prefix("fd00::1/128"), Some((v6, 128)));
    assert_eq!(parse_ip_prefix("fd00::1/129"), None);
    for wrong in ["10.0.0.1", "10.0.0.1/", "/24", "10.0.0.1/24/1", "10.0.0/24", "10.0.0.1/256", "10.0.0.1/x", ""] {
        assert_eq!(parse_ip_prefix(wrong), None, "{}", wrong);
    }
}

#[test]
fn prefixes_read_back() {
    for bits in [0u32, 1, 0x0a00_0001, 0xffff_ffff, 0x7f00_0001] {
        let ip = IpAddr::V4(Ipv4Addr { bits });
        assert_eq!(read(&ip_to_text(ip)), Some(ip));
        assert_eq!(parse_ip_prefix(&ip_prefix_to_text(ip, 20)), Some((ip, 20)));
        assert_eq!(parse_ip_prefix(&ip_prefix_to_text(ip, 40)), None);
    }
    for bits in [0u128, 1, u128::MAX, 0xfd00 << 112, 0xffff_0102_0304] {
        let ip = IpAddr::V6(Ipv6Addr { bits });
        assert_eq!(read(&ip_to_text(ip)), Some(ip));
        assert_eq!(parse_ip_prefix(&ip_prefix_to_text(ip, 128)), Some((ip, 128)));
    }
}
