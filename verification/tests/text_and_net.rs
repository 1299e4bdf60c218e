use sni_spoof_rs::net::{parse_ip, parse_socket_addr, IpAddr, SocketAddr};
use sni_spoof_rs::text::{
    decimal_string, eq_ignore_ascii_case, int_error_message, lines_trimmed, parse_unsigned,
    to_ascii_lowercase, to_ascii_uppercase, trim_str, IntErrorKind,
};

#[test]
fn trims_unicode_white_space() {
    assert_eq!(trim_str("  a b \t\n"), "a b");
    assert_eq!(trim_str("\u{3000}x\u{a0}"), "x");
    assert_eq!(trim_str("   "), "");
}

#[test]
fn keeps_trimmed_non_blank_lines() {
    let lines = lines_trimmed("# head\n a \r\n\n  #c\nb", true);
    assert_eq!(lines, vec!["a".to_string(), "b".to_string()]);
    let lines = lines_trimmed("# head\n a \r\n", false);
    assert_eq!(lines, vec!["# head".to_string(), "a".to_string()]);
}

#[test]
fn parses_unsigned_like_std() {
    assert_eq!(parse_unsigned("42", u64::MAX), Ok(42));
    assert_eq!(parse_unsigned("+7", u64::MAX), Ok(7));
    assert_eq!(parse_unsigned("007", 10), Ok(7));
    assert_eq!(parse_unsigned("", u64::MAX), Err(IntErrorKind::Empty));
    assert_eq!(parse_unsigned("+", u64::MAX), Err(IntErrorKind::InvalidDigit));
    assert_eq!(parse_unsigned("-5", u64::MAX), Err(IntErrorKind::InvalidDigit));
    assert_eq!(parse_unsigned("12a", u64::MAX), Err(IntErrorKind::InvalidDigit));
    assert_eq!(parse_unsigned("65536", 65535), Err(IntErrorKind::PosOverflow));
    assert_eq!(
        parse_unsigned("99999999999999999999x", u64::MAX),
        Err(IntErrorKind::PosOverflow)
    );
    for (text, max) in [("18446744073709551615", u64::MAX), ("123", 1000)] {
        assert_eq!(parse_unsigned(text, max).ok(), text.parse::<u64>().ok());
    }
    assert_eq!(
        int_error_message(IntErrorKind::InvalidDigit),
        "x".parse::<u64>().unwrap_err().to_string()
    );
    assert_eq!(
        int_error_message(IntErrorKind::Empty),
        "".parse::<u64>().unwrap_err().to_string()
    );
    assert_eq!(
        int_error_message(IntErrorKind::PosOverflow),
        "99999999999999999999".parse::<u64>().unwrap_err().to_string()
    );
}

#[test]
fn formats_decimal_and_case() {
    assert_eq!(decimal_string(0), "0");
    assert_eq!(decimal_string(40443), "40443");
    assert_eq!(decimal_string(u64::MAX), u64::MAX.to_string());
    assert_eq!(to_ascii_lowercase("VLess+Ü"), "vless+Ü");
    assert_eq!(to_ascii_uppercase("trojan"), "TROJAN");
    assert!(eq_ignore_ascii_case("LocalHost", "localhost"));
    assert!(!eq_ignore_ascii_case("localhost", "localhos"));
}

#[test]
fn parses_ip_addresses_like_std() {
    let v4 = |t: &str| parse_ip(t);
    assert_eq!(v4("0.0.0.0"), Some(IpAddr::V4(0)));
    assert_eq!(v4("127.0.0.1"), Some(IpAddr::V4(0x7f00_0001)));
    assert_eq!(v4("255.255.255.255"), Some(IpAddr::V4(0xffff_ffff)));
    for bad in ["256.0.0.1", "01.2.3.4", "1.2.3", "1.2.3.4.5", "1.2.3.4 ", "", "a", "1.2.3.1000"] {
        assert_eq!(parse_ip(bad), None, "{}", bad);
    }
    assert_eq!(parse_ip("::"), Some(IpAddr::V6(0)));
    assert_eq!(parse_ip("::1"), Some(IpAddr::V6(1)));
    assert_eq!(parse_ip("1::"), Some(IpAddr::V6(1u128 << 112)));
    assert_eq!(
        parse_ip("2001:db8::1"),
        Some(IpAddr::V6(0x2001_0db8_0000_0000_0000_0000_0000_0001))
    );
    assert_eq!(
        parse_ip("2001:DB8:0:0:8:800:200C:417A"),
        Some(IpAddr::V6(0x2001_0db8_0000_0000_0008_0800_200c_417a))
    );
    assert_eq!(
        parse_ip("::ffff:1.2.3.4"),
        Some(IpAddr::V6(0x0000_0000_0000_0000_0000_ffff_0102_0304))
    );
    assert_eq!(
        parse_ip("1:2:3:4:5:6:1.2.3.4"),
        Some(IpAddr::V6(0x0001_0002_0003_0004_0005_0006_0102_0304))
    );
    assert_eq!(
        parse_ip("1:2:3:4:5:6:7:8"),
        Some(IpAddr::V6(0x0001_0002_0003_0004_0005_0006_0007_0008))
    );
    assert_eq!(
        parse_ip("1:2:3:4:5:6:7::"),
        Some(IpAddr::V6(0x0001_0002_0003_0004_0005_0006_0007_0000))
    );
    assert_eq!(
        parse_ip("::2:3:4:5:6:7:8"),
        Some(IpAddr::V6(0x0000_0002_0003_0004_0005_0006_0007_0008))
    );
    for bad in [
        "1:2:3:4:5:6:7:8:9", ":::", "1::2::3", "12345::", "::1.2.3", "fe80::1%eth0", "::01.2.3.4",
        "1:2:3:4:5:6::1.2.3.4", "1:2:3:4:5:6:7", "1.2.3.4::", "[::1]",
    ] {
        assert_eq!(parse_ip(bad), None, "{}", bad);
    }
}

#[test]
fn parses_socket_addresses_like_std() {
    assert_eq!(
        parse_socket_addr("127.0.0.1:40443"),
        Some(SocketAddr::V4 { ip: 0x7f00_0001, port: 40443 })
    );
    assert_eq!(parse_socket_addr("0.0.0.0:0"), Some(SocketAddr::V4 { ip: 0, port: 0 }));
    assert_eq!(
        parse_socket_addr("1.2.3.4:0080"),
        Some(SocketAddr::V4 { ip: 0x0102_0304, port: 80 })
    );
    assert_eq!(
        parse_socket_addr("[::1]:80"),
        Some(SocketAddr::V6 { ip: 1, port: 80, flowinfo: 0, scope_id: 0 })
    );
    assert_eq!(
        parse_socket_addr("[::1%5]:80"),
        Some(SocketAddr::V6 { ip: 1, port: 80, flowinfo: 0, scope_id: 5 })
    );
    assert_eq!(
        parse_socket_addr("[1:2::3]:443"),
        Some(SocketAddr::V6 {
            ip: 0x0001_0002_0000_0000_0000_0000_0000_0003,
            port: 443,
            flowinfo: 0,
            scope_id: 0
        })
    );
    for bad in [
        "1.2.3.4:65536", "1.2.3.4", "1.2.3.4:", "[::1%x]:80", "[::1]80", "[::1]:", "::1:80",
        "[::1]]:80", "[]:80", "1.2.3.4:+80", " 1.2.3.4:80",
    ] {
        assert_eq!(parse_socket_addr(bad), None, "{}", bad);
    }
}

#[test]
fn formats_addresses_like_std() {
    let ips = [
        "0.0.0.0", "10.250.0.1", "::", "::1", "1::", "2001:db8::1", "1:0:0:2::3",
        "1::2:0:0:3:4", "::ffff:1.2.3.4", "fe80::1:2", "1:2:3:4:5:6:7:8", "0:0:1::",
        "1:0:2:3:4:5:6:7",
    ];
    for c in ips {
        let parsed = parse_ip(c).expect(c);
        assert_eq!(parsed.to_text(), c);
    }
    assert_eq!(parse_ip("1:0:0:2:0:0:0:3").unwrap().to_text(), "1:0:0:2::3");
    assert_eq!(parse_ip("1:0:0:2:0:0:3:4").unwrap().to_text(), "1::2:0:0:3:4");
    assert_eq!(parse_ip("2001:DB8::A").unwrap().to_text(), "2001:db8::a");
    let sockets = ["127.0.0.1:40443", "[::1]:80", "[fe80::1%7]:443", "[::]:0"];
    for c in sockets {
        let parsed = parse_socket_addr(c).expect(c);
        assert_eq!(parsed.to_text(), c);
    }
}

#[test]
fn address_text_reads_back() {
    for text in ["1.2.3.4:5", "255.0.10.200:65535", "0.0.0.0:0"] {
        let a = parse_socket_addr(text).unwrap();
        assert_eq!(parse_socket_addr(&a.to_text()), Some(a));
    }
    let v6 = [
        SocketAddr::V6 { ip: 0, port: 1, flowinfo: 0, scope_id: 0 },
        SocketAddr::V6 { ip: 0xffff_0102_0304, port: 443, flowinfo: 0, scope_id: 0 },
        SocketAddr::V6 { ip: 0xfe80 << 112 | 1, port: 80, flowinfo: 0, scope_id: 4294967295 },
        SocketAddr::V6 { ip: 0x0001_0000_0000_0002_0000_0000_0003_0004, port: 65535, flowinfo: 0, scope_id: 9 },
        SocketAddr::V6 { ip: u128::MAX, port: 8080, flowinfo: 0, scope_id: 0 },
    ];
    for a in v6 {
        assert_eq!(parse_socket_addr(&a.to_text()), Some(a));
    }
    for ip in [IpAddr::V6(0), IpAddr::V6(1), IpAddr::V6(0xffff_c0a8_0001), IpAddr::V6(u128::MAX), IpAddr::V4(u32::MAX)] {
        assert_eq!(parse_ip(&ip.to_text()), Some(ip));
    }
    // the text of an IPv6 socket address does not show its flow information
    let flow = SocketAddr::V6 { ip: 1, port: 2, flowinfo: 7, scope_id: 0 };
    assert_eq!(flow.to_text(), "[::1]:2");
    assert_eq!(
        parse_socket_addr(&flow.to_text()),
        Some(SocketAddr::V6 { ip: 1, port: 2, flowinfo: 0, scope_id: 0 })
    );
}

#[test]
fn loopback_and_unspecified() {
    assert!(IpAddr::V4(0x7f00_0001).is_loopback());
    assert!(IpAddr::V4(0x7fff_ffff).is_loopback());
    assert!(!IpAddr::V4(0x8000_0001).is_loopback());
    assert!(IpAddr::V6(1).is_loopback());
    assert!(IpAddr::V6(0).is_unspecified());
    assert!(IpAddr::V4(0).is_unspecified());
}
