use do_ddns::address::{parse_ip, parse_ipv4_text, WanAddress};

fn v4(a: u8, b: u8, c: u8, d: u8) -> WanAddress {
    WanAddress::V4 { a, b, c, d }
}

#[test]
fn parses_plain_ipv4() {
    match parse_ip("203.0.113.5") {
        Some(WanAddress::V4 { a, b, c, d }) => {
            assert_eq!((a, b, c, d), (203, 0, 113, 5));
        }
        _ => panic!("expected a v4 address"),
    }
}

#[test]
fn ipv4_resolves_to_record_type_a() {
    let addr = parse_ip("203.0.113.5").unwrap();
    assert_eq!(addr.record_type(), "A");
}

#[test]
fn ipv6_resolves_to_record_type_aaaa() {
    let addr = parse_ip("2001:db8::1").unwrap();
    assert_eq!(addr.record_type(), "AAAA");
}

#[test]
fn ipv4_text_round_trip() {
    let addr = v4(198, 51, 100, 99);
    assert_eq!(addr.to_text(), "198.51.100.99");
    match parse_ip(&addr.to_text()) {
        Some(WanAddress::V4 { a, b, c, d }) => assert_eq!((a, b, c, d), (198, 51, 100, 99)),
        _ => panic!("expected the same v4 address back"),
    }
}

#[test]
fn ipv4_rejects_bad_octets() {
    assert!(parse_ipv4_text("256.1.1.1").is_none());
    assert!(parse_ipv4_text("01.2.3.4").is_none());
    assert!(parse_ipv4_text("1.2.3").is_none());
    assert!(parse_ipv4_text("1.2.3.4.5").is_none());
    assert!(parse_ipv4_text("").is_none());
    assert!(parse_ipv4_text("1.2.3.x").is_none());
    assert!(parse_ipv4_text("1.2.3.").is_none());
}

#[test]
fn ipv4_accepts_boundary_octets() {
    assert_eq!(parse_ipv4_text("0.0.0.0"), Some((0, 0, 0, 0)));
    assert_eq!(parse_ipv4_text("255.255.255.255"), Some((255, 255, 255, 255)));
}

#[test]
fn cgnat_range_is_detected() {
    // the block is 100.64.0.0/10
    assert!(v4(100, 64, 0, 1).is_cgnat());
    assert!(v4(100, 127, 255, 254).is_cgnat());
    assert!(v4(100, 100, 7, 7).is_cgnat());
}

#[test]
fn addresses_beside_cgnat_block_are_not_cgnat() {
    assert!(!v4(100, 63, 255, 255).is_cgnat());
    assert!(!v4(100, 128, 0, 0).is_cgnat());
    assert!(!v4(99, 64, 0, 1).is_cgnat());
    assert!(!v4(198, 51, 100, 1).is_cgnat());
}

#[test]
fn ipv6_is_never_cgnat() {
    assert!(!parse_ip("2001:db8::1").unwrap().is_cgnat());
}

fn segments(addr: WanAddress) -> [u16; 8] {
    match addr {
        WanAddress::V6 { s0, s1, s2, s3, s4, s5, s6, s7 } => [s0, s1, s2, s3, s4, s5, s6, s7],
        _ => panic!("expected a v6 address"),
    }
}

#[test]
fn parses_compressed_ipv6() {
    let got = segments(parse_ip("2001:db8::1").unwrap());
    assert_eq!(got, [0x2001, 0xdb8, 0, 0, 0, 0, 0, 1]);
}

#[test]
fn parses_full_ipv6() {
    let got = segments(parse_ip("1:2:3:4:5:6:7:8").unwrap());
    assert_eq!(got, [1, 2, 3, 4, 5, 6, 7, 8]);
}

#[test]
fn parses_loopback_and_unspecified_ipv6() {
    assert_eq!(segments(parse_ip("::1").unwrap()), [0, 0, 0, 0, 0, 0, 0, 1]);
    assert_eq!(segments(parse_ip("::").unwrap()), [0, 0, 0, 0, 0, 0, 0, 0]);
    assert_eq!(segments(parse_ip("1::").unwrap()), [1, 0, 0, 0, 0, 0, 0, 0]);
}

#[test]
fn parses_ipv6_with_embedded_quad() {
    let got = segments(parse_ip("::ffff:192.0.2.1").unwrap());
    assert_eq!(got, [0, 0, 0, 0, 0, 0xffff, 0xc000, 0x0201]);
}

#[test]
fn parses_uppercase_hex_ipv6() {
    let got = segments(parse_ip("2001:DB8::A").unwrap());
    assert_eq!(got, [0x2001, 0xdb8, 0, 0, 0, 0, 0, 0xa]);
}

#[test]
fn rejects_malformed_ipv6() {
    assert!(parse_ip("1:2:3").is_none());
    assert!(parse_ip("1::2::3").is_none());
    assert!(parse_ip(":::").is_none());
    assert!(parse_ip("1:2:3:4:5:6:7:8:9").is_none());
    assert!(parse_ip("12345::").is_none());
    assert!(parse_ip("g::1").is_none());
    assert!(parse_ip("abcd").is_none());
    assert!(parse_ip("").is_none());
    assert!(parse_ip(":1:2:3:4:5:6:7").is_none());
}

#[test]
fn compression_must_shorten() {
    // a "::" standing for no group at all is not accepted
    assert!(parse_ip("1:2:3:4:5:6:7::8").is_none());
}

#[test]
fn ipv6_text_compresses_longest_zero_run() {
    assert_eq!(parse_ip("2001:DB8::1").unwrap().to_text(), "2001:db8::1");
    assert_eq!(parse_ip("::").unwrap().to_text(), "::");
    assert_eq!(parse_ip("::1").unwrap().to_text(), "::1");
    assert_eq!(parse_ip("1::").unwrap().to_text(), "1::");
    assert_eq!(parse_ip("1:2:3:4:5:6:7:8").unwrap().to_text(), "1:2:3:4:5:6:7:8");
}

#[test]
fn ipv6_text_keeps_single_zero_group() {
    // a lone zero group is not shortened
    let addr = WanAddress::V6 { s0: 1, s1: 0, s2: 2, s3: 3, s4: 4, s5: 5, s6: 6, s7: 7 };
    assert_eq!(addr.to_text(), "1:0:2:3:4:5:6:7");
}

#[test]
fn ipv6_text_prefers_leftmost_of_equal_runs() {
    let addr = WanAddress::V6 { s0: 1, s1: 0, s2: 0, s3: 2, s4: 0, s5: 0, s6: 3, s7: 4 };
    assert_eq!(addr.to_text(), "1::2:0:0:3:4");
}

#[test]
fn ipv6_text_picks_longest_run() {
    let addr = WanAddress::V6 { s0: 1, s1: 0, s2: 0, s3: 2, s4: 0, s5: 0, s6: 0, s7: 4 };
    assert_eq!(addr.to_text(), "1:0:0:2::4");
}

#[test]
fn ipv6_text_round_trip() {
    for text in ["2001:db8::1", "::ffff:c000:201", "fe80::1:2:3:4", "1:2:3:4:5:6:7:8"] {
        let addr = parse_ip(text).unwrap();
        assert_eq!(addr.to_text(), *text);
    }
}
