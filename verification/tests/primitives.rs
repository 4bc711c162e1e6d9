use sdp::errors::ParseError;
use sdp::ip::{parse_ip, parse_ipv4, parse_ipv6, Ip};
use sdp::num::{parse_u16, parse_u64, parse_u8, u16_to_hex, u64_to_dec};
use sdp::util::{split_all_vec, str_eq, tuple2_from_split, tuple3_from_split};

#[test]
fn tuple2_splits_at_the_first_separator_only() {
    let (a, b) = tuple2_from_split("k v w", ' ').unwrap();
    assert_eq!(a, "k");
    assert_eq!(b, "v w");
    assert!(matches!(
        tuple2_from_split("nospace", ' ').unwrap_err(),
        ParseError::Arity { expected: 2, .. }
    ));
}

#[test]
fn tuple3_splits_twice_and_keeps_the_rest_whole() {
    let (a, b, c) = tuple3_from_split("IN IP4 0.0.0.0/1/2", ' ').unwrap();
    assert_eq!(a, "IN");
    assert_eq!(b, "IP4");
    assert_eq!(c, "0.0.0.0/1/2");
    assert!(matches!(
        tuple3_from_split("IN IP4", ' ').unwrap_err(),
        ParseError::Arity { expected: 3, .. }
    ));
}

#[test]
fn split_all_keeps_empty_parts() {
    let parts = split_all_vec("a;;b;", ';');
    assert_eq!(parts, vec!["a", "", "b", ""]);
    assert_eq!(split_all_vec("", ';'), vec![""]);
    assert_eq!(split_all_vec("plain", ';'), vec!["plain"]);
}

#[test]
fn str_eq_is_exact() {
    assert!(str_eq("abc", "abc"));
    assert!(!str_eq("abc", "abd"));
    assert!(!str_eq("abc", "ab"));
    assert!(str_eq("", ""));
}

#[test]
fn decimal_parsing_follows_integer_syntax() {
    assert_eq!(parse_u8("255").unwrap(), 255);
    assert!(parse_u8("256").is_err());
    assert_eq!(parse_u8("+7").unwrap(), 7);
    assert_eq!(parse_u8("007").unwrap(), 7);
    assert!(parse_u8("").is_err());
    assert!(parse_u8("+").is_err());
    assert!(parse_u8("-1").is_err());
    assert!(parse_u8("1 ").is_err());
    assert_eq!(parse_u16("65535").unwrap(), 65535);
    assert_eq!(parse_u64("18446744073709551615").unwrap(), u64::MAX);
    assert!(parse_u64("18446744073709551616").is_err());
}

#[test]
fn decimal_and_hex_formatting_are_shortest_forms() {
    assert_eq!(u64_to_dec(0), "0");
    assert_eq!(u64_to_dec(255), "255");
    assert_eq!(u64_to_dec(18446744073709551615), "18446744073709551615");
    assert_eq!(u16_to_hex(0), "0");
    assert_eq!(u16_to_hex(0xbeef), "beef");
    assert_eq!(u16_to_hex(0x00ff), "ff");
}

#[test]
fn address_literals_parse_by_family() {
    assert_eq!(parse_ipv4("10.47.16.5").unwrap(), Ip::V4 { a: 10, b: 47, c: 16, d: 5 });
    assert!(parse_ipv4("10.47.16").is_none());
    assert!(parse_ipv6("1:2:3:4:5:6:7:8").is_some());
    assert!(parse_ipv6("10.47.16.5").is_none());
    assert!(parse_ip("10.47.16.5").is_some());
    assert!(parse_ip("::ffff:1").is_some());
    assert!(parse_ip("not-an-address").is_none());
}

#[test]
fn address_text_round_trips_through_parse() {
    for text in ["0.0.0.0", "255.255.255.255", "192.168.1.77"] {
        let ip = parse_ip(text).unwrap();
        assert_eq!(ip.to_string(), text);
    }
    let ip = parse_ip("fe80::202:b3ff:fe1e:8329").unwrap();
    let again = parse_ip(ip.to_string().as_str()).unwrap();
    assert_eq!(again, ip);
}
