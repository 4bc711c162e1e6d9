use sdp::connection::{Addr, AddrKind, Connection, NetKind};
use sdp::errors::ParseError;
use sdp::ip::Ip;

#[test]
fn connection_parses_the_plain_internet_form() {
    let c = Connection::try_from("IN IP4 0.0.0.0").unwrap();
    assert_eq!(c.nettype, NetKind::IN);
    assert_eq!(c.addrtype, AddrKind::IP4);
    assert_eq!(c.connection_address.ip, Ip::V4 { a: 0, b: 0, c: 0, d: 0 });
    assert_eq!(c.connection_address.ttl, None);
    assert_eq!(c.connection_address.count, None);
}

#[test]
fn connection_formats_back_to_the_same_text() {
    let c = Connection::try_from("IN IP4 0.0.0.0").unwrap();
    assert_eq!(c.to_string(), "IN IP4 0.0.0.0");
}

#[test]
fn addr_parses_ttl_and_count() {
    let a = Addr::try_from("0.0.0.0/127/2").unwrap();
    assert_eq!(a.ip, Ip::V4 { a: 0, b: 0, c: 0, d: 0 });
    assert_eq!(a.ttl, Some(127));
    assert_eq!(a.count, Some(2));
}

#[test]
fn addr_formats_back_to_the_same_text() {
    let a = Addr::try_from("0.0.0.0/127/2").unwrap();
    assert_eq!(a.to_string(), "0.0.0.0/127/2");
}

#[test]
fn addr_with_ttl_alone_round_trips() {
    let a = Addr::try_from("224.2.36.42/127").unwrap();
    assert_eq!(a.ttl, Some(127));
    assert_eq!(a.count, None);
    assert_eq!(a.to_string(), "224.2.36.42/127");
    let again = Addr::try_from(a.to_string().as_str()).unwrap();
    assert_eq!(again, a);
}

#[test]
fn connection_round_trips_through_its_text() {
    for text in ["IN IP4 224.2.36.42/127/3", "IN IP4 10.47.16.5", "IN IP6 ff15::101/3"] {
        let c = Connection::try_from(text).unwrap();
        let again = Connection::try_from(c.to_string().as_str()).unwrap();
        assert_eq!(again, c);
    }
}

#[test]
fn addr_ignores_slash_parts_beyond_the_third() {
    let a = Addr::try_from("0.0.0.0/1/2/3").unwrap();
    assert_eq!(a.ttl, Some(1));
    assert_eq!(a.count, Some(2));
}

#[test]
fn addr_accepts_a_ttl_with_leading_zeros_as_integer_parsing_does() {
    let a = Addr::try_from("1.2.3.4/007").unwrap();
    assert_eq!(a.ttl, Some(7));
}

#[test]
fn ipv6_literals_parse_with_elision() {
    let a = Addr::try_from("::1").unwrap();
    match &a.ip {
        Ip::V6 { groups } => {
            assert_eq!(groups.as_slice(), &[0, 0, 0, 0, 0, 0, 0, 1]);
        },
        other => panic!("expected a colon-grouped address, got {:?}", other),
    }
    let a = Addr::try_from("2001:db8::8a2e:370:7334").unwrap();
    match &a.ip {
        Ip::V6 { groups } => {
            assert_eq!(groups.as_slice(), &[0x2001, 0xdb8, 0, 0, 0, 0x8a2e, 0x370, 0x7334]);
        },
        other => panic!("expected a colon-grouped address, got {:?}", other),
    }
}

#[test]
fn ipv6_formats_uncompressed_lowercase_and_round_trips() {
    let a = Addr::try_from("2001:DB8::1").unwrap();
    assert_eq!(a.to_string(), "2001:db8:0:0:0:0:0:1");
    let again = Addr::try_from(a.to_string().as_str()).unwrap();
    assert_eq!(again, a);
}

#[test]
fn ipv6_rejects_malformed_literals() {
    assert!(Addr::try_from(":::").is_err());
    assert!(Addr::try_from("1::2::3").is_err());
    assert!(Addr::try_from("1:2:3:4:5:6:7").is_err());
    assert!(Addr::try_from("1:2:3:4:5:6:7:8:9").is_err());
    assert!(Addr::try_from("12345::1").is_err());
    assert!(Addr::try_from("1:2:3:4:5:6:7:8::").is_err());
}

#[test]
fn ipv4_rejects_out_of_range_and_padded_octets() {
    assert!(Addr::try_from("256.0.0.1").is_err());
    assert!(Addr::try_from("01.2.3.4").is_err());
    assert!(Addr::try_from("1.2.3").is_err());
    assert!(Addr::try_from("1.2.3.4.5").is_err());
}

#[test]
fn addr_failures_carry_their_kinds() {
    assert!(matches!(Addr::try_from("zz/1").unwrap_err(), ParseError::Address { .. }));
    assert!(matches!(Addr::try_from("1.2.3.4/x").unwrap_err(), ParseError::Numeric { .. }));
    assert!(matches!(Addr::try_from("1.2.3.4/1/999").unwrap_err(), ParseError::Numeric { .. }));
    assert!(matches!(Addr::try_from("1.2.3.4/70000").unwrap_err(), ParseError::Numeric { .. }));
}

#[test]
fn connection_failures_carry_their_kinds() {
    assert!(matches!(
        Connection::try_from("IN IP4").unwrap_err(),
        ParseError::Arity { expected: 3, .. }
    ));
    assert!(matches!(
        Connection::try_from("XX IP4 0.0.0.0").unwrap_err(),
        ParseError::Vocabulary { .. }
    ));
    assert!(matches!(
        Connection::try_from("IN IPX 0.0.0.0").unwrap_err(),
        ParseError::Vocabulary { .. }
    ));
    assert!(matches!(
        Connection::try_from("IN IP4 bad").unwrap_err(),
        ParseError::Address { .. }
    ));
}

#[test]
fn net_and_addr_kinds_parse_and_format() {
    assert_eq!(NetKind::try_from("IN").unwrap(), NetKind::IN);
    assert_eq!(NetKind::IN.to_string(), "IN");
    assert_eq!(AddrKind::try_from("IP4").unwrap(), AddrKind::IP4);
    assert_eq!(AddrKind::try_from("IP6").unwrap(), AddrKind::IP6);
    assert_eq!(AddrKind::IP4.to_string(), "IP4");
    assert_eq!(AddrKind::IP6.to_string(), "IP6");
    assert!(NetKind::try_from("in").is_err());
    assert!(AddrKind::try_from("IP5").is_err());
}

#[test]
fn the_unspecified_ipv6_address_parses_and_formats() {
    let a = Addr::try_from("::").unwrap();
    match &a.ip {
        Ip::V6 { groups } => assert_eq!(groups.as_slice(), &[0u16; 8]),
        other => panic!("expected a colon-grouped address, got {:?}", other),
    }
    assert_eq!(a.to_string(), "0:0:0:0:0:0:0:0");
}
