use sdp::attributes::{Attributes, ExtMap, Fmtp, Kind, Mid, Orient, RtpMap, Ssrc};
use sdp::errors::ParseError;

#[test]
fn ext_map_accepts_valid_mappings() {
    let m = ExtMap::try_from("1 urn:ietf:params:rtp-hdrext:toffset").unwrap();
    assert_eq!(m.key, 1);
    assert_eq!(m.value, "urn:ietf:params:rtp-hdrext:toffset");
    assert!(ExtMap::try_from("2 http://www.webrtc.org/experiments/rtp-hdrext/abs-send-time").is_ok());
    assert!(ExtMap::try_from("3 urn:3gpp:video-orientation").is_ok());
}

#[test]
fn ext_map_rejects_missing_space() {
    let e = ExtMap::try_from("4").unwrap_err();
    assert!(matches!(e, ParseError::Arity { expected: 2, .. }));
}

#[test]
fn ext_map_rejects_non_numeric_id() {
    let e = ExtMap::try_from("x uri").unwrap_err();
    assert!(matches!(e, ParseError::Numeric { .. }));
}

#[test]
fn ext_map_id_out_of_byte_range_fails() {
    assert!(ExtMap::try_from("256 uri").is_err());
    assert!(ExtMap::try_from("255 uri").is_ok());
}

#[test]
fn kind_parses_all_five_literals() {
    assert_eq!(Kind::try_from("broadcast").unwrap(), Kind::Broadcast);
    assert_eq!(Kind::try_from("meeting").unwrap(), Kind::Meeting);
    assert_eq!(Kind::try_from("moderated").unwrap(), Kind::Moderated);
    assert_eq!(Kind::try_from("test").unwrap(), Kind::Test);
    assert_eq!(Kind::try_from("H332").unwrap(), Kind::H332);
}

#[test]
fn kind_formats_as_its_literal() {
    assert_eq!(Kind::Broadcast.to_string(), "broadcast");
    assert_eq!(Kind::Meeting.to_string(), "meeting");
    assert_eq!(Kind::Moderated.to_string(), "moderated");
    assert_eq!(Kind::Test.to_string(), "test");
    assert_eq!(Kind::H332.to_string(), "H332");
}

#[test]
fn kind_round_trips_through_its_text() {
    for k in [Kind::Broadcast, Kind::Meeting, Kind::Moderated, Kind::Test, Kind::H332] {
        assert_eq!(Kind::try_from(k.to_string().as_str()).unwrap(), k);
    }
}

#[test]
fn kind_rejects_other_literals() {
    let e = Kind::try_from("av1x").unwrap_err();
    assert!(matches!(e, ParseError::Vocabulary { .. }));
    assert!(Kind::try_from("Broadcast").is_err());
    assert!(Kind::try_from("h332").is_err());
}

#[test]
fn fmtp_parses_three_parameters_exactly() {
    let f = Fmtp::try_from("96 profile-level-id=42e016;max-mbps=108000;max-fs=3600").unwrap();
    assert_eq!(f.key, 96);
    assert_eq!(f.values.len(), 3);
    assert_eq!(f.get("profile-level-id"), Some(Some("42e016".to_string())));
    assert_eq!(f.get("max-mbps"), Some(Some("108000".to_string())));
    assert_eq!(f.get("max-fs"), Some(Some("3600".to_string())));
    assert_eq!(f.get("absent"), None);
}

#[test]
fn fmtp_keeps_the_last_of_a_repeated_name() {
    let f = Fmtp::try_from("96 a=1;b=2;a=3").unwrap();
    assert_eq!(f.values.len(), 2);
    assert_eq!(f.get("a"), Some(Some("3".to_string())));
    assert_eq!(f.get("b"), Some(Some("2".to_string())));
}

#[test]
fn fmtp_bare_name_maps_to_no_value() {
    let f = Fmtp::try_from("101 apt").unwrap();
    assert_eq!(f.get("apt"), Some(None));
}

#[test]
fn fmtp_value_may_contain_further_equals_signs() {
    let f = Fmtp::try_from("96 k=a=b").unwrap();
    assert_eq!(f.get("k"), Some(Some("a=b".to_string())));
}

#[test]
fn fmtp_rejects_bad_payload_type() {
    assert!(matches!(Fmtp::try_from("abc x=1").unwrap_err(), ParseError::Numeric { .. }));
    assert!(matches!(Fmtp::try_from("96").unwrap_err(), ParseError::Arity { expected: 2, .. }));
}

#[test]
fn orient_parses_and_formats_its_vocabulary() {
    assert_eq!(Orient::try_from("portrait").unwrap(), Orient::Portrait);
    assert_eq!(Orient::try_from("landscape").unwrap(), Orient::Landscape);
    assert_eq!(Orient::try_from("seascape").unwrap(), Orient::Seascape);
    assert_eq!(Orient::Portrait.to_string(), "portrait");
    assert!(matches!(Orient::try_from("upside-down").unwrap_err(), ParseError::Vocabulary { .. }));
}

#[test]
fn rtp_map_parses_with_and_without_channels() {
    let m = RtpMap::try_from("96 VP8/90000").unwrap();
    assert_eq!(m.payload, 96);
    assert_eq!(m.name, "VP8");
    assert_eq!(m.clock_rate, 90000);
    assert_eq!(m.channels, None);
    let m = RtpMap::try_from("111 opus/48000/2").unwrap();
    assert_eq!(m.payload, 111);
    assert_eq!(m.name, "opus");
    assert_eq!(m.clock_rate, 48000);
    assert_eq!(m.channels, Some(2));
}

#[test]
fn rtp_map_rejects_bad_fields() {
    assert!(RtpMap::try_from("96").is_err());
    assert!(RtpMap::try_from("96 VP8").is_err());
    assert!(RtpMap::try_from("96 VP8/rate").is_err());
    assert!(RtpMap::try_from("96 VP8/90000/a/b").is_err());
    assert!(RtpMap::try_from("pt VP8/90000").is_err());
}

#[test]
fn ssrc_parses_id_attribute_and_value() {
    let s = Ssrc::try_from("2566107569 cname:t9YU8M1UxTF8Y1A1").unwrap();
    assert_eq!(s.id, 2566107569);
    assert_eq!(s.attribute, "cname");
    assert_eq!(s.value, Some("t9YU8M1UxTF8Y1A1".to_string()));
    let s = Ssrc::try_from("1234 mslabel").unwrap();
    assert_eq!(s.id, 1234);
    assert_eq!(s.attribute, "mslabel");
    assert_eq!(s.value, None);
}

#[test]
fn ssrc_rejects_bad_identifier() {
    assert!(matches!(Ssrc::try_from("x cname:a").unwrap_err(), ParseError::Numeric { .. }));
    assert!(matches!(Ssrc::try_from("1234").unwrap_err(), ParseError::Arity { expected: 2, .. }));
}

#[test]
fn mid_takes_the_whole_token() {
    let m = Mid::try_from("audio").unwrap();
    assert_eq!(m.token, "audio");
}

#[test]
fn dispatch_without_colon_passes_the_whole_key_through() {
    match Attributes::try_from("recvonly").unwrap() {
        Attributes::Other(key, value) => {
            assert_eq!(key, "recvonly");
            assert_eq!(value, None);
        },
        other => panic!("expected a passthrough, got {:?}", other),
    }
}

#[test]
fn dispatch_with_unrecognized_key_keeps_key_and_value() {
    match Attributes::try_from("candidate:1 1 UDP 2130706431 10.0.1.1 8998 typ host").unwrap() {
        Attributes::Other(key, value) => {
            assert_eq!(key, "candidate");
            assert_eq!(value, Some("1 1 UDP 2130706431 10.0.1.1 8998 typ host".to_string()));
        },
        other => panic!("expected a passthrough, got {:?}", other),
    }
}

#[test]
fn dispatch_value_keeps_text_after_the_first_colon_only() {
    match Attributes::try_from("foo:bar:baz").unwrap() {
        Attributes::Other(key, value) => {
            assert_eq!(key, "foo");
            assert_eq!(value, Some("bar:baz".to_string()));
        },
        other => panic!("expected a passthrough, got {:?}", other),
    }
}

#[test]
fn dispatch_routes_numeric_attributes() {
    assert_eq!(Attributes::try_from("ptime:20").unwrap(), Attributes::Ptime(20));
    assert_eq!(Attributes::try_from("maxptime:120").unwrap(), Attributes::MaxPtime(120));
    assert_eq!(Attributes::try_from("framerate:60").unwrap(), Attributes::Framerate(60));
    assert_eq!(Attributes::try_from("quality:10").unwrap(), Attributes::Quality(10));
}

#[test]
fn dispatch_accepts_a_leading_plus_as_integer_parsing_does() {
    assert_eq!(Attributes::try_from("ptime:+42").unwrap(), Attributes::Ptime(42));
}

#[test]
fn dispatch_handles_the_edges_of_the_integer_range() {
    assert_eq!(
        Attributes::try_from("ptime:18446744073709551615").unwrap(),
        Attributes::Ptime(u64::MAX)
    );
    assert!(matches!(
        Attributes::try_from("ptime:18446744073709551616").unwrap_err(),
        ParseError::Numeric { .. }
    ));
    assert!(matches!(
        Attributes::try_from("ptime:00000000000000000000007").unwrap(),
        Attributes::Ptime(7)
    ));
    assert!(Attributes::try_from("framerate:65536").is_err());
    assert_eq!(Attributes::try_from("framerate:65535").unwrap(), Attributes::Framerate(65535));
}

#[test]
fn dispatch_routes_typed_attributes() {
    assert_eq!(Attributes::try_from("type:moderated").unwrap(), Attributes::Kind(Kind::Moderated));
    assert_eq!(
        Attributes::try_from("orient:landscape").unwrap(),
        Attributes::Orient(Orient::Landscape)
    );
    assert_eq!(
        Attributes::try_from("lang:de").unwrap(),
        Attributes::Lang("de".to_string())
    );
    assert_eq!(
        Attributes::try_from("charset:ISO-8859-1").unwrap(),
        Attributes::Charset("ISO-8859-1".to_string())
    );
    assert_eq!(
        Attributes::try_from("sdplang:fr").unwrap(),
        Attributes::SdpLang("fr".to_string())
    );
    match Attributes::try_from("rtpmap:96 VP8/90000").unwrap() {
        Attributes::Rtpmap(m) => {
            assert_eq!(m.payload, 96);
            assert_eq!(m.name, "VP8");
        },
        other => panic!("expected an rtpmap, got {:?}", other),
    }
    match Attributes::try_from("fmtp:96 apt=95").unwrap() {
        Attributes::Fmtp(f) => {
            assert_eq!(f.key, 96);
            assert_eq!(f.get("apt"), Some(Some("95".to_string())));
        },
        other => panic!("expected an fmtp, got {:?}", other),
    }
    match Attributes::try_from("extmap:2 urn:3gpp:video-orientation").unwrap() {
        Attributes::Extmap(m) => {
            assert_eq!(m.key, 2);
            assert_eq!(m.value, "urn:3gpp:video-orientation");
        },
        other => panic!("expected an extmap, got {:?}", other),
    }
    match Attributes::try_from("ssrc:1234 cname:abc").unwrap() {
        Attributes::Ssrc(s) => {
            assert_eq!(s.id, 1234);
            assert_eq!(s.attribute, "cname");
        },
        other => panic!("expected an ssrc, got {:?}", other),
    }
}

#[test]
fn dispatch_propagates_sub_parser_failures() {
    assert!(matches!(Attributes::try_from("ptime:abc").unwrap_err(), ParseError::Numeric { .. }));
    assert!(matches!(Attributes::try_from("quality:266").unwrap_err(), ParseError::Numeric { .. }));
    assert!(matches!(Attributes::try_from("type:av1x").unwrap_err(), ParseError::Vocabulary { .. }));
    assert!(matches!(
        Attributes::try_from("extmap:4").unwrap_err(),
        ParseError::Arity { expected: 2, .. }
    ));
    assert!(Attributes::try_from("orient:diagonal").is_err());
}

#[test]
fn dispatch_keeps_an_empty_key_or_value_as_text() {
    match Attributes::try_from("").unwrap() {
        Attributes::Other(key, value) => {
            assert_eq!(key, "");
            assert_eq!(value, None);
        },
        other => panic!("expected a passthrough, got {:?}", other),
    }
    match Attributes::try_from("x-custom:").unwrap() {
        Attributes::Other(key, value) => {
            assert_eq!(key, "x-custom");
            assert_eq!(value, Some(String::new()));
        },
        other => panic!("expected a passthrough, got {:?}", other),
    }
}
