use airjedi::adsb::enrichment::{
    current_info, enrichment_from_fields, parse_enrichment_endpoint, parse_enrichment_line, EnrichmentInfo,
    PositionSource, STALE_AFTER_NS,
};

#[test]
fn parses_valid_adsb_line() {
    let line = r#"{"hex":"a37efc","type":"adsb_icao","nic":8,"rc":186}"#;
    let (icao, info) = parse_enrichment_line(line, 0).expect("should parse");
    assert_eq!(icao, "a37efc");
    assert_eq!(info.source, PositionSource::AdsbIcao);
    assert_eq!(info.nic, Some(8));
}

#[test]
fn parses_mlat_line() {
    let line = r#"{"hex":"ae11f0","type":"mlat"}"#;
    let (icao, info) = parse_enrichment_line(line, 0).expect("should parse");
    assert_eq!(icao, "ae11f0");
    assert_eq!(info.source, PositionSource::Mlat);
    assert_eq!(info.nic, None);
}

#[test]
fn unknown_type_becomes_other() {
    let line = r#"{"hex":"a00001","type":"some_future_type"}"#;
    let (_, info) = parse_enrichment_line(line, 0).expect("should parse");
    assert_eq!(info.source, PositionSource::Other);
}

#[test]
fn missing_hex_field_fails_to_parse() {
    let line = r#"{"type":"adsb_icao"}"#;
    assert!(parse_enrichment_line(line, 0).is_none());
}

#[test]
fn malformed_json_fails_to_parse() {
    let line = r#"{"hex":"a3"#;
    assert!(parse_enrichment_line(line, 0).is_none());
}

#[test]
fn missing_type_field_becomes_unknown() {
    let line = r#"{"hex":"a00002"}"#;
    let (_, info) = parse_enrichment_line(line, 0).expect("should parse");
    assert_eq!(info.source, PositionSource::Unknown);
}

#[test]
fn parsed_line_is_stamped_with_the_given_time() {
    let line = r#"{"hex":"a00003","type":"tisb_icao","nic":300}"#;
    let (icao, info) = parse_enrichment_line(line, 42).expect("should parse");
    assert_eq!(icao, "a00003");
    assert_eq!(info.updated_at, 42);
    assert_eq!(info.source, PositionSource::TisbIcao);
    // The NIC is cut to its low byte.
    assert_eq!(info.nic, Some((300u64 % 256) as u8));
}

#[test]
fn non_string_hex_fails_to_parse() {
    assert!(parse_enrichment_line(r#"{"hex":12345}"#, 0).is_none());
    assert!(parse_enrichment_line("", 0).is_none());
}

#[test]
fn position_source_parse_covers_every_type() {
    assert_eq!(PositionSource::parse("adsb_icao"), PositionSource::AdsbIcao);
    assert_eq!(PositionSource::parse("adsb_icao_nt"), PositionSource::AdsbIcaoNt);
    assert_eq!(PositionSource::parse("adsr_icao"), PositionSource::AdsrIcao);
    assert_eq!(PositionSource::parse("tisb_icao"), PositionSource::TisbIcao);
    assert_eq!(PositionSource::parse("adsc"), PositionSource::Adsc);
    assert_eq!(PositionSource::parse("mlat"), PositionSource::Mlat);
    assert_eq!(PositionSource::parse("MLAT"), PositionSource::Other);
    assert_eq!(PositionSource::parse(""), PositionSource::Other);
}

#[test]
fn enrichment_from_fields_requires_hex() {
    assert!(enrichment_from_fields(None, Some("mlat".to_string()), Some(3), 5).is_none());
    let (h, info) =
        enrichment_from_fields(Some("abc123".to_string()), None, None, 5).expect("hex present");
    assert_eq!(h, "abc123");
    assert_eq!(info, EnrichmentInfo { source: PositionSource::Unknown, nic: None, updated_at: 5 });
}

#[test]
fn current_info_drops_stale_entries() {
    let info = EnrichmentInfo { source: PositionSource::Mlat, nic: Some(7), updated_at: 1_000 };
    assert_eq!(current_info(Some(info), 1_000), Some(info));
    assert_eq!(current_info(Some(info), 1_000 + STALE_AFTER_NS - 1), Some(info));
    assert_eq!(current_info(Some(info), 1_000 + STALE_AFTER_NS), None);
    // An entry stamped after `now` has zero age.
    assert_eq!(current_info(Some(info), 10), Some(info));
    assert_eq!(current_info(None, 10), None);
}

#[test]
fn endpoint_splits_into_host_and_port() {
    let (host, port) = parse_enrichment_endpoint("192.168.1.10:30047").expect("valid endpoint");
    assert_eq!(host.iter().collect::<String>(), "192.168.1.10");
    assert_eq!(port, 30047);
    let (host, port) = parse_enrichment_endpoint("localhost:+80").expect("plus sign allowed");
    assert_eq!(host.iter().collect::<String>(), "localhost");
    assert_eq!(port, 80);
}

#[test]
fn bad_endpoints_are_refused() {
    assert!(parse_enrichment_endpoint("localhost").is_none());
    assert!(parse_enrichment_endpoint(":30047").is_none());
    assert!(parse_enrichment_endpoint("host:65536").is_none());
    assert!(parse_enrichment_endpoint("host:").is_none());
    assert!(parse_enrichment_endpoint("host:80:90").is_none());
    assert!(parse_enrichment_endpoint("host:8o").is_none());
}

#[test]
fn fields_are_read_by_their_own_keys() {
    let (icao, info) = parse_enrichment_line(r#"{"type":"mlat","hex":"abc001","nic":"7"}"#, 3).expect("hex present");
    assert_eq!(icao, "abc001");
    assert_eq!(info.source, PositionSource::Mlat);
    // A `nic` that is not an unsigned integer is left out.
    assert_eq!(info.nic, None);
    let (_, info) = parse_enrichment_line(r#"{"hex":"abc002","type":5}"#, 3).expect("hex present");
    assert_eq!(info.source, PositionSource::Unknown);
    assert!(parse_enrichment_line("[1,2,3]", 3).is_none());
    assert!(parse_enrichment_line(r#"{"hex":"abc003"} trailing"#, 3).is_none());
}
