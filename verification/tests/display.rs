use airjedi::adsb::connection::{
    connection_status_text, count_in_state, feed_summary, messages_since, plan_feed_changes, statusbar_feed_label,
    unique_aircraft_count, FeedLinkState, FeedProtocol, FeedSourceConfig, FeedSummary, StatusTone,
};
use airjedi::adsb::enrichment::PositionSource;
use airjedi::aircraft::labels::{aircraft_label_text, blank, hover_id_label, is_whitespace_char, trim_chars};
use airjedi::aircraft::stats::{format_duration, format_last_seen, AltitudeBandStats, PositionSourceStats};
use airjedi::fusion::{
    filter_type_label, fusion_status_color, fusion_status_text, is_air_target, landed_aircraft_expired,
    sensor_hue, visual_expired, TargetCategory, TrackStatus, LANDED_CLEANUP_SECS,
};
use airjedi::render_layers::{
    layers_2d_aircraft, layers_2d_map, layers_3d_overlay, layers_3d_world, layers_camera2d_all, RenderCategory,
};
use airjedi::text::{decimal, parse_unsigned_chars, split_chars};
use airjedi::widgets::{
    altitude_readout_label, altitude_tick_label, heading_tick, heading_tick_label, normalize_bearing,
    vertical_trend, HeadingTick, VerticalTrend,
};

fn chars(s: &str) -> Vec<char> {
    s.chars().collect()
}

#[test]
fn sensor_color_is_deterministic() {
    let a = sensor_hue("adsb-north");
    let b = sensor_hue("adsb-north");
    assert_eq!(a, b);
    assert!(a < 360);
}

#[test]
fn sensor_color_differs_across_sensors() {
    let a = sensor_hue("adsb-north");
    let b = sensor_hue("adsb-south");
    assert_ne!(a, b);
}

#[test]
fn decimal_rendering_and_parsing() {
    assert_eq!(decimal(0), "0");
    assert_eq!(decimal(1234567890123), "1234567890123");
    assert_eq!(parse_unsigned_chars(&chars("4294967295"), u32::MAX), Some(u32::MAX));
    assert_eq!(parse_unsigned_chars(&chars("4294967296"), u32::MAX), None);
    assert_eq!(parse_unsigned_chars(&chars("+12"), 100), Some(12));
    assert_eq!(parse_unsigned_chars(&chars("+"), 100), None);
    assert_eq!(parse_unsigned_chars(&chars(""), 100), None);
    assert_eq!(parse_unsigned_chars(&chars("-1"), 100), None);
    assert_eq!(parse_unsigned_chars(&chars("101"), 100), None);
    assert_eq!(parse_unsigned_chars(&chars("007"), 100), Some(7));
}

#[test]
fn splitting_keeps_empty_pieces() {
    let pieces = split_chars(&chars("a..b."), '.');
    let pieces: Vec<String> = pieces.iter().map(|p| p.iter().collect()).collect();
    assert_eq!(pieces, vec!["a", "", "b", ""]);
    assert_eq!(split_chars(&chars(""), '.').len(), 1);
}

#[test]
fn whitespace_and_trimming() {
    assert!(is_whitespace_char(' '));
    assert!(is_whitespace_char('\t'));
    assert!(is_whitespace_char('\u{3000}'));
    assert!(!is_whitespace_char('x'));
    assert!(blank("  \t "));
    assert!(blank(""));
    assert!(!blank(" a "));
    assert_eq!(trim_chars("  UAL123 \n").iter().collect::<String>(), "UAL123");
    assert_eq!(trim_chars("   ").iter().collect::<String>(), "");
}

#[test]
fn aircraft_labels() {
    assert_eq!(aircraft_label_text("a1b2c3", Some("UAL123"), Some("N123"), Some(35000)), "UAL123\n35000 ft");
    assert_eq!(aircraft_label_text("a1b2c3", Some("   "), Some("N123"), None), "N123\n");
    assert_eq!(aircraft_label_text("a1b2c3", None, None, Some(-50)), "a1b2c3\n-50 ft");
    assert_eq!(hover_id_label("a1b2c3", Some(" DAL9 "), None).iter().collect::<String>(), "DAL9");
    assert_eq!(hover_id_label("a1b2c3", Some("DAL9"), Some("N55")).iter().collect::<String>(), "N55");
    assert_eq!(hover_id_label("a1b2c3", Some("   "), None).iter().collect::<String>(), "a1b2c3");
    assert_eq!(hover_id_label("a1b2c3", None, Some("")).iter().collect::<String>(), "a1b2c3");
}

#[test]
fn altitude_band_stats() {
    let alts = vec![Some(0), Some(9999), Some(10000), Some(24999), Some(25000), Some(39999), Some(40000), None, Some(-100)];
    let s = AltitudeBandStats::from_aircraft(&alts);
    assert_eq!(s.ground_to_10k, 3);
    assert_eq!(s.ten_to_25k, 2);
    assert_eq!(s.twentyfive_to_40k, 2);
    assert_eq!(s.above_40k, 1);
    assert_eq!(s.unknown, 1);
    assert_eq!(s.total(), alts.len());
}

#[test]
fn position_source_stats() {
    let srcs = vec![
        Some(PositionSource::AdsbIcao),
        Some(PositionSource::AdsbIcaoNt),
        Some(PositionSource::Mlat),
        Some(PositionSource::TisbIcao),
        Some(PositionSource::AdsrIcao),
        Some(PositionSource::Adsc),
        Some(PositionSource::Other),
        Some(PositionSource::Unknown),
        None,
    ];
    let s = PositionSourceStats::from_diagnostics(&srcs);
    assert_eq!((s.adsb, s.mlat, s.relayed, s.other, s.unconfirmed), (2, 1, 3, 1, 2));
}

#[test]
fn durations_and_last_seen() {
    assert_eq!(format_duration(0), "00:00:00");
    assert_eq!(format_duration(3_725), "01:02:05");
    assert_eq!(format_duration(360_000), "100:00:00");
    assert_eq!(format_last_seen(0), "0s");
    assert_eq!(format_last_seen(59), "59s");
    assert_eq!(format_last_seen(60), "1m:00s");
    assert_eq!(format_last_seen(65), "1m:05s");
    assert_eq!(format_last_seen(125), "2m:05s");
    assert_eq!(format_last_seen(3600), "60m:00s");
}

#[test]
fn feed_status_texts() {
    assert_eq!(feed_summary(0, 0, 0), FeedSummary::NoFeeds);
    assert_eq!(connection_status_text(0, 0, 0, 5), ("ADS-B: No feeds".to_string(), StatusTone::Error));
    assert_eq!(connection_status_text(2, 2, 0, 17), ("ADS-B: 17 aircraft".to_string(), StatusTone::Success));
    assert_eq!(connection_status_text(2, 0, 1, 0), ("ADS-B: Connecting...".to_string(), StatusTone::Warn));
    assert_eq!(connection_status_text(3, 1, 1, 9), ("ADS-B: 1/3 feeds, 9 ac".to_string(), StatusTone::Warn));
    assert_eq!(connection_status_text(3, 0, 0, 0), ("ADS-B: Disconnected".to_string(), StatusTone::Error));
    assert_eq!(statusbar_feed_label(0, 0, 0), ("No feeds".to_string(), StatusTone::Dim));
    assert_eq!(statusbar_feed_label(2, 2, 0), ("2 feeds".to_string(), StatusTone::Success));
    assert_eq!(statusbar_feed_label(3, 1, 0), ("1/3 feeds".to_string(), StatusTone::Warn));
    assert_eq!(statusbar_feed_label(3, 0, 2), ("Connecting...".to_string(), StatusTone::Warn));
    assert_eq!(statusbar_feed_label(3, 0, 0), ("Disconnected".to_string(), StatusTone::Error));
}

#[test]
fn feed_counters() {
    let states = vec![
        FeedLinkState::Connected,
        FeedLinkState::Connecting,
        FeedLinkState::Connected,
        FeedLinkState::Error,
        FeedLinkState::Disconnected,
    ];
    assert_eq!(count_in_state(&states, FeedLinkState::Connected), 2);
    assert_eq!(count_in_state(&states, FeedLinkState::Connecting), 1);
    let icaos = vec!["a".to_string(), "b".to_string(), "a".to_string(), "c".to_string(), "b".to_string()];
    assert_eq!(unique_aircraft_count(&icaos), 3);
    assert_eq!(unique_aircraft_count(&vec![]), 0);
    assert_eq!(messages_since(100, 40), 60);
    assert_eq!(messages_since(10, 40), 0);
}

fn feed(id: &str, endpoint: &str, protocol: FeedProtocol, enabled: bool) -> FeedSourceConfig {
    FeedSourceConfig { id: id.to_string(), endpoint: endpoint.to_string(), protocol, enabled }
}

#[test]
fn feed_plan_restarts_changed_feeds() {
    let current = vec![
        feed("a", "h1:30003", FeedProtocol::Sbs1, true),
        feed("b", "h2:30003", FeedProtocol::Sbs1, true),
        feed("c", "h3:30005", FeedProtocol::Beast, true),
        feed("d", "h4:30003", FeedProtocol::Sbs1, true),
    ];
    let desired = vec![
        feed("a", "h1:30003", FeedProtocol::Sbs1, true),
        feed("b", "h2:30004", FeedProtocol::Sbs1, true),
        feed("c", "h3:30005", FeedProtocol::Sbs1, true),
        feed("e", "h5:30003", FeedProtocol::Sbs1, true),
        feed("f", "h6:30003", FeedProtocol::Sbs1, false),
    ];
    let plan = plan_feed_changes(&current, &desired, true);
    // b moved, c changed protocol, d was removed.
    assert_eq!(plan.stop, vec![1, 2, 3]);
    // b and c restart, e is new, f is disabled.
    assert_eq!(plan.start, vec![1, 2, 3]);
    // Without protocol checks c keeps running.
    let plan = plan_feed_changes(&current, &desired, false);
    assert_eq!(plan.stop, vec![1, 3]);
    assert_eq!(plan.start, vec![1, 3]);
}

#[test]
fn feed_plan_disables_and_deduplicates() {
    let current = vec![feed("a", "h1:1", FeedProtocol::Sbs1, true)];
    let desired = vec![
        feed("a", "h1:1", FeedProtocol::Sbs1, false),
        feed("n", "h2:1", FeedProtocol::Sbs1, true),
        feed("n", "h3:1", FeedProtocol::Sbs1, true),
    ];
    let plan = plan_feed_changes(&current, &desired, true);
    assert_eq!(plan.stop, vec![0]);
    assert_eq!(plan.start, vec![1]);
    let unchanged = plan_feed_changes(&current, &current, true);
    assert!(unchanged.stop.is_empty());
    assert!(unchanged.start.is_empty());
}

#[test]
fn fusion_presentation() {
    assert_eq!(fusion_status_text(TrackStatus::Tentative), "TENTATIVE");
    assert_eq!(fusion_status_text(TrackStatus::Confirmed), "CONFIRMED");
    assert_eq!(fusion_status_text(TrackStatus::Coasting), "COASTING");
    assert_eq!(fusion_status_text(TrackStatus::Lost), "LOST");
    assert_eq!(fusion_status_color(TrackStatus::Confirmed), (100, 200, 100));
    assert_eq!(fusion_status_color(TrackStatus::Lost), (200, 80, 80));
    assert!(is_air_target(TargetCategory::Drone));
    assert!(is_air_target(TargetCategory::Unknown));
    assert!(!is_air_target(TargetCategory::Vessel));
    assert!(!is_air_target(TargetCategory::Person));
    assert_eq!(filter_type_label(true, true), "IMM");
    assert_eq!(filter_type_label(false, true), "Surface");
    assert_eq!(filter_type_label(false, false), "EKF");
}

#[test]
fn aircraft_expiry() {
    assert!(!landed_aircraft_expired(LANDED_CLEANUP_SECS, None));
    assert!(landed_aircraft_expired(LANDED_CLEANUP_SECS + 1, None));
    assert!(landed_aircraft_expired(31, Some(TrackStatus::Coasting)));
    assert!(landed_aircraft_expired(31, Some(TrackStatus::Lost)));
    assert!(!landed_aircraft_expired(31, Some(TrackStatus::Confirmed)));
    assert!(visual_expired(false, 0, 60));
    assert!(visual_expired(true, 61, 60));
    assert!(!visual_expired(true, 60, 60));
}

#[test]
fn render_layer_lists() {
    assert_eq!(layers_2d_map(), vec![2, 4, 5]);
    assert_eq!(layers_3d_overlay(), vec![2, 5]);
    assert_eq!(layers_camera2d_all(), vec![2, 4, 5]);
    assert_eq!(layers_2d_aircraft(), vec![0, 1]);
    assert_eq!(layers_3d_world(), vec![0, 1, 7, 8, 9]);
    assert_eq!(RenderCategory::TILES_2D, RenderCategory::TILES);
    assert_eq!(RenderCategory::TILES_3D, 1);
    assert_eq!(RenderCategory::UI, 11);
    assert!(!layers_2d_map().contains(&RenderCategory::TILES));
}

#[test]
fn heading_tape_ticks() {
    assert_eq!(normalize_bearing(-1), 359);
    assert_eq!(normalize_bearing(-360), 0);
    assert_eq!(normalize_bearing(-361), 359);
    assert_eq!(normalize_bearing(725), 5);
    assert_eq!(normalize_bearing(i32::MIN), ((i32::MIN % 360) + 360) % 360);
    assert_eq!(heading_tick(0), HeadingTick::Cardinal);
    assert_eq!(heading_tick(-90), HeadingTick::Cardinal);
    assert_eq!(heading_tick(30), HeadingTick::Major);
    assert_eq!(heading_tick(20), HeadingTick::Minor);
    assert_eq!(heading_tick(21), HeadingTick::Blank);
    assert_eq!(heading_tick_label(360), Some("N".to_string()));
    assert_eq!(heading_tick_label(90), Some("E".to_string()));
    assert_eq!(heading_tick_label(-180), Some("S".to_string()));
    assert_eq!(heading_tick_label(270), Some("W".to_string()));
    assert_eq!(heading_tick_label(30), Some("03".to_string()));
    assert_eq!(heading_tick_label(-30), Some("33".to_string()));
    assert_eq!(heading_tick_label(20), None);
    assert_eq!(heading_tick_label(7), None);
}

#[test]
fn altitude_tape_labels() {
    assert_eq!(altitude_tick_label(35000), "350");
    assert_eq!(altitude_tick_label(1000), "10");
    assert_eq!(altitude_tick_label(900), "900");
    assert_eq!(altitude_tick_label(-200), "-200");
    assert_eq!(altitude_readout_label(18000), "F180");
    assert_eq!(altitude_readout_label(17999), "17999");
    assert_eq!(altitude_readout_label(-50), "-50");
    assert_eq!(vertical_trend(101), VerticalTrend::Climb);
    assert_eq!(vertical_trend(100), VerticalTrend::Level);
    assert_eq!(vertical_trend(-101), VerticalTrend::Descent);
}
