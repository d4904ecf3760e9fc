use airjedi::aircraft::models::{model_for_type, needs_model_correction, AircraftModel};
use airjedi::fusion::TargetCategory::{FixedWing, RotaryWing, Unknown, Vehicle, Vessel};
use airjedi::fusion::TrackStatus::{Coasting, Confirmed, Lost, Tentative};
use airjedi::fusion::{
    first_cooperative_id, landing_candidate, merged_callsign, spawn_icao, track_visual_action, CooperativeIdKind,
    VisualAction,
};
use airjedi::tiles::download::{
    download_step, is_cached_tile_name, tile_cache_file_name, AttemptResult, DownloadStep,
};
use airjedi::tiles::asset_cache::{evict_tile_assets, TileAsset, TILE_ASSET_CACHE_HARD_CAP, TILE_ASSET_EVICTION_NS};
use airjedi::tiles::download::NANOS_PER_SEC;
use airjedi::tiles::pool::TileGrid;
use airjedi::tiles::render::{plan_visible_tiles, visible_tile_action, VisibleTileAction};
use airjedi::tiles::types::{TileFormat, TileKey, TileSize, ZoomLevel};
use airjedi::zoom::{adaptive_zoom, tile_request_after_scroll, tile_zoom_step, ZoomTileRequest};

#[test]
fn visual_actions_per_track() {
    assert_eq!(track_visual_action(Lost, true, FixedWing), VisualAction::Skip);
    assert_eq!(track_visual_action(Lost, false, FixedWing), VisualAction::Skip);
    assert_eq!(track_visual_action(Coasting, true, FixedWing), VisualAction::Update);
    assert_eq!(track_visual_action(Confirmed, true, Vessel), VisualAction::Update);
    assert_eq!(track_visual_action(Confirmed, false, RotaryWing), VisualAction::Spawn);
    assert_eq!(track_visual_action(Tentative, false, Unknown), VisualAction::Spawn);
    assert_eq!(track_visual_action(Coasting, false, FixedWing), VisualAction::Ignore);
    assert_eq!(track_visual_action(Confirmed, false, Vehicle), VisualAction::Ignore);
}

fn s(x: &str) -> Option<String> {
    Some(x.to_string())
}

#[test]
fn callsign_merging() {
    assert_eq!(merged_callsign(s("OLD"), true, s("NEW1"), s("TRK")), s("NEW1"));
    assert_eq!(merged_callsign(s("OLD"), true, s("   "), s("TRK")), s("OLD"));
    assert_eq!(merged_callsign(None, true, None, s("TRK")), None);
    assert_eq!(merged_callsign(None, false, None, s("TRK")), s("TRK"));
    assert_eq!(merged_callsign(s("OLD"), false, None, s("TRK")), s("OLD"));
}

#[test]
fn visible_tile_actions() {
    assert_eq!(visible_tile_action(true, false, false), VisibleTileAction::AlreadyShown);
    assert_eq!(visible_tile_action(false, false, false), VisibleTileAction::RequestBand);
    assert_eq!(visible_tile_action(false, false, true), VisibleTileAction::AwaitDownload);
    assert_eq!(visible_tile_action(false, true, true), VisibleTileAction::Show);
}

#[test]
fn aircraft_models_by_type() {
    for code in ["B731", "B737", "B738", "B739", "B37M", "B38M", "B39M"] {
        assert_eq!(model_for_type(Some(code)), AircraftModel::B737);
        assert!(needs_model_correction(Some(code)));
    }
    assert_eq!(model_for_type(Some("A320")), AircraftModel::Default);
    assert_eq!(model_for_type(Some("b738")), AircraftModel::Default);
    assert_eq!(model_for_type(None), AircraftModel::Default);
    assert!(!needs_model_correction(None));
}

#[test]
fn download_steps() {
    assert_eq!(download_step(0, 3, None), (0, DownloadStep::Attempt));
    assert_eq!(download_step(0, 0, None), (0, DownloadStep::GiveUp));
    assert_eq!(download_step(0, 3, Some(AttemptResult::Failed)), (1, DownloadStep::Attempt));
    assert_eq!(download_step(2, 3, Some(AttemptResult::Failed)), (3, DownloadStep::GiveUp));
    assert_eq!(download_step(2, 3, Some(AttemptResult::Stored)), (2, DownloadStep::Succeed));
}

#[test]
fn download_loop_gives_up_after_max_retries() {
    let mut retries = 0;
    let mut last = None;
    let mut attempts = 0;
    loop {
        let (n, step) = download_step(retries, 3, last);
        retries = n;
        match step {
            DownloadStep::Attempt => {
                attempts += 1;
                last = Some(AttemptResult::Failed);
            }
            DownloadStep::GiveUp => break,
            DownloadStep::Succeed => panic!("nothing was stored"),
        }
    }
    assert_eq!(attempts, 3);
    assert_eq!(retries, 3);
}

#[test]
fn cached_tile_names() {
    let key = TileKey { x: 1, y: 2, zoom: 3, tile_size: TileSize::Normal, tile_format: TileFormat::Webp };
    assert!(is_cached_tile_name(&tile_cache_file_name(&key)));
    assert!(is_cached_tile_name(".tile."));
    assert!(!is_cached_tile_name("3.1.2.256.tmp"));
    assert!(!is_cached_tile_name(".tile"));
    assert!(!is_cached_tile_name(""));
    assert!(is_cached_tile_name("x.tile.y"));
}

#[test]
fn tile_zoom_steps() {
    assert_eq!(tile_zoom_step(ZoomLevel::L10, true, false), Some(ZoomLevel::L11));
    assert_eq!(tile_zoom_step(ZoomLevel::L19, true, false), None);
    assert_eq!(tile_zoom_step(ZoomLevel::L10, false, true), Some(ZoomLevel::L9));
    assert_eq!(tile_zoom_step(ZoomLevel::L3, false, true), None);
    assert_eq!(tile_zoom_step(ZoomLevel::L10, false, false), None);
}

#[test]
fn adaptive_zoom_hysteresis() {
    // Far targets are taken at once, within 8..=18.
    assert_eq!(adaptive_zoom(16, 10, true, false), 16);
    assert_eq!(adaptive_zoom(3, 10, false, true), 8);
    assert_eq!(adaptive_zoom(20, 10, true, false), 18);
    // Near targets move one level past the margins.
    assert_eq!(adaptive_zoom(15, 14, true, false), 15);
    assert_eq!(adaptive_zoom(15, 14, false, false), 14);
    assert_eq!(adaptive_zoom(13, 14, false, true), 13);
    assert_eq!(adaptive_zoom(18, 18, true, false), 18);
    assert_eq!(adaptive_zoom(8, 8, false, true), 8);
}

#[test]
fn landing_candidates() {
    assert!(landing_candidate(false, Confirmed, 1500, true));
    assert!(landing_candidate(false, Coasting, -20, true));
    assert!(!landing_candidate(false, Confirmed, 1501, true));
    assert!(!landing_candidate(true, Confirmed, 100, true));
    assert!(!landing_candidate(false, Lost, 100, true));
    assert!(!landing_candidate(false, Confirmed, 100, false));
}

fn asset(path: &str, handle: u64, accessed_ns: u64) -> TileAsset {
    TileAsset { path: path.to_string(), handle, accessed_ns }
}

#[test]
fn tile_asset_eviction_by_age() {
    let entries = vec![asset("a", 1, 0), asset("b", 2, 50 * NANOS_PER_SEC), asset("c", 3, 0)];
    let kept = evict_tile_assets(entries, 60 * NANOS_PER_SEC, &vec![3], TILE_ASSET_CACHE_HARD_CAP);
    let paths: Vec<&str> = kept.iter().map(|e| e.path.as_str()).collect();
    // "a" is stale and off screen; "c" is stale but on screen.
    assert_eq!(paths, vec!["b", "c"]);
    // Exactly at the eviction age an entry is still kept.
    let kept = evict_tile_assets(vec![asset("a", 1, 0)], TILE_ASSET_EVICTION_NS, &vec![], 10);
    assert_eq!(kept.len(), 1);
}

#[test]
fn tile_asset_eviction_by_cap() {
    let entries = vec![asset("new", 1, 30), asset("old", 2, 10), asset("mid", 3, 20), asset("tie", 4, 10)];
    // Two over the cap: the two first in eviction order ("old", then "tie")
    // go, unless on screen.
    let kept = evict_tile_assets(entries, 30, &vec![], 2);
    let paths: Vec<&str> = kept.iter().map(|e| e.path.as_str()).collect();
    assert_eq!(paths, vec!["new", "mid"]);
    let entries = vec![asset("new", 1, 30), asset("old", 2, 10), asset("mid", 3, 20), asset("tie", 4, 10)];
    let kept = evict_tile_assets(entries, 30, &vec![2], 2);
    let paths: Vec<&str> = kept.iter().map(|e| e.path.as_str()).collect();
    assert_eq!(paths, vec!["new", "old", "mid"]);
}

#[test]
fn spawned_aircraft_names() {
    let ids = vec![
        (CooperativeIdKind::Callsign, "UAL1".to_string()),
        (CooperativeIdKind::Icao, "a1b2c3".to_string()),
        (CooperativeIdKind::Icao, "ffffff".to_string()),
    ];
    assert_eq!(first_cooperative_id(&ids, CooperativeIdKind::Icao), Some("a1b2c3".to_string()));
    assert_eq!(first_cooperative_id(&ids, CooperativeIdKind::Callsign), Some("UAL1".to_string()));
    assert_eq!(first_cooperative_id(&ids, CooperativeIdKind::Other), None);
    let track = "1f0e9d8c-7b6a-4958-8372-615049382716";
    assert_eq!(spawn_icao(Some("a1b2c3".to_string()), track), "a1b2c3");
    assert_eq!(spawn_icao(None, track), "TRK-1f0e9d8c");
    assert_eq!(spawn_icao(first_cooperative_id(&ids, CooperativeIdKind::Other), "12345678"), "TRK-12345678");
}

#[test]
fn visible_tile_plan() {
    let mut grid = TileGrid::new();
    grid.insert((1, 1, 10), 7);
    let cells = vec![(1, 1, 10), (2, 1, 10), (3, 1, 10), (4, 1, 10), (2, 1, 10), (0, 0, 9), (5, 5, 9)];
    let cached = vec![(2, 1, 10), (1, 1, 10), (5, 5, 9)];
    let (zooms, shown) = plan_visible_tiles(&cells, &grid, &cached);
    // (1,1,10) is on screen; (3,1,10) and (4,1,10) need zoom 10 once;
    // (0,0,9) needs zoom 9; the cached free cells are shown once each.
    assert_eq!(zooms, vec![10, 9]);
    assert_eq!(shown, vec![(2, 1, 10), (5, 5, 9)]);
    let (zooms, shown) = plan_visible_tiles(&vec![], &grid, &cached);
    assert!(zooms.is_empty() && shown.is_empty());
}

#[test]
fn scroll_tile_requests() {
    assert_eq!(tile_request_after_scroll(true, 3, 5), (ZoomTileRequest::NewZoom, 3));
    assert_eq!(tile_request_after_scroll(false, 6, 5), (ZoomTileRequest::WiderRadius, 6));
    assert_eq!(tile_request_after_scroll(false, 5, 5), (ZoomTileRequest::Nothing, 5));
    assert_eq!(tile_request_after_scroll(false, 2, 5), (ZoomTileRequest::Nothing, 5));
}

#[test]
fn adaptive_zoom_from_outside_the_band() {
    // From zoom 5, an ideal of 9 is more than one level away: taken at once.
    assert_eq!(adaptive_zoom(9, 5, true, false), 9);
    // From zoom 19, an ideal of 18 one level below moves down one level.
    assert_eq!(adaptive_zoom(18, 19, false, true), 18);
}
