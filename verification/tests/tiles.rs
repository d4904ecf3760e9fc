use airjedi::tiles::coords::{tiles_around, wrap_tile_x, SlippyTileCoordinates};
use airjedi::tiles::download::{
    cached_tile_action, classify_response, clear_download_tracking, finish_download, is_request_blocked,
    retries_exhausted, tile_cache_file_name, tile_filename, tile_url, validate_tile_bytes, BufferedRequest,
    CachedTileAction, DownloadedTiles, FailedTileCooldown, RateLimiter, ResponseVerdict, TileDownloadSettings,
    FAILURE_COOLDOWN_NS, MIN_TILE_SIZE, NANOS_PER_SEC,
};
use airjedi::tiles::elevation::{
    heightmap_cache_file_name, heightmap_file_size_matches, ElevationTileKey, MapboxTerrainRgb, TerrariumDecoder,
};
use airjedi::tiles::pool::{release_out_of_band_tiles, TileGrid, TilePool};
use airjedi::tiles::render::{
    grid_overlay_pixels, max_tile_entities, parse_tile_key_from_path, sse_band_zooms, GRID_OVERLAY_SIZE,
    GRID_OVERLAY_SUBDIVISIONS,
};
use airjedi::tiles::types::{
    AlreadyDownloaded, DownloadPriority, FileExists, Radius, TileFormat, TileKey, TileSize, UseCache, ZoomLevel,
    MAX_ZOOM_LEVEL,
};

fn key(x: u32, y: u32, zoom: u8) -> TileKey {
    TileKey { x, y, zoom, tile_size: TileSize::Large, tile_format: TileFormat::Png }
}

fn request(x: u32, zoom: u8, priority: DownloadPriority) -> BufferedRequest {
    BufferedRequest {
        key: key(x, 0, zoom),
        endpoint: format!("https://tiles.example/{}", x),
        filename: format!("tiles/{}.png", x),
        priority,
    }
}

#[test]
fn test_wrap_tile_x() {
    assert_eq!(wrap_tile_x(-1, 10), 1023);
    assert_eq!(wrap_tile_x(1024, 10), 0);
    assert_eq!(wrap_tile_x(512, 10), 512);
}

#[test]
fn wrap_tile_x_is_periodic_and_in_range() {
    for x in [-5000i64, -1025, -1024, -1, 0, 1, 1023, 2047, 9999] {
        let w = wrap_tile_x(x, 10);
        assert!(w < 1024);
        assert_eq!(wrap_tile_x(x + 1024, 10), w);
    }
    assert_eq!(wrap_tile_x(-3, 0), 0);
    assert_eq!(wrap_tile_x(-1, 1), 1);
}

#[test]
fn tiles_around_wraps_columns_and_drops_rows_off_the_map() {
    let tiles = tiles_around(SlippyTileCoordinates { x: 0, y: 0 }, ZoomLevel::L2, Radius(1));
    // Rows -1 are off the map; columns -1 wrap to 3.
    let expected = vec![
        SlippyTileCoordinates { x: 3, y: 0 },
        SlippyTileCoordinates { x: 3, y: 1 },
        SlippyTileCoordinates { x: 0, y: 0 },
        SlippyTileCoordinates { x: 0, y: 1 },
        SlippyTileCoordinates { x: 1, y: 0 },
        SlippyTileCoordinates { x: 1, y: 1 },
    ];
    assert_eq!(tiles, expected);
    let single = tiles_around(SlippyTileCoordinates { x: 5, y: 7 }, ZoomLevel::L4, Radius(0));
    assert_eq!(single, vec![SlippyTileCoordinates { x: 5, y: 7 }]);
    assert_eq!(tiles_around(SlippyTileCoordinates { x: 10, y: 10 }, ZoomLevel::L10, Radius(2)).len(), 25);
}

#[test]
fn zoom_levels_round_trip() {
    for v in 0..=MAX_ZOOM_LEVEL {
        let z = ZoomLevel::try_from(v).expect("level exists");
        assert_eq!(z.to_u8(), v);
    }
    assert!(ZoomLevel::try_from(26).is_err());
    assert!(ZoomLevel::try_from(255).is_err());
}

#[test]
fn tile_size_pixels_and_postfix() {
    assert_eq!(TileSize::new(768), TileSize::VeryLarge);
    assert_eq!(TileSize::new(512), TileSize::Large);
    assert_eq!(TileSize::new(256), TileSize::Normal);
    assert_eq!(TileSize::new(100), TileSize::Normal);
    assert_eq!(TileSize::VeryLarge.to_pixels(), 768);
    assert_eq!(TileSize::Large.to_pixels(), 512);
    assert_eq!(TileSize::Normal.to_pixels(), 256);
    assert_eq!(TileSize::Normal.url_postfix(), "");
    assert_eq!(TileSize::Large.url_postfix(), "@2x");
    assert_eq!(TileSize::VeryLarge.get_url_postfix(), "@3x");
}

#[test]
fn tile_format_extension_and_mime() {
    assert_eq!(TileFormat::default(), TileFormat::Png);
    assert_eq!(TileFormat::Png.extension(), "png");
    assert_eq!(TileFormat::Jpg.extension(), "jpg");
    assert_eq!(TileFormat::Webp.extension(), "webp");
    assert_eq!(TileFormat::Png.accept_mime(), "image/png");
    assert_eq!(TileFormat::Jpg.accept_mime(), "image/jpeg");
    assert_eq!(TileFormat::Webp.accept_mime(), "image/webp");
}

#[test]
fn flag_enums_follow_their_boolean() {
    assert!(matches!(UseCache::new(true), UseCache::Yes));
    assert!(matches!(UseCache::new(false), UseCache::No));
    assert!(matches!(AlreadyDownloaded::new(true), AlreadyDownloaded::Yes));
    assert!(matches!(AlreadyDownloaded::new(false), AlreadyDownloaded::No));
    assert!(matches!(FileExists::new(true), FileExists::Yes));
    assert!(matches!(FileExists::new(false), FileExists::No));
}

#[test]
fn priority_ranks_order_near_first() {
    assert_eq!(DownloadPriority::Near.to_rank(), 0);
    assert_eq!(DownloadPriority::Mid.to_rank(), 1);
    assert_eq!(DownloadPriority::Far.to_rank(), 2);
    assert_eq!(DownloadPriority::Elevation.to_rank(), 3);
    assert!(DownloadPriority::Near < DownloadPriority::Elevation);
}

#[test]
fn default_settings() {
    let s = TileDownloadSettings::default();
    assert_eq!(s.endpoint, "https://tile.openstreetmap.org");
    assert_eq!(s.tiles_directory, "tiles/");
    assert_eq!(s.max_concurrent_downloads, 16);
    assert_eq!(s.max_retries, 3);
    assert_eq!(s.tile_size, TileSize::Large);
    assert_eq!(s.rate_limit_requests, 60);
    assert_eq!(s.rate_limit_window_ns, NANOS_PER_SEC);
    assert_eq!(s.cache_key, "carto-dark");
}

#[test]
fn tile_url_variants() {
    let mut s = TileDownloadSettings::default();
    let k = key(10, 20, 5);
    assert_eq!(tile_url("https://t.example", &k, &s), "https://t.example/5/10/20@2x.png");
    s.reverse_axes = true;
    assert_eq!(tile_url("https://t.example", &k, &s), "https://t.example/5/20/10@2x.png");
    s.supports_retina = false;
    assert_eq!(tile_url("https://t.example", &k, &s), "https://t.example/5/20/10.png");
    s.supports_retina = true;
    s.uses_extension_in_url = false;
    assert_eq!(tile_url("https://t.example", &k, &s), "https://t.example/5/20/10");
}

#[test]
fn cache_file_names() {
    let k = TileKey { x: 300, y: 401, zoom: 10, tile_size: TileSize::Normal, tile_format: TileFormat::Jpg };
    assert_eq!(tile_cache_file_name(&k), "10.300.401.256.tile.jpg");
    let s = TileDownloadSettings::default();
    assert_eq!(tile_filename(&s, &k), "tiles/carto-dark/10.300.401.256.tile.jpg");
}

#[test]
fn cached_path_parses_back_to_its_grid_key() {
    let s = TileDownloadSettings::default();
    let k = key(4_000_000_000, 17, 22);
    let path = tile_filename(&s, &k);
    assert_eq!(parse_tile_key_from_path(&path, 22), Some((4_000_000_000, 17, 22)));
}

#[test]
fn parse_tile_key_rejects_bad_names() {
    assert_eq!(parse_tile_key_from_path("tiles/a/10.5.6.512.tile.png", 3), Some((5, 6, 3)));
    assert_eq!(parse_tile_key_from_path("10.5", 10), None);
    assert_eq!(parse_tile_key_from_path("tiles/10.x.6.512.tile.png", 10), None);
    assert_eq!(parse_tile_key_from_path("tiles/10.5.4294967296.512.tile.png", 10), None);
    assert_eq!(parse_tile_key_from_path("a.1.2/file", 10), None);
}

fn png_bytes(len: usize) -> Vec<u8> {
    let mut v = vec![0x89, 0x50, 0x4E, 0x47, 0x0D, 0x0A, 0x1A, 0x0A];
    v.resize(len, 0);
    v
}

#[test]
fn tile_bytes_validation() {
    assert!(validate_tile_bytes(&png_bytes(MIN_TILE_SIZE), &TileFormat::Png));
    assert!(!validate_tile_bytes(&png_bytes(MIN_TILE_SIZE - 1), &TileFormat::Png));
    assert!(!validate_tile_bytes(&png_bytes(200), &TileFormat::Jpg));
    let mut html = vec![b'<'; 200];
    html[1] = b'h';
    assert!(!validate_tile_bytes(&html, &TileFormat::Png));
    let mut jpg = vec![0u8; 150];
    jpg[0] = 0xFF;
    jpg[1] = 0xD8;
    assert!(validate_tile_bytes(&jpg, &TileFormat::Jpg));
    let mut webp = vec![0u8; 150];
    webp[..4].copy_from_slice(b"RIFF");
    assert!(validate_tile_bytes(&webp, &TileFormat::Webp));
}

#[test]
fn response_classification() {
    let good = png_bytes(300);
    assert_eq!(classify_response(200, &good, &TileFormat::Png), ResponseVerdict::Store);
    assert_eq!(classify_response(404, &good, &TileFormat::Png), ResponseVerdict::Retry);
    assert_eq!(classify_response(200, &png_bytes(50), &TileFormat::Png), ResponseVerdict::Retry);
    assert!(retries_exhausted(3, 3));
    assert!(!retries_exhausted(2, 3));
}

#[test]
fn request_gating() {
    assert!(is_request_blocked(true, false));
    assert!(is_request_blocked(false, true));
    assert!(!is_request_blocked(false, false));
    assert_eq!(cached_tile_action(true, true, true), CachedTileAction::Ready);
    assert_eq!(cached_tile_action(false, true, true), CachedTileAction::Skip);
    assert_eq!(cached_tile_action(true, false, false), CachedTileAction::Buffer);
}

#[test]
fn rate_limiter_window() {
    let mut rl = RateLimiter::new();
    assert!(rl.can_request(0, 10, 2));
    for i in 0..3u64 {
        rl.enqueue(request(i as u32, 5, DownloadPriority::Near));
    }
    let sent = rl.dispatch(100, 10, 2);
    assert_eq!(sent.len(), 2);
    assert_eq!(sent[0].key.x, 0);
    assert_eq!(sent[1].key.x, 1);
    assert_eq!(rl.pending_count(), 1);
    // Window full at the same instant.
    assert!(rl.dispatch(105, 10, 2).is_empty());
    assert!(!rl.can_request(105, 10, 2));
    // After the window passes the stamps are stale again.
    let sent = rl.dispatch(111, 10, 2);
    assert_eq!(sent.len(), 1);
    assert_eq!(sent[0].key.x, 2);
    assert_eq!(rl.pending_count(), 0);
    assert!(rl.dispatch(200, 10, 2).is_empty());
}

#[test]
fn rate_limiter_sorts_by_priority_stably() {
    let mut rl = RateLimiter::new();
    rl.enqueue(request(1, 5, DownloadPriority::Far));
    rl.enqueue(request(2, 5, DownloadPriority::Near));
    rl.enqueue(request(3, 5, DownloadPriority::Elevation));
    rl.enqueue(request(4, 5, DownloadPriority::Near));
    rl.enqueue(request(5, 5, DownloadPriority::Mid));
    rl.sort_by_priority();
    let sent = rl.dispatch(0, NANOS_PER_SEC, 10);
    let order: Vec<u32> = sent.iter().map(|r| r.key.x).collect();
    assert_eq!(order, vec![2, 4, 5, 1, 3]);
}

#[test]
fn rate_limiter_clears_other_zooms() {
    let mut rl = RateLimiter::new();
    rl.enqueue(request(1, 5, DownloadPriority::Near));
    rl.enqueue(request(2, 6, DownloadPriority::Near));
    rl.enqueue(request(3, 5, DownloadPriority::Near));
    assert_eq!(rl.clear_stale_zoom(5), 1);
    assert_eq!(rl.pending_count(), 2);
    assert_eq!(rl.clear_stale_zoom(5), 0);
    assert_eq!(rl.clear_stale_zoom(7), 2);
    assert_eq!(rl.pending_count(), 0);
}

#[test]
fn failed_tiles_cool_down_for_thirty_seconds() {
    let mut cd = FailedTileCooldown::new();
    let k = key(1, 2, 3);
    assert!(!cd.is_cooling_down(&k, 0));
    cd.record_failure(k, 1_000);
    assert!(cd.is_cooling_down(&k, 1_000));
    assert!(cd.is_cooling_down(&k, 1_000 + FAILURE_COOLDOWN_NS - 1));
    assert!(!cd.is_cooling_down(&k, 1_000 + FAILURE_COOLDOWN_NS));
    assert!(!cd.is_cooling_down(&key(9, 9, 9), 1_000));
    // A second failure restarts the cooldown.
    cd.record_failure(k, 1_000 + FAILURE_COOLDOWN_NS);
    assert!(cd.is_cooling_down(&k, 1_000 + FAILURE_COOLDOWN_NS + 5));
    cd.prune_expired(1_000 + 3 * FAILURE_COOLDOWN_NS);
    assert!(!cd.is_cooling_down(&k, 1_000 + FAILURE_COOLDOWN_NS + 5));
}

#[test]
fn prune_keeps_tiles_still_cooling() {
    let mut cd = FailedTileCooldown::new();
    cd.record_failure(key(1, 1, 1), 0);
    cd.record_failure(key(2, 2, 2), FAILURE_COOLDOWN_NS);
    cd.prune_expired(FAILURE_COOLDOWN_NS + 1);
    assert!(!cd.is_cooling_down(&key(1, 1, 1), FAILURE_COOLDOWN_NS + 1));
    assert!(cd.is_cooling_down(&key(2, 2, 2), FAILURE_COOLDOWN_NS + 1));
}

#[test]
fn downloaded_tiles_and_finish_download() {
    let mut done = DownloadedTiles::new();
    let mut cd = FailedTileCooldown::new();
    let a = key(1, 1, 1);
    let b = key(2, 2, 2);
    assert!(finish_download(&mut done, &mut cd, a, true, 0));
    assert!(done.contains(&a));
    assert!(!cd.is_cooling_down(&a, 0));
    assert!(!finish_download(&mut done, &mut cd, b, false, 0));
    assert!(!done.contains(&b));
    assert!(cd.is_cooling_down(&b, 0));
    done.insert(a);
    assert!(done.contains(&a));
    clear_download_tracking(&mut done);
    assert!(!done.contains(&a));
}

#[test]
fn tile_pool_take_and_release() {
    let mut pool = TilePool::new();
    assert_eq!(pool.take(), None);
    pool.add_spawned(7);
    pool.add_spawned(8);
    assert_eq!(pool.total_capacity(), 2);
    assert_eq!(pool.available_count(), 2);
    assert_eq!(pool.take(), Some(8));
    pool.release(8);
    pool.release(8);
    assert_eq!(pool.available_count(), 2);
    assert_eq!(pool.take(), Some(8));
    assert_eq!(pool.take(), Some(7));
    assert_eq!(pool.take(), None);
    assert_eq!(pool.total_capacity(), 2);
    assert!(!pool.contains(7));
}

#[test]
fn tile_grid_insert_get_remove() {
    let mut grid = TileGrid::new();
    grid.insert((1, 2, 3), 10);
    grid.insert((4, 5, 6), 11);
    assert_eq!(grid.get((1, 2, 3)), Some(10));
    grid.insert((1, 2, 3), 12);
    assert_eq!(grid.get((1, 2, 3)), Some(12));
    assert_eq!(grid.len(), 2);
    grid.remove((1, 2, 3));
    assert!(!grid.contains_key((1, 2, 3)));
    assert!(grid.contains_key((4, 5, 6)));
    grid.remove_entities(&vec![11]);
    assert_eq!(grid.len(), 0);
    grid.insert((0, 0, 1), 1);
    grid.clear();
    assert_eq!(grid.len(), 0);
}

#[test]
fn out_of_band_tiles_are_released() {
    let mut grid = TileGrid::new();
    grid.insert((0, 0, 4), 1);
    grid.insert((0, 0, 5), 2);
    grid.insert((0, 0, 10), 3);
    grid.insert((0, 0, 12), 4);
    grid.insert((0, 0, 13), 5);
    // 3D band at zoom 10: 5..=12.
    let released = release_out_of_band_tiles(&mut grid, ZoomLevel::L10, true, false);
    assert_eq!(released, vec![1, 5]);
    assert_eq!(grid.len(), 3);
    // 2D waits until a current-zoom tile is visible.
    let released = release_out_of_band_tiles(&mut grid, ZoomLevel::L10, false, false);
    assert!(released.is_empty());
    assert_eq!(grid.len(), 3);
    let released = release_out_of_band_tiles(&mut grid, ZoomLevel::L10, false, true);
    assert_eq!(released, vec![2, 4]);
    assert_eq!(grid.get((0, 0, 10)), Some(3));
}

#[test]
fn tile_entity_budget_and_bands() {
    assert_eq!(max_tile_entities(true), 5000);
    assert_eq!(max_tile_entities(false), 500);
    assert_eq!(sse_band_zooms(12), vec![12, 11, 10, 9, 8, 7]);
    assert_eq!(sse_band_zooms(6), vec![6, 5, 4]);
    assert_eq!(sse_band_zooms(4), vec![4]);
    assert!(sse_band_zooms(2).is_empty());
}

#[test]
fn grid_overlay_texture() {
    let data = grid_overlay_pixels(GRID_OVERLAY_SIZE, GRID_OVERLAY_SUBDIVISIONS);
    let size = GRID_OVERLAY_SIZE as usize;
    assert_eq!(data.len(), size * size * 4);
    let px = |x: usize, y: usize| -> [u8; 4] {
        let i = (y * size + x) * 4;
        [data[i], data[i + 1], data[i + 2], data[i + 3]]
    };
    assert_eq!(px(0, 0), [100, 110, 130, 255]);
    assert_eq!(px(1, 50), [100, 110, 130, 255]);
    assert_eq!(px(511, 300), [100, 110, 130, 255]);
    assert_eq!(px(128, 50), [70, 78, 90, 255]);
    assert_eq!(px(50, 256), [70, 78, 90, 255]);
    assert_eq!(px(50, 50), [40, 44, 52, 255]);
    let small = grid_overlay_pixels(4, 2);
    assert_eq!(small.len(), 64);
}

#[test]
fn elevation_sources() {
    let mapbox = MapboxTerrainRgb { access_token: "tok".to_string() };
    assert_eq!(
        mapbox.tile_url(1, 2, 3),
        "https://api.mapbox.com/v4/mapbox.terrain-rgb/3/1/2.pngraw?access_token=tok"
    );
    assert_eq!(mapbox.name(), "mapbox-terrain-rgb");
    assert_eq!(mapbox.tile_format(), TileFormat::Png);
    let terrarium = TerrariumDecoder::default();
    assert_eq!(
        terrarium.tile_url(10, 20, 7),
        "https://s3.amazonaws.com/elevation-tiles-prod/terrarium/7/10/20.png"
    );
    assert_eq!(terrarium.name(), "terrarium");
    assert_eq!(terrarium.tile_format(), TileFormat::Png);
}

#[test]
fn heightmap_cache() {
    let k = ElevationTileKey { x: 5, y: 6, zoom: 7 };
    assert_eq!(heightmap_cache_file_name(&k), "7.5.6.heightmap.raw");
    assert!(heightmap_file_size_matches(256 * 256 * 4, 256, 256));
    assert!(!heightmap_file_size_matches(256 * 256 * 4 - 1, 256, 256));
}

#[test]
fn wrap_tile_x_at_zoom_63() {
    assert_eq!(wrap_tile_x(5_000_000_000, 63), (5_000_000_000u64 % (1u64 << 32)) as u32);
    assert_eq!(wrap_tile_x(0, 63), 0);
    assert_eq!(wrap_tile_x(i64::MAX, 63), u32::MAX);
}

#[test]
fn a_failed_download_leaves_other_cooldowns_alone() {
    let mut done = DownloadedTiles::new();
    let mut cd = FailedTileCooldown::new();
    let a = key(1, 1, 1);
    let b = key(2, 2, 2);
    cd.record_failure(a, 0);
    assert!(!finish_download(&mut done, &mut cd, b, false, 10));
    assert!(cd.is_cooling_down(&a, 10));
    assert!(cd.is_cooling_down(&b, 10));
    // A repeated failure restarts only that tile's cooldown.
    assert!(!finish_download(&mut done, &mut cd, a, false, FAILURE_COOLDOWN_NS));
    assert!(cd.is_cooling_down(&a, FAILURE_COOLDOWN_NS + 5));
    assert!(!cd.is_cooling_down(&b, FAILURE_COOLDOWN_NS + 10));
}
