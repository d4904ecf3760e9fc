//! The integer side of zooming: stepping the tile zoom when the camera zoom
//! crosses a threshold, and choosing the 3D view's tile zoom for an
//! altitude. The camera-zoom thresholds and the altitude curve are floating
//! point; the caller compares them and hands over the outcome.

use vstd::prelude::*;

use crate::tiles::types::ZoomLevel;

verus! {

/// Scrolling in stops at this tile zoom.
pub const MAX_SCROLL_TILE_ZOOM: u8 = 19;

/// Scrolling out stops at this tile zoom.
pub const MIN_TILE_ZOOM: u8 = 3;

/// The tile zoom after one threshold crossing: one finer when the camera
/// zoom is past the upgrade threshold and the zoom is below 19, one coarser
/// when it is past the downgrade threshold and the zoom is above 3, none
/// otherwise (the loop of crossings ends).
pub open spec fn next_tile_zoom(current: u8, past_upgrade: bool, past_downgrade: bool) -> Option<u8> {
    if past_upgrade && current < MAX_SCROLL_TILE_ZOOM {
        Some((current + 1) as u8)
    } else if past_downgrade && current > MIN_TILE_ZOOM {
        Some((current - 1) as u8)
    } else {
        None
    }
}

/// One step of the zoom-level transition loop.
pub fn tile_zoom_step(current: ZoomLevel, past_upgrade: bool, past_downgrade: bool) -> (r: Option<ZoomLevel>)
    ensures
        match (r, next_tile_zoom(current.value(), past_upgrade, past_downgrade)) {
            (Some(z), Some(v)) => z.value() == v,
            (None, None) => true,
            _ => false,
        },
{
    let z = current.to_u8();
    if past_upgrade && z < MAX_SCROLL_TILE_ZOOM {
        match ZoomLevel::try_from(z + 1) {
            Ok(level) => Some(level),
            Err(_) => None,
        }
    } else if past_downgrade && z > MIN_TILE_ZOOM {
        match ZoomLevel::try_from(z - 1) {
            Ok(level) => Some(level),
            Err(_) => None,
        }
    } else {
        None
    }
}

/// Zooms the 3D view's adaptive tile zoom stays within.
pub const ADAPTIVE_MIN_ZOOM: u8 = 8;

/// See `ADAPTIVE_MIN_ZOOM`.
pub const ADAPTIVE_MAX_ZOOM: u8 = 18;

/// The adaptive tile zoom for an altitude, given the rounded ideal zoom
/// `target` and whether the unrounded ideal lies more than 0.7 above
/// (`above`) or 0.6 below (`below`) the current zoom: a target more than one
/// level away is taken at once (within 8..=18); otherwise the zoom moves one
/// level up or down (within the same bounds) past those margins, and stays
/// put between them.
pub open spec fn adaptive_zoom_spec(target: u8, current: u8, above: bool, below: bool) -> u8 {
    let diff = if target >= current { target - current } else { current - target };
    if diff > 1 {
        if target < ADAPTIVE_MIN_ZOOM {
            ADAPTIVE_MIN_ZOOM
        } else if target > ADAPTIVE_MAX_ZOOM {
            ADAPTIVE_MAX_ZOOM
        } else {
            target
        }
    } else if above {
        if current + 1 < ADAPTIVE_MAX_ZOOM { (current + 1) as u8 } else { ADAPTIVE_MAX_ZOOM }
    } else if below {
        let lowered: u8 = if current > 0 { (current - 1) as u8 } else { 0 };
        if lowered > ADAPTIVE_MIN_ZOOM { lowered } else { ADAPTIVE_MIN_ZOOM }
    } else {
        current
    }
}

/// Chooses the adaptive tile zoom with hysteresis.
pub fn adaptive_zoom(target: u8, current: u8, above: bool, below: bool) -> (r: u8)
    ensures
        r == adaptive_zoom_spec(target, current, above, below),
{
    let diff = if target >= current { target - current } else { current - target };
    if diff > 1 {
        if target < ADAPTIVE_MIN_ZOOM {
            ADAPTIVE_MIN_ZOOM
        } else if target > ADAPTIVE_MAX_ZOOM {
            ADAPTIVE_MAX_ZOOM
        } else {
            target
        }
    } else if above {
        if current < ADAPTIVE_MAX_ZOOM - 1 { current + 1 } else { ADAPTIVE_MAX_ZOOM }
    } else if below {
        let lowered: u8 = if current > 0 { current - 1 } else { 0 };
        if lowered > ADAPTIVE_MIN_ZOOM { lowered } else { ADAPTIVE_MIN_ZOOM }
    } else {
        current
    }
}

/// Once within 8..=18 the adaptive zoom never leaves that range, and it
/// moves by at most one level unless the target is more than one level away.
pub proof fn lemma_adaptive_zoom_bounded(target: u8, current: u8, above: bool, below: bool)
    requires
        ADAPTIVE_MIN_ZOOM <= current <= ADAPTIVE_MAX_ZOOM,
    ensures
        ADAPTIVE_MIN_ZOOM <= adaptive_zoom_spec(target, current, above, below) <= ADAPTIVE_MAX_ZOOM,
        (if target >= current { target - current } else { current - target }) <= 1 ==> {
            let r = adaptive_zoom_spec(target, current, above, below);
            &&& r <= current + 1
            &&& current <= r + 1
        },
{
}

/// Scrolling keeps the tile zoom within 3..=19 once it is there, and one
/// step moves it by exactly one level.
pub proof fn lemma_tile_zoom_step_bounded(current: u8, past_upgrade: bool, past_downgrade: bool)
    requires
        MIN_TILE_ZOOM <= current <= MAX_SCROLL_TILE_ZOOM,
    ensures
        match next_tile_zoom(current, past_upgrade, past_downgrade) {
            Some(z) => MIN_TILE_ZOOM <= z <= MAX_SCROLL_TILE_ZOOM && (z == current + 1 || z + 1 == current),
            None => true,
        },
{
}

/// Whatever the current zoom, the adaptive zoom lands in 8..=18 given what
/// the caller's inputs mean: the rounded ideal zoom `target` lies in 8..=18
/// (the ideal is clamped to that range), `above` only when the ideal exceeds
/// the current zoom by more than 0.7 (so `target` is above the current zoom),
/// `below` only when it falls short by more than 0.6 (so `target` is below
/// it), and with neither the current zoom is within 0.7 of an ideal in
/// 8..=18, hence itself in 8..=18.
pub proof fn lemma_adaptive_zoom_in_range(target: u8, current: u8, above: bool, below: bool)
    requires
        ADAPTIVE_MIN_ZOOM <= target <= ADAPTIVE_MAX_ZOOM,
        above ==> target > current,
        below ==> target < current,
        !above && !below ==> ADAPTIVE_MIN_ZOOM <= current <= ADAPTIVE_MAX_ZOOM,
    ensures
        ADAPTIVE_MIN_ZOOM <= adaptive_zoom_spec(target, current, above, below) <= ADAPTIVE_MAX_ZOOM,
{
}

/// What a scroll asks of the tile downloader once the zoom level has been
/// checked.
#[derive(Debug, Clone, Copy, PartialEq, Eq, Structural)]
pub enum ZoomTileRequest {
    /// The tile zoom changed: request the new level's tiles.
    NewZoom,
    /// Same zoom, but the view needs a wider radius than last requested.
    WiderRadius,
    /// Nothing to request.
    Nothing,
}

/// After a scroll: a zoom change requests the new level at `radius`; else a
/// radius wider than the last one requested asks for that wider radius;
/// else nothing. Returns the request and the radius now on record.
pub fn tile_request_after_scroll(zoom_changed: bool, radius: u8, last_requested: u8) -> (r: (
    ZoomTileRequest,
    u8,
))
    ensures
        r == (if zoom_changed {
            (ZoomTileRequest::NewZoom, radius)
        } else if radius > last_requested {
            (ZoomTileRequest::WiderRadius, radius)
        } else {
            (ZoomTileRequest::Nothing, last_requested)
        }),
{
    if zoom_changed {
        (ZoomTileRequest::NewZoom, radius)
    } else if radius > last_requested {
        (ZoomTileRequest::WiderRadius, radius)
    } else {
        (ZoomTileRequest::Nothing, last_requested)
    }
}

} // verus!
