//! Presentation decisions about fused tracks: status texts and colors,
//! which targets get an aircraft model, when landed or orphaned aircraft go,
//! and the stable hue of each sensor in the debug overlay.

use std::hash::BuildHasher;
use vstd::prelude::*;

use crate::aircraft::labels::{blank, is_blank};

verus! {

/// Lifecycle status of a fused track.
#[derive(Debug, Clone, Copy, PartialEq, Eq, Structural)]
pub enum TrackStatus {
    Tentative,
    Confirmed,
    Coasting,
    Lost,
}

/// Category of a fused target.
#[derive(Debug, Clone, Copy, PartialEq, Eq, Structural)]
pub enum TargetCategory {
    FixedWing,
    RotaryWing,
    Drone,
    Balloon,
    Vehicle,
    Vessel,
    Person,
    Unknown,
}

pub open spec fn status_text_spec(status: TrackStatus) -> Seq<char> {
    match status {
        TrackStatus::Tentative => "TENTATIVE"@,
        TrackStatus::Confirmed => "CONFIRMED"@,
        TrackStatus::Coasting => "COASTING"@,
        TrackStatus::Lost => "LOST"@,
    }
}

pub fn fusion_status_text(status: TrackStatus) -> (r: &'static str)
    ensures
        r@ == status_text_spec(status),
{
    match status {
        TrackStatus::Tentative => "TENTATIVE",
        TrackStatus::Confirmed => "CONFIRMED",
        TrackStatus::Coasting => "COASTING",
        TrackStatus::Lost => "LOST",
    }
}

/// RGB color of a track status: yellowish tentative, green confirmed, amber
/// coasting, red lost.
pub open spec fn status_color_spec(status: TrackStatus) -> (u8, u8, u8) {
    match status {
        TrackStatus::Tentative => (180, 180, 100),
        TrackStatus::Confirmed => (100, 200, 100),
        TrackStatus::Coasting => (200, 150, 50),
        TrackStatus::Lost => (200, 80, 80),
    }
}

pub fn fusion_status_color(status: TrackStatus) -> (r: (u8, u8, u8))
    ensures
        r == status_color_spec(status),
{
    match status {
        TrackStatus::Tentative => (180, 180, 100),
        TrackStatus::Confirmed => (100, 200, 100),
        TrackStatus::Coasting => (200, 150, 50),
        TrackStatus::Lost => (200, 80, 80),
    }
}

/// Targets shown as aircraft: fixed and rotary wing, drones, balloons and
/// targets of unknown category.
pub open spec fn air_target(category: TargetCategory) -> bool {
    match category {
        TargetCategory::FixedWing | TargetCategory::RotaryWing | TargetCategory::Drone
        | TargetCategory::Balloon | TargetCategory::Unknown => true,
        _ => false,
    }
}

pub fn is_air_target(category: TargetCategory) -> (r: bool)
    ensures
        r == air_target(category),
{
    match category {
        TargetCategory::FixedWing | TargetCategory::RotaryWing | TargetCategory::Drone
        | TargetCategory::Balloon | TargetCategory::Unknown => true,
        _ => false,
    }
}

/// Label of the estimator behind a track: "IMM" for an interacting multiple
/// model filter, "Surface" for the ground-vehicle state, "EKF" otherwise.
pub fn filter_type_label(has_mode_info: bool, surface_state: bool) -> (r: &'static str)
    ensures
        r@ == (if has_mode_info {
            "IMM"@
        } else if surface_state {
            "Surface"@
        } else {
            "EKF"@
        }),
{
    if has_mode_info {
        "IMM"
    } else if surface_state {
        "Surface"
    } else {
        "EKF"
    }
}

/// What the track-to-visual sync does with one fused track.
#[derive(Debug, Clone, Copy, PartialEq, Eq, Structural)]
pub enum VisualAction {
    /// The track is lost: leave its visual alone.
    Skip,
    /// Refresh the aircraft entity that shows the track.
    Update,
    /// Spawn an aircraft entity and its label for the track.
    Spawn,
    /// Nothing to show: a coasting track without a visual, or a target that
    /// is not an aircraft.
    Ignore,
}

/// Lost tracks are skipped; a track with a visual updates it; a new visual
/// is spawned only for an aircraft-like target whose track is not coasting
/// (a coasting track without a visual had it cleaned up for age, and
/// spawning it again would only have it removed the next frame).
pub open spec fn visual_action_spec(status: TrackStatus, has_visual: bool, category: TargetCategory) -> VisualAction {
    if status == TrackStatus::Lost {
        VisualAction::Skip
    } else if has_visual {
        VisualAction::Update
    } else if air_target(category) && status != TrackStatus::Coasting {
        VisualAction::Spawn
    } else {
        VisualAction::Ignore
    }
}

/// Decides what to do with a fused track's visual.
pub fn track_visual_action(status: TrackStatus, has_visual: bool, category: TargetCategory) -> (r: VisualAction)
    ensures
        r == visual_action_spec(status, has_visual, category),
{
    if status == TrackStatus::Lost {
        VisualAction::Skip
    } else if has_visual {
        VisualAction::Update
    } else if is_air_target(category) && status != TrackStatus::Coasting {
        VisualAction::Spawn
    } else {
        VisualAction::Ignore
    }
}

/// The callsign shown after an update: a non-blank callsign from the raw
/// feed record replaces the old one; without a raw record, an aircraft that
/// has none takes the first callsign among the track's identifiers.
pub open spec fn merged_callsign_spec(
    current: Option<Seq<char>>,
    has_raw: bool,
    raw_callsign: Option<Seq<char>>,
    track_callsign: Option<Seq<char>>,
) -> Option<Seq<char>> {
    if has_raw {
        match raw_callsign {
            Some(c) if !is_blank(c) => Some(c),
            _ => current,
        }
    } else if current is None {
        track_callsign
    } else {
        current
    }
}

/// The view of an optional string.
pub open spec fn opt_string_view(s: Option<String>) -> Option<Seq<char>> {
    match s {
        Some(t) => Some(t@),
        None => None,
    }
}

/// Merges the callsign of an aircraft being refreshed from its track.
pub fn merged_callsign(
    current: Option<String>,
    has_raw: bool,
    raw_callsign: Option<String>,
    track_callsign: Option<String>,
) -> (r: Option<String>)
    ensures
        opt_string_view(r) == merged_callsign_spec(
            opt_string_view(current),
            has_raw,
            opt_string_view(raw_callsign),
            opt_string_view(track_callsign),
        ),
{
    if has_raw {
        match raw_callsign {
            Some(c) => {
                if !blank(c.as_str()) {
                    Some(c)
                } else {
                    current
                }
            },
            None => current,
        }
    } else if current.is_none() {
        track_callsign
    } else {
        current
    }
}

/// Kind of a cooperative identifier carried by a fused track.
#[derive(Debug, Clone, Copy, PartialEq, Eq, Structural)]
pub enum CooperativeIdKind {
    Icao,
    Callsign,
    Other,
}

/// The first identifier of the given kind among a track's cooperative ids.
pub open spec fn first_id_of(ids: Seq<(CooperativeIdKind, String)>, kind: CooperativeIdKind) -> Option<Seq<char>>
    decreases ids.len(),
{
    if ids.len() == 0 {
        None
    } else if ids[0].0 == kind {
        Some(ids[0].1@)
    } else {
        first_id_of(ids.drop_first(), kind)
    }
}

/// Finds the first cooperative id of a kind.
pub fn first_cooperative_id(ids: &Vec<(CooperativeIdKind, String)>, kind: CooperativeIdKind) -> (r: Option<String>)
    ensures
        opt_string_view(r) == first_id_of(ids@, kind),
{
    let mut i: usize = 0;
    assert(ids@.skip(0) =~= ids@);
    while i < ids.len()
        invariant
            i <= ids@.len(),
            first_id_of(ids@.skip(i as int), kind) == first_id_of(ids@, kind),
        decreases ids@.len() - i,
    {
        proof {
            assert(ids@.skip(i as int).drop_first() =~= ids@.skip(i + 1));
        }
        if ids[i].0 == kind {
            return Some(ids[i].1.clone());
        }
        i = i + 1;
    }
    assert(ids@.skip(i as int) =~= Seq::<(CooperativeIdKind, String)>::empty());
    None
}

/// The ICAO name of a newly spawned aircraft: the track's ICAO identifier,
/// else `TRK-` and the first eight characters of the track id's text.
pub open spec fn spawn_icao_spec(icao_id: Option<Seq<char>>, track_id: Seq<char>) -> Seq<char> {
    match icao_id {
        Some(i) => i,
        None => "TRK-"@ + track_id.subrange(0, 8),
    }
}

/// Names a newly spawned aircraft. The track id's text is the hyphenated
/// form of a UUID (ASCII); the name takes its first eight characters, which
/// a shorter text does not have.
pub fn spawn_icao(icao_id: Option<String>, track_id_text: &str) -> (r: String)
    requires
        icao_id is None ==> track_id_text.is_ascii() && track_id_text@.len() >= 8,
    ensures
        r@ == spawn_icao_spec(opt_string_view(icao_id), track_id_text@),
{
    match icao_id {
        Some(i) => i,
        None => {
            let mut s = String::from_str("TRK-");
            s.append(track_id_text.substring_ascii(0, 8));
            s
        },
    }
}

/// Tracks at or below this altitude may be landing.
pub const LANDING_ALTITUDE_FT: i32 = 1500;

/// Whether a track is a landing candidate, to be checked against runway
/// ends: airborne, not lost, at most `LANDING_ALTITUDE_FT` high, and at most
/// the landing speed (`slow_enough`, a floating-point comparison made by
/// the caller).
pub fn landing_candidate(on_ground: bool, status: TrackStatus, altitude_ft: i32, slow_enough: bool) -> (r: bool)
    ensures
        r == (!on_ground && status != TrackStatus::Lost && altitude_ft <= LANDING_ALTITUDE_FT && slow_enough),
{
    !on_ground && status != TrackStatus::Lost && altitude_ft <= LANDING_ALTITUDE_FT && slow_enough
}

/// Seconds a landed aircraft stays on the map before it may be removed.
pub const LANDED_CLEANUP_SECS: i64 = 30;

/// A landed aircraft is removed once it has been down longer than
/// `LANDED_CLEANUP_SECS` and its track is coasting, lost or gone (`None`).
pub fn landed_aircraft_expired(age_secs: i64, track_status: Option<TrackStatus>) -> (r: bool)
    ensures
        r == (age_secs > LANDED_CLEANUP_SECS && match track_status {
            Some(TrackStatus::Coasting) | Some(TrackStatus::Lost) | None => true,
            _ => false,
        }),
{
    let stale = match track_status {
        Some(TrackStatus::Coasting) | Some(TrackStatus::Lost) | None => true,
        _ => false,
    };
    age_secs > LANDED_CLEANUP_SECS && stale
}

/// An aircraft whose track is gone, or not seen for longer than the
/// timeout, is removed from the map.
pub fn visual_expired(track_exists: bool, age_secs: i64, timeout_secs: i64) -> (r: bool)
    ensures
        r == (!track_exists || age_secs > timeout_secs),
{
    !track_exists || age_secs > timeout_secs
}

/// The 64-bit hash `std::collections::hash_map::DefaultHasher` gives a
/// string (built with `DefaultHasher::new`, whose keys are fixed, so the
/// same text hashes the same way in every run of a given build).
pub uninterp spec fn default_hash(s: Seq<char>) -> u64;

/// `BuildHasher::hash_one` with the default hasher: hashes `s` as
/// `DefaultHasher::new()`, `Hash::hash` and `Hasher::finish` do. The
/// contract names the result; its value is not stated.
#[verifier::external_body]
fn hash_str(s: &str) -> (r: u64)
    ensures
        r == default_hash(s@),
{
    std::hash::BuildHasherDefault::<std::collections::hash_map::DefaultHasher>::default().hash_one(s)
}

/// Deterministic per-sensor hue, in whole degrees, derived from a hash of
/// the sensor id, so a feed keeps its color across frames and restarts.
pub fn sensor_hue(sensor_id: &str) -> (r: u16)
    ensures
        r == default_hash(sensor_id@) % 360,
{
    (hash_str(sensor_id) % 360) as u16
}

/// Only ground vehicles, vessels and people are not drawn as aircraft: a
/// track of any other category (fixed wing, rotary wing, drone, balloon or
/// unknown) that is neither lost nor coasting and has no visual yet gets an
/// aircraft spawned; one of those three categories never does.
pub proof fn lemma_spawns_all_air_categories(status: TrackStatus, category: TargetCategory)
    ensures
        status != TrackStatus::Lost && status != TrackStatus::Coasting ==> (visual_action_spec(
            status,
            false,
            category,
        ) == VisualAction::Spawn <==> !(category == TargetCategory::Vehicle || category
            == TargetCategory::Vessel || category == TargetCategory::Person)),
        air_target(TargetCategory::FixedWing),
        air_target(TargetCategory::RotaryWing),
        air_target(TargetCategory::Drone),
        air_target(TargetCategory::Balloon),
        air_target(TargetCategory::Unknown),
        !air_target(TargetCategory::Vehicle),
        !air_target(TargetCategory::Vessel),
        !air_target(TargetCategory::Person),
{
}

} // verus!
