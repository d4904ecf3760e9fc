//! Aircraft statistics by altitude band and by position source, and the
//! session duration shown in the statistics panel.

use vstd::prelude::*;

use crate::adsb::enrichment::PositionSource;
use crate::text::{dec, dec2, push_decimal, push_decimal2};

verus! {

/// The altitude band of an aircraft: 0 below 10,000 ft, 1 below 25,000 ft,
/// 2 below 40,000 ft, 3 at or above 40,000 ft, 4 when unknown.
pub open spec fn altitude_band(alt: Option<i32>) -> nat {
    match alt {
        Some(a) => if a < 10000 { 0 } else if a < 25000 { 1 } else if a < 40000 { 2 } else { 3 },
        None => 4,
    }
}

/// Whether an altitude falls in band `b`.
pub open spec fn in_band(b: nat) -> spec_fn(Option<i32>) -> bool {
    |alt: Option<i32>| altitude_band(alt) == b
}

/// Number of altitudes in band `b`.
pub open spec fn band_count(alts: Seq<Option<i32>>, b: nat) -> nat {
    alts.filter(in_band(b)).len()
}

/// Statistics about aircraft by altitude band
pub struct AltitudeBandStats {
    pub ground_to_10k: usize,
    pub ten_to_25k: usize,
    pub twentyfive_to_40k: usize,
    pub above_40k: usize,
    pub unknown: usize,
}

impl AltitudeBandStats {
    /// Counts the aircraft with the given altitudes (feet) by band.
    pub fn from_aircraft(altitudes: &Vec<Option<i32>>) -> (r: Self)
        ensures
            r.ground_to_10k == band_count(altitudes@, 0),
            r.ten_to_25k == band_count(altitudes@, 1),
            r.twentyfive_to_40k == band_count(altitudes@, 2),
            r.above_40k == band_count(altitudes@, 3),
            r.unknown == band_count(altitudes@, 4),
    {
        let mut stats = AltitudeBandStats {
            ground_to_10k: 0,
            ten_to_25k: 0,
            twentyfive_to_40k: 0,
            above_40k: 0,
            unknown: 0,
        };
        let ghost s = altitudes@;
        let mut i: usize = 0;
        while i < altitudes.len()
            invariant
                i <= s.len(),
                s == altitudes@,
                stats.ground_to_10k == band_count(s.take(i as int), 0),
                stats.ten_to_25k == band_count(s.take(i as int), 1),
                stats.twentyfive_to_40k == band_count(s.take(i as int), 2),
                stats.above_40k == band_count(s.take(i as int), 3),
                stats.unknown == band_count(s.take(i as int), 4),
                stats.ground_to_10k + stats.ten_to_25k + stats.twentyfive_to_40k + stats.above_40k
                    + stats.unknown == i,
            decreases s.len() - i,
        {
            let a = altitudes[i];
            proof {
                let t = s.take(i as int);
                assert(t.push(a) =~= s.take(i + 1));
                t.lemma_filter_push(a, in_band(0));
                t.lemma_filter_push(a, in_band(1));
                t.lemma_filter_push(a, in_band(2));
                t.lemma_filter_push(a, in_band(3));
                t.lemma_filter_push(a, in_band(4));
            }
            match a {
                Some(alt) => {
                    if alt < 10000 {
                        stats.ground_to_10k = stats.ground_to_10k + 1;
                    } else if alt < 25000 {
                        stats.ten_to_25k = stats.ten_to_25k + 1;
                    } else if alt < 40000 {
                        stats.twentyfive_to_40k = stats.twentyfive_to_40k + 1;
                    } else {
                        stats.above_40k = stats.above_40k + 1;
                    }
                },
                None => {
                    stats.unknown = stats.unknown + 1;
                },
            }
            i = i + 1;
        }
        proof {
            assert(s.take(i as int) =~= s);
        }
        stats
    }

    /// Sum of all bands.
    pub fn total(&self) -> (r: usize)
        requires
            self.ground_to_10k + self.ten_to_25k + self.twentyfive_to_40k + self.above_40k
                + self.unknown <= usize::MAX,
        ensures
            r == self.ground_to_10k + self.ten_to_25k + self.twentyfive_to_40k + self.above_40k
                + self.unknown,
    {
        self.ground_to_10k + self.ten_to_25k + self.twentyfive_to_40k + self.above_40k + self.unknown
    }
}

/// Every aircraft falls in exactly one altitude band, so the bands add up
/// to the number of aircraft.
pub proof fn lemma_altitude_bands_partition(alts: Seq<Option<i32>>)
    ensures
        band_count(alts, 0) + band_count(alts, 1) + band_count(alts, 2) + band_count(alts, 3)
            + band_count(alts, 4) == alts.len(),
    decreases alts.len(),
{
    if alts.len() > 0 {
        let t = alts.drop_last();
        lemma_altitude_bands_partition(t);
        assert(t.push(alts.last()) =~= alts);
        t.lemma_filter_push(alts.last(), in_band(0));
        t.lemma_filter_push(alts.last(), in_band(1));
        t.lemma_filter_push(alts.last(), in_band(2));
        t.lemma_filter_push(alts.last(), in_band(3));
        t.lemma_filter_push(alts.last(), in_band(4));
    }
}

/// The class of a position source in the statistics: 0 ADS-B, 1 MLAT,
/// 2 relayed (TIS-B, ADS-R, ADS-C), 3 other, 4 unconfirmed (not classified
/// by any enrichment source).
pub open spec fn source_class(src: Option<PositionSource>) -> nat {
    match src {
        Some(PositionSource::AdsbIcao) | Some(PositionSource::AdsbIcaoNt) => 0,
        Some(PositionSource::Mlat) => 1,
        Some(PositionSource::TisbIcao) | Some(PositionSource::AdsrIcao) | Some(PositionSource::Adsc) => 2,
        Some(PositionSource::Other) => 3,
        Some(PositionSource::Unknown) | None => 4,
    }
}

/// Whether a position source falls in class `c`.
pub open spec fn in_class(c: nat) -> spec_fn(Option<PositionSource>) -> bool {
    |src: Option<PositionSource>| source_class(src) == c
}

/// Number of sources in class `c`.
pub open spec fn class_count(srcs: Seq<Option<PositionSource>>, c: nat) -> nat {
    srcs.filter(in_class(c)).len()
}

/// Statistics about aircraft by position source (ADS-B, MLAT, etc.)
pub struct PositionSourceStats {
    pub adsb: usize,
    pub mlat: usize,
    /// TIS-B, ADS-R, and ADS-C combined (rebroadcast/uplinked sources).
    pub relayed: usize,
    pub other: usize,
    /// No enrichment source configured, or none has classified this
    /// aircraft yet.
    pub unconfirmed: usize,
}

impl PositionSourceStats {
    /// Counts the aircraft by the last position source of their tracks.
    pub fn from_diagnostics(sources: &Vec<Option<PositionSource>>) -> (r: Self)
        ensures
            r.adsb == class_count(sources@, 0),
            r.mlat == class_count(sources@, 1),
            r.relayed == class_count(sources@, 2),
            r.other == class_count(sources@, 3),
            r.unconfirmed == class_count(sources@, 4),
            r.adsb + r.mlat + r.relayed + r.other + r.unconfirmed == sources@.len(),
    {
        let mut stats = PositionSourceStats { adsb: 0, mlat: 0, relayed: 0, other: 0, unconfirmed: 0 };
        let ghost s = sources@;
        let mut i: usize = 0;
        while i < sources.len()
            invariant
                i <= s.len(),
                s == sources@,
                stats.adsb == class_count(s.take(i as int), 0),
                stats.mlat == class_count(s.take(i as int), 1),
                stats.relayed == class_count(s.take(i as int), 2),
                stats.other == class_count(s.take(i as int), 3),
                stats.unconfirmed == class_count(s.take(i as int), 4),
                stats.adsb + stats.mlat + stats.relayed + stats.other + stats.unconfirmed == i,
            decreases s.len() - i,
        {
            let src = sources[i];
            proof {
                let t = s.take(i as int);
                assert(t.push(src) =~= s.take(i + 1));
                t.lemma_filter_push(src, in_class(0));
                t.lemma_filter_push(src, in_class(1));
                t.lemma_filter_push(src, in_class(2));
                t.lemma_filter_push(src, in_class(3));
                t.lemma_filter_push(src, in_class(4));
            }
            match src {
                Some(PositionSource::AdsbIcao) | Some(PositionSource::AdsbIcaoNt) => {
                    stats.adsb = stats.adsb + 1;
                },
                Some(PositionSource::Mlat) => {
                    stats.mlat = stats.mlat + 1;
                },
                Some(PositionSource::TisbIcao) | Some(PositionSource::AdsrIcao) | Some(
                    PositionSource::Adsc,
                ) => {
                    stats.relayed = stats.relayed + 1;
                },
                Some(PositionSource::Other) => {
                    stats.other = stats.other + 1;
                },
                Some(PositionSource::Unknown) | None => {
                    stats.unconfirmed = stats.unconfirmed + 1;
                },
            }
            i = i + 1;
        }
        proof {
            assert(s.take(i as int) =~= s);
        }
        stats
    }
}

/// `HH:MM:SS` of a duration in seconds; hours grow past two digits.
pub open spec fn duration_text(secs: u64) -> Seq<char> {
    dec2((secs / 3600) as nat) + ":"@ + dec2(((secs % 3600) / 60) as nat) + ":"@ + dec2(
        (secs % 60) as nat,
    )
}

/// Format duration as HH:MM:SS
pub fn format_duration(secs: u64) -> (r: String)
    ensures
        r@ == duration_text(secs),
{
    let hours = secs / 3600;
    let mins = (secs % 3600) / 60;
    let s = secs % 60;
    let mut out = String::new();
    push_decimal2(&mut out, hours);
    out.append(":");
    push_decimal2(&mut out, mins);
    out.append(":");
    push_decimal2(&mut out, s);
    out
}

/// The "last seen" text: `{n}s` under a minute, `{m}m:{ss}s` from then on
/// (65 seconds read `1m:05s`).
pub open spec fn last_seen_text(secs: u64) -> Seq<char> {
    if secs < 60 {
        dec(secs as nat) + "s"@
    } else {
        dec((secs / 60) as nat) + "m:"@ + dec2((secs % 60) as nat) + "s"@
    }
}

/// Format whole seconds since the last message as a compact "Ns" /
/// "Mm:SSs" string for the aircraft list and hover popup.
pub fn format_last_seen(secs: u64) -> (r: String)
    ensures
        r@ == last_seen_text(secs),
{
    let mut out = String::new();
    if secs < 60 {
        push_decimal(&mut out, secs);
        out.append("s");
    } else {
        push_decimal(&mut out, secs / 60);
        out.append("m:");
        push_decimal2(&mut out, secs % 60);
        out.append("s");
    }
    out
}

} // verus!
