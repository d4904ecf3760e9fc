//! The integer decisions of the flight-display widgets: which heading ticks
//! the heading tape draws and how the tapes label their values.

use vstd::prelude::*;
use crate::text::{dec, dec2, dec_int, push_decimal, push_decimal2, push_decimal_i64};

verus! {

/// Direction for gradient rendering.
#[derive(PartialEq, Eq, Structural, Clone, Copy, Debug)]
pub enum GradientDirection {
    Vertical,
    Horizontal,
}

/// Compass bearing, in `0..360`, of the tape degree `d` (which may lie
/// outside one turn on either side).
pub open spec fn bearing_of(d: int) -> int {
    d % 360
}

/// The compass bearing of tape degree `d`.
pub fn normalize_bearing(d: i32) -> (b: i32)
    ensures
        b == bearing_of(d as int),
        0 <= b < 360,
{
    if d >= 0 {
        let r: u32 = (d as u32) % 360;
        r as i32
    } else {
        let n: i64 = -(d as i64);
        let m: i64 = n % 360;
        proof {
            let q = n / 360;
            assert(n == 360 * q + m);
            assert(d as int == -n);
            if m == 0 {
                assert((d as int) == 360 * (-q));
                assert((d as int) % 360 == 0) by (nonlinear_arith)
                    requires (d as int) == 360 * (-q);
            } else {
                assert((d as int) == 360 * (-q - 1) + (360 - m));
                assert((d as int) % 360 == 360 - m) by (nonlinear_arith)
                    requires (d as int) == 360 * (-q - 1) + (360 - m), 0 < m < 360;
            }
        }
        if m == 0 {
            0
        } else {
            (360 - m) as i32
        }
    }
}

/// How the heading tape marks one whole degree.
#[derive(PartialEq, Eq, Structural, Clone, Copy, Debug)]
pub enum HeadingTick {
    /// A long tick with the compass letter (N, E, S, W).
    Cardinal,
    /// A medium tick labelled with the bearing in tens of degrees.
    Major,
    /// A short unlabelled tick.
    Minor,
    /// No tick at all.
    Blank,
}

/// The tick kind of a bearing: every 90 degrees cardinal, every 30 major,
/// every 10 minor.
pub open spec fn tick_of(b: int) -> HeadingTick {
    if b % 90 == 0 {
        HeadingTick::Cardinal
    } else if b % 30 == 0 {
        HeadingTick::Major
    } else if b % 10 == 0 {
        HeadingTick::Minor
    } else {
        HeadingTick::Blank
    }
}

/// The compass letter of a cardinal bearing.
pub open spec fn cardinal_letter(b: int) -> Seq<char> {
    if b == 0 {
        seq!['N']
    } else if b == 90 {
        seq!['E']
    } else if b == 180 {
        seq!['S']
    } else if b == 270 {
        seq!['W']
    } else {
        Seq::empty()
    }
}

/// The label drawn at a tick of the given bearing, if any.
pub open spec fn tick_label_of(b: int) -> Option<Seq<char>> {
    match tick_of(b) {
        HeadingTick::Cardinal => Some(cardinal_letter(b)),
        HeadingTick::Major => Some(dec2((b / 10) as nat)),
        _ => None,
    }
}

/// The tick that the heading tape draws at tape degree `d`.
pub fn heading_tick(d: i32) -> (t: HeadingTick)
    ensures
        t == tick_of(bearing_of(d as int)),
{
    let b = normalize_bearing(d);
    if b % 90 == 0 {
        HeadingTick::Cardinal
    } else if b % 30 == 0 {
        HeadingTick::Major
    } else if b % 10 == 0 {
        HeadingTick::Minor
    } else {
        HeadingTick::Blank
    }
}

/// The label that the heading tape writes at tape degree `d`: the compass
/// letter at a cardinal tick, the bearing in tens of degrees, two digits, at
/// a major tick, none elsewhere.
pub fn heading_tick_label(d: i32) -> (r: Option<String>)
    ensures
        match tick_label_of(bearing_of(d as int)) {
            Some(s) => r is Some && r->0@ == s,
            None => r is None,
        },
{
    let b = normalize_bearing(d);
    let t = heading_tick(d);
    match t {
        HeadingTick::Cardinal => {
            proof {
                reveal_strlit("N");
                reveal_strlit("E");
                reveal_strlit("S");
                reveal_strlit("W");
            }
            let letter = if b == 0 {
                "N"
            } else if b == 90 {
                "E"
            } else if b == 180 {
                "S"
            } else {
                "W"
            };
            Some(letter.to_string())
        },
        HeadingTick::Major => {
            let mut s = String::new();
            push_decimal2(&mut s, (b / 10) as u64);
            Some(s)
        },
        _ => None,
    }
}

/// The label of an altitude-tape tick at `v` feet: hundreds of feet from
/// 1000 up, the plain number below.
pub open spec fn altitude_tick_label_of(v: int) -> Seq<char> {
    if v >= 1000 {
        dec((v / 100) as nat)
    } else {
        dec_int(v)
    }
}

/// Labels an altitude-tape tick.
pub fn altitude_tick_label(v: i64) -> (r: String)
    ensures
        r@ == altitude_tick_label_of(v as int),
{
    let mut s = String::new();
    if v >= 1000 {
        push_decimal(&mut s, (v / 100) as u64);
    } else {
        push_decimal_i64(&mut s, v);
    }
    s
}

/// The altitude readout at `ft` feet: a flight level (`F` and hundreds of
/// feet) from 18000 up, the plain number below.
pub open spec fn altitude_readout_of(ft: int) -> Seq<char> {
    if ft >= 18000 {
        seq!['F'] + dec((ft / 100) as nat)
    } else {
        dec_int(ft)
    }
}

/// Renders the altitude readout.
pub fn altitude_readout_label(ft: i32) -> (r: String)
    ensures
        r@ == altitude_readout_of(ft as int),
{
    let mut s = String::new();
    if ft >= 18000 {
        s.append("F");
        proof {
            reveal_strlit("F");
        }
        push_decimal(&mut s, (ft / 100) as u64);
        assert(s@ =~= seq!['F'] + dec((ft / 100) as nat));
    } else {
        push_decimal_i64(&mut s, ft as i64);
    }
    s
}

/// Colour class of the vertical-speed pointer.
#[derive(PartialEq, Eq, Structural, Clone, Copy, Debug)]
pub enum VerticalTrend {
    Climb,
    Descent,
    Level,
}

/// The trend shown for a vertical rate: climbing above 100 ft/min,
/// descending below -100 ft/min, level in between.
pub fn vertical_trend(rate_fpm: i32) -> (t: VerticalTrend)
    ensures
        t == (if rate_fpm > 100 {
            VerticalTrend::Climb
        } else if rate_fpm < -100 {
            VerticalTrend::Descent
        } else {
            VerticalTrend::Level
        }),
{
    if rate_fpm > 100 {
        VerticalTrend::Climb
    } else if rate_fpm < -100 {
        VerticalTrend::Descent
    } else {
        VerticalTrend::Level
    }
}

} // verus!
