//! Integer slippy-map tile coordinates: wrapping across the antimeridian and
//! the square of tiles around a center tile.

use vstd::arithmetic::div_mod::lemma_fundamental_div_mod_converse;
use vstd::arithmetic::power2::pow2;
use vstd::prelude::*;

use super::types::{Radius, ZoomLevel};

verus! {

/// Slippy map tile coordinates.
#[derive(Debug, Clone, Copy, Hash, PartialEq, Eq, Structural)]
pub struct SlippyTileCoordinates {
    pub x: u32,
    pub y: u32,
}

/// Tile column `x` wrapped onto the `2^zoom` columns of the world (and, as the
/// cast to `u32` does, cut to its low 32 bits).
pub open spec fn wrapped_x(x: int, zoom: nat) -> u32 {
    (x % (pow2(zoom) as int)) as u32
}

/// Wrap tile X coordinate to handle antimeridian crossing. (At zoom 63 the
/// world's width no longer fits an `i64` for negative columns.)
pub fn wrap_tile_x(x: i64, zoom: u8) -> (r: u32)
    requires
        zoom <= 63,
        zoom == 63 ==> x >= 0,
    ensures
        r == wrapped_x(x as int, zoom as nat),
{
    proof {
        vstd::bits::lemma_u64_pow2_no_overflow(zoom as nat);
        vstd::arithmetic::power2::lemma2_to64();
        if zoom < 63 {
            vstd::arithmetic::power2::lemma_pow2_strictly_increases(zoom as nat, 63);
        }
        vstd::bits::lemma_u64_shl_is_mul(1u64, zoom as u64);
    }
    let max: u64 = 1u64 << (zoom as u64);
    assert(max as int == pow2(zoom as nat));
    let m: u64 = if x >= 0 {
        (x as u64) % max
    } else {
        let y: u64 = (-(x + 1)) as u64;
        let ry = y % max;
        proof {
            let q = (y as int) / (max as int);
            assert(y as int == q * (max as int) + (ry as int)) by (nonlinear_arith)
                requires
                    max > 0,
                    q == (y as int) / (max as int),
                    ry as int == (y as int) % (max as int),
            ;
            assert(x as int == (-q - 1) * (max as int) + ((max - 1 - ry) as int)) by (nonlinear_arith)
                requires
                    y as int == q * (max as int) + (ry as int),
                    y as int == -(x as int) - 1,
            ;
            lemma_fundamental_div_mod_converse(x as int, max as int, -q - 1, (max - 1 - ry) as int);
        }
        max - 1 - ry
    };
    m as u32
}

/// Wrapping always lands on one of the `2^zoom` columns of the world, leaves
/// a column that is already on the map unchanged, and is periodic: a column
/// one world-width further east wraps to the same column.
pub proof fn lemma_wrap_tile_x(x: int, zoom: nat)
    requires
        zoom <= 32,
    ensures
        wrapped_x(x, zoom) as int == x % (pow2(zoom) as int),
        (wrapped_x(x, zoom) as int) < pow2(zoom),
        0 <= x < pow2(zoom) ==> wrapped_x(x, zoom) as int == x,
        wrapped_x(x + pow2(zoom), zoom) == wrapped_x(x, zoom),
{
    let m = pow2(zoom) as int;
    vstd::arithmetic::power2::lemma_pow2_pos(zoom);
    vstd::arithmetic::power2::lemma2_to64();
    if zoom < 32 {
        vstd::arithmetic::power2::lemma_pow2_strictly_increases(zoom, 32);
    }
    assert(m <= 0x1_0000_0000);
    vstd::arithmetic::div_mod::lemma_mod_bound(x, m);
    if 0 <= x < m {
        vstd::arithmetic::div_mod::lemma_small_mod(x as nat, m as nat);
    }
    vstd::arithmetic::div_mod::lemma_mod_add_multiples_vanish(x, m);
    assert(x + m == m + x);
}

/// The tile `(x, y)` offset by `(dx, dy)` from `(cx, cy)`, or nothing when the
/// row falls off the map; columns wrap around the antimeridian.
pub open spec fn offset_tile(cx: u32, cy: u32, zoom: nat, dx: int, dy: int) -> Option<SlippyTileCoordinates> {
    let y = cy + dy;
    if 0 <= y < pow2(zoom) {
        Some(SlippyTileCoordinates { x: wrapped_x(cx + dx, zoom), y: y as u32 })
    } else {
        None
    }
}

/// The first `n` tiles of column `i` (offset `i - r`) of the square of radius
/// `r`, top to bottom, skipping rows off the map.
pub open spec fn column(cx: u32, cy: u32, zoom: nat, r: int, i: int, n: nat) -> Seq<SlippyTileCoordinates>
    decreases n,
{
    if n == 0 {
        Seq::empty()
    } else {
        let prev = column(cx, cy, zoom, r, i, (n - 1) as nat);
        match offset_tile(cx, cy, zoom, i - r, n - 1 - r) {
            Some(t) => prev.push(t),
            None => prev,
        }
    }
}

/// The first `m` columns of the square of radius `r`, left to right.
pub open spec fn square(cx: u32, cy: u32, zoom: nat, r: int, m: nat) -> Seq<SlippyTileCoordinates>
    decreases m,
{
    if m == 0 {
        Seq::empty()
    } else {
        square(cx, cy, zoom, r, (m - 1) as nat) + column(cx, cy, zoom, r, m - 1, (2 * r + 1) as nat)
    }
}

/// All tiles within `radius` of `center` (a square of side `2 * radius + 1`),
/// column by column from the west, each column from the north; rows above or
/// below the map are left out and columns wrap around the antimeridian.
pub open spec fn tiles_around_spec(center: SlippyTileCoordinates, zoom: ZoomLevel, radius: u8) -> Seq<SlippyTileCoordinates> {
    square(center.x, center.y, zoom.value() as nat, radius as int, (2 * radius + 1) as nat)
}

/// The tiles a download request around `center` covers, in request order.
pub fn tiles_around(center: SlippyTileCoordinates, zoom: ZoomLevel, radius: Radius) -> (r: Vec<SlippyTileCoordinates>)
    ensures
        r@ == tiles_around_spec(center, zoom, radius.0),
{
    let z = zoom.to_u8();
    let rad = radius.0 as i64;
    proof {
        vstd::bits::lemma_u64_pow2_no_overflow(z as nat);
        vstd::arithmetic::power2::lemma2_to64();
        vstd::bits::lemma_u64_shl_is_mul(1u64, z as u64);
    }
    let max_tile: i64 = (1u64 << (z as u64)) as i64;
    assert(max_tile as int == pow2(z as nat));
    let ghost zn = z as nat;
    let ghost ri = rad as int;
    let mut out: Vec<SlippyTileCoordinates> = Vec::new();
    let mut dx: i64 = -rad;
    while dx <= rad
        invariant
            -ri <= dx <= ri + 1,
            ri == radius.0 as int,
            rad == ri,
            zn == zoom.value() as nat,
            z == zoom.value(),
            max_tile as int == pow2(zn),
            out@ == square(center.x, center.y, zn, ri, (dx + ri) as nat),
        decreases ri + 1 - dx,
    {
        let ghost i = dx + ri;
        let mut dy: i64 = -rad;
        while dy <= rad
            invariant
                -ri <= dy <= ri + 1,
                -ri <= dx <= ri,
                i == dx + ri,
                ri == radius.0 as int,
                rad == ri,
                zn == zoom.value() as nat,
                z == zoom.value(),
                max_tile as int == pow2(zn),
                out@ == square(center.x, center.y, zn, ri, i as nat) + column(
                    center.x,
                    center.y,
                    zn,
                    ri,
                    i,
                    (dy + ri) as nat,
                ),
            decreases ri + 1 - dy,
        {
            let raw_x = center.x as i64 + dx;
            let y = center.y as i64 + dy;
            let ghost before = out@;
            if !(y < 0 || y >= max_tile) {
                let x = wrap_tile_x(raw_x, z);
                out.push(SlippyTileCoordinates { x, y: y as u32 });
            }
            proof {
                let n = (dy + ri + 1) as nat;
                assert(column(center.x, center.y, zn, ri, i, n) == match offset_tile(
                    center.x,
                    center.y,
                    zn,
                    i - ri,
                    n - 1 - ri,
                ) {
                    Some(t) => column(center.x, center.y, zn, ri, i, (n - 1) as nat).push(t),
                    None => column(center.x, center.y, zn, ri, i, (n - 1) as nat),
                });
                assert(out@ =~= square(center.x, center.y, zn, ri, i as nat) + column(
                    center.x,
                    center.y,
                    zn,
                    ri,
                    i,
                    n,
                ));
            }
            dy = dy + 1;
        }
        proof {
            assert(square(center.x, center.y, zn, ri, (i + 1) as nat) == square(
                center.x,
                center.y,
                zn,
                ri,
                i as nat,
            ) + column(center.x, center.y, zn, ri, i, (2 * ri + 1) as nat));
        }
        dx = dx + 1;
    }
    out
}

} // verus!
