//! Elevation tile sources: their tile URLs, names and formats, the cache file
//! name of a decoded heightmap, and the size check of a cached heightmap.
//! Decoding pixel colors into heights is floating point and stays outside.

use vstd::prelude::*;

use crate::text::{dec, push_decimal};
use super::types::TileFormat;

verus! {

/// Mapbox Terrain-RGB v1 elevation tiles.
pub struct MapboxTerrainRgb {
    pub access_token: String,
}

/// Terrarium (AWS/Mapzen) elevation tiles.
pub struct TerrariumDecoder {
    pub base_url: String,
}

/// `{zoom}/{x}/{y}` as it appears in elevation tile URLs.
pub open spec fn zxy(x: u32, y: u32, zoom: u8) -> Seq<char> {
    dec(zoom as nat) + "/"@ + dec(x as nat) + "/"@ + dec(y as nat)
}

fn push_zxy(s: &mut String, x: u32, y: u32, zoom: u8)
    ensures
        final(s)@ == old(s)@ + zxy(x, y, zoom),
{
    let ghost s0 = s@;
    push_decimal(s, zoom as u64);
    s.append("/");
    push_decimal(s, x as u64);
    s.append("/");
    push_decimal(s, y as u64);
    assert(s@ =~= s0 + zxy(x, y, zoom));
}

impl MapboxTerrainRgb {
    pub fn tile_url(&self, x: u32, y: u32, zoom: u8) -> (r: String)
        ensures
            r@ == "https://api.mapbox.com/v4/mapbox.terrain-rgb/"@ + zxy(x, y, zoom)
                + ".pngraw?access_token="@ + self.access_token@,
    {
        let mut s = String::from_str("https://api.mapbox.com/v4/mapbox.terrain-rgb/");
        push_zxy(&mut s, x, y, zoom);
        s.append(".pngraw?access_token=");
        s.append(self.access_token.as_str());
        s
    }

    pub fn tile_format(&self) -> (r: TileFormat)
        ensures
            r == TileFormat::Png,
    {
        TileFormat::Png
    }

    pub fn name(&self) -> (r: &'static str)
        ensures
            r@ == "mapbox-terrain-rgb"@,
    {
        "mapbox-terrain-rgb"
    }
}

impl Default for TerrariumDecoder {
    fn default() -> (r: Self)
        ensures
            r.base_url@ == "https://s3.amazonaws.com/elevation-tiles-prod/terrarium"@,
    {
        TerrariumDecoder {
            base_url: String::from_str("https://s3.amazonaws.com/elevation-tiles-prod/terrarium"),
        }
    }
}

impl TerrariumDecoder {
    pub fn tile_url(&self, x: u32, y: u32, zoom: u8) -> (r: String)
        ensures
            r@ == self.base_url@ + "/"@ + zxy(x, y, zoom) + ".png"@,
    {
        let mut s = self.base_url.clone();
        s.append("/");
        push_zxy(&mut s, x, y, zoom);
        s.append(".png");
        s
    }

    pub fn tile_format(&self) -> (r: TileFormat)
        ensures
            r == TileFormat::Png,
    {
        TileFormat::Png
    }

    pub fn name(&self) -> (r: &'static str)
        ensures
            r@ == "terrarium"@,
    {
        "terrarium"
    }
}

/// Key of an elevation tile.
#[derive(PartialEq, Eq, Structural, Hash, Clone, Copy, Debug)]
pub struct ElevationTileKey {
    pub x: u32,
    pub y: u32,
    pub zoom: u8,
}

/// The cache file name of a decoded heightmap: `{zoom}.{x}.{y}.heightmap.raw`.
pub fn heightmap_cache_file_name(key: &ElevationTileKey) -> (r: String)
    ensures
        r@ == dec(key.zoom as nat) + "."@ + dec(key.x as nat) + "."@ + dec(key.y as nat)
            + ".heightmap.raw"@,
{
    let mut s = String::new();
    push_decimal(&mut s, key.zoom as u64);
    s.append(".");
    push_decimal(&mut s, key.x as u64);
    s.append(".");
    push_decimal(&mut s, key.y as u64);
    s.append(".heightmap.raw");
    s
}

/// A cached heightmap file is usable only when it holds exactly one 4-byte
/// height per sample.
pub fn heightmap_file_size_matches(file_len: usize, width: u32, height: u32) -> (r: bool)
    requires
        width * height * 4 <= u32::MAX,
    ensures
        r == (file_len == width * height * 4),
{
    let expected = (width * height * 4) as usize;
    file_len == expected
}

} // verus!
