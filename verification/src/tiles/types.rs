use vstd::prelude::*;

verus! {

/// Slippy-map zoom level, from 0 (whole world in one tile) to 25.
#[derive(PartialEq, Eq, Structural, Hash, Clone, Copy, Debug)]
pub enum ZoomLevel {
    L0, L1, L2, L3, L4, L5, L6, L7, L8, L9, L10, L11, L12,
    L13, L14, L15, L16, L17, L18, L19, L20, L21, L22, L23, L24, L25,
}

/// The deepest zoom level that has a variant.
pub const MAX_ZOOM_LEVEL: u8 = 25;

impl ZoomLevel {
    /// The numeric zoom of a level.
    pub open spec fn value(self) -> u8 {
        match self {
            ZoomLevel::L0 => 0, ZoomLevel::L1 => 1, ZoomLevel::L2 => 2, ZoomLevel::L3 => 3,
            ZoomLevel::L4 => 4, ZoomLevel::L5 => 5, ZoomLevel::L6 => 6, ZoomLevel::L7 => 7,
            ZoomLevel::L8 => 8, ZoomLevel::L9 => 9, ZoomLevel::L10 => 10, ZoomLevel::L11 => 11,
            ZoomLevel::L12 => 12, ZoomLevel::L13 => 13, ZoomLevel::L14 => 14,
            ZoomLevel::L15 => 15, ZoomLevel::L16 => 16, ZoomLevel::L17 => 17,
            ZoomLevel::L18 => 18, ZoomLevel::L19 => 19, ZoomLevel::L20 => 20,
            ZoomLevel::L21 => 21, ZoomLevel::L22 => 22, ZoomLevel::L23 => 23,
            ZoomLevel::L24 => 24, ZoomLevel::L25 => 25,
        }
    }

    /// The numeric zoom of this level.
    pub fn to_u8(&self) -> (r: u8)
        ensures
            r == self.value(),
            r <= MAX_ZOOM_LEVEL,
    {
        match self {
            ZoomLevel::L0 => 0, ZoomLevel::L1 => 1, ZoomLevel::L2 => 2, ZoomLevel::L3 => 3,
            ZoomLevel::L4 => 4, ZoomLevel::L5 => 5, ZoomLevel::L6 => 6, ZoomLevel::L7 => 7,
            ZoomLevel::L8 => 8, ZoomLevel::L9 => 9, ZoomLevel::L10 => 10, ZoomLevel::L11 => 11,
            ZoomLevel::L12 => 12, ZoomLevel::L13 => 13, ZoomLevel::L14 => 14,
            ZoomLevel::L15 => 15, ZoomLevel::L16 => 16, ZoomLevel::L17 => 17,
            ZoomLevel::L18 => 18, ZoomLevel::L19 => 19, ZoomLevel::L20 => 20,
            ZoomLevel::L21 => 21, ZoomLevel::L22 => 22, ZoomLevel::L23 => 23,
            ZoomLevel::L24 => 24, ZoomLevel::L25 => 25,
        }
    }

    /// The level whose numeric zoom is `v`; `Err(())` when no level has it.
    pub fn try_from(v: u8) -> (r: Result<ZoomLevel, ()>)
        ensures
            match r {
                Ok(z) => v <= MAX_ZOOM_LEVEL && z.value() == v,
                Err(_) => v > MAX_ZOOM_LEVEL,
            },
    {
        match v {
            0 => Ok(ZoomLevel::L0), 1 => Ok(ZoomLevel::L1), 2 => Ok(ZoomLevel::L2),
            3 => Ok(ZoomLevel::L3), 4 => Ok(ZoomLevel::L4), 5 => Ok(ZoomLevel::L5),
            6 => Ok(ZoomLevel::L6), 7 => Ok(ZoomLevel::L7), 8 => Ok(ZoomLevel::L8),
            9 => Ok(ZoomLevel::L9), 10 => Ok(ZoomLevel::L10), 11 => Ok(ZoomLevel::L11),
            12 => Ok(ZoomLevel::L12), 13 => Ok(ZoomLevel::L13), 14 => Ok(ZoomLevel::L14),
            15 => Ok(ZoomLevel::L15), 16 => Ok(ZoomLevel::L16), 17 => Ok(ZoomLevel::L17),
            18 => Ok(ZoomLevel::L18), 19 => Ok(ZoomLevel::L19), 20 => Ok(ZoomLevel::L20),
            21 => Ok(ZoomLevel::L21), 22 => Ok(ZoomLevel::L22), 23 => Ok(ZoomLevel::L23),
            24 => Ok(ZoomLevel::L24), 25 => Ok(ZoomLevel::L25),
            _ => Err(()),
        }
    }
}

/// Converting a level to its number and back gives the same level, and two
/// levels with the same number are the same level.
pub proof fn lemma_zoom_level_roundtrip(z: ZoomLevel, w: ZoomLevel)
    ensures
        z.value() <= MAX_ZOOM_LEVEL,
        z.value() == w.value() ==> z == w,
{
}

/// Tile pixel size variants.
#[derive(PartialEq, Eq, Structural, Hash, Clone, Copy, Debug)]
pub enum TileSize {
    Normal,
    Large,
    VeryLarge,
}

impl TileSize {
    /// Edge length in pixels of a tile of this size.
    pub open spec fn pixels(self) -> u32 {
        match self {
            TileSize::Normal => 256,
            TileSize::Large => 512,
            TileSize::VeryLarge => 768,
        }
    }

    /// The URL postfix that asks a server for this size.
    pub open spec fn postfix(self) -> Seq<char> {
        match self {
            TileSize::Normal => ""@,
            TileSize::Large => "@2x"@,
            TileSize::VeryLarge => "@3x"@,
        }
    }

    /// 768 pixels is very large, 512 large, anything else normal.
    pub fn new(tile_pixels: u32) -> (r: TileSize)
        ensures
            r == (if tile_pixels == 768 {
                TileSize::VeryLarge
            } else if tile_pixels == 512 {
                TileSize::Large
            } else {
                TileSize::Normal
            }),
    {
        match tile_pixels {
            768 => TileSize::VeryLarge,
            512 => TileSize::Large,
            _ => TileSize::Normal,
        }
    }

    pub fn to_pixels(&self) -> (r: u32)
        ensures
            r == self.pixels(),
    {
        match self {
            TileSize::Normal => 256,
            TileSize::Large => 512,
            TileSize::VeryLarge => 768,
        }
    }

    pub fn get_url_postfix(&self) -> (r: String)
        ensures
            r@ == self.postfix(),
    {
        String::from_str(self.url_postfix())
    }

    pub fn url_postfix(&self) -> (r: &'static str)
        ensures
            r@ == self.postfix(),
    {
        match self {
            TileSize::Normal => "",
            TileSize::Large => "@2x",
            TileSize::VeryLarge => "@3x",
        }
    }
}

/// `new` recovers a size from its pixel count.
pub proof fn lemma_tile_size_pixels_roundtrip(s: TileSize)
    ensures
        (if s.pixels() == 768 {
            TileSize::VeryLarge
        } else if s.pixels() == 512 {
            TileSize::Large
        } else {
            TileSize::Normal
        }) == s,
{
}

/// Image format for tile requests and storage.
#[derive(PartialEq, Eq, Structural, Hash, Clone, Copy, Debug)]
pub enum TileFormat {
    Png,
    Jpg,
    Webp,
}

impl Default for TileFormat {
    fn default() -> (r: Self)
        ensures
            r == TileFormat::Png,
    {
        TileFormat::Png
    }
}

impl TileFormat {
    /// File extension of this format.
    pub open spec fn ext(self) -> Seq<char> {
        match self {
            TileFormat::Png => "png"@,
            TileFormat::Jpg => "jpg"@,
            TileFormat::Webp => "webp"@,
        }
    }

    /// MIME type sent in the `Accept` header for this format.
    pub open spec fn mime(self) -> Seq<char> {
        match self {
            TileFormat::Png => "image/png"@,
            TileFormat::Jpg => "image/jpeg"@,
            TileFormat::Webp => "image/webp"@,
        }
    }

    pub fn extension(&self) -> (r: &'static str)
        ensures
            r@ == self.ext(),
    {
        match self {
            TileFormat::Png => "png",
            TileFormat::Jpg => "jpg",
            TileFormat::Webp => "webp",
        }
    }

    pub fn accept_mime(&self) -> (r: &'static str)
        ensures
            r@ == self.mime(),
    {
        match self {
            TileFormat::Png => "image/png",
            TileFormat::Jpg => "image/jpeg",
            TileFormat::Webp => "image/webp",
        }
    }
}

/// Number of tiles away from center to fetch.
#[derive(Debug, Clone, Copy)]
pub struct Radius(pub u8);

/// Unique key identifying a tile download task.
#[derive(PartialEq, Eq, Structural, Hash, Clone, Copy, Debug)]
pub struct TileKey {
    pub x: u32,
    pub y: u32,
    pub zoom: u8,
    pub tile_size: TileSize,
    pub tile_format: TileFormat,
}

/// Download priority for scheduling: near tiles first, elevation last.
#[derive(Debug, Clone, Copy, PartialEq, Eq, Structural, PartialOrd, Ord)]
pub enum DownloadPriority {
    Near,
    Mid,
    Far,
    Elevation,
}

impl DownloadPriority {
    /// Position of the priority in scheduling order (0 is served first).
    pub open spec fn rank(self) -> u8 {
        match self {
            DownloadPriority::Near => 0,
            DownloadPriority::Mid => 1,
            DownloadPriority::Far => 2,
            DownloadPriority::Elevation => 3,
        }
    }

    pub fn to_rank(&self) -> (r: u8)
        ensures
            r == self.rank(),
    {
        match self {
            DownloadPriority::Near => 0,
            DownloadPriority::Mid => 1,
            DownloadPriority::Far => 2,
            DownloadPriority::Elevation => 3,
        }
    }
}

pub enum UseCache {
    Yes,
    No,
}

impl UseCache {
    pub fn new(value: bool) -> (r: UseCache)
        ensures
            r is Yes <==> value,
    {
        match value {
            true => UseCache::Yes,
            _ => UseCache::No,
        }
    }
}

pub enum AlreadyDownloaded {
    Yes,
    No,
}

impl AlreadyDownloaded {
    pub fn new(value: bool) -> (r: AlreadyDownloaded)
        ensures
            r is Yes <==> value,
    {
        match value {
            true => AlreadyDownloaded::Yes,
            _ => AlreadyDownloaded::No,
        }
    }
}

pub enum FileExists {
    Yes,
    No,
}

impl FileExists {
    pub fn new(value: bool) -> (r: FileExists)
        ensures
            r is Yes <==> value,
    {
        match value {
            true => FileExists::Yes,
            _ => FileExists::No,
        }
    }
}

#[derive(Debug)]
pub enum DownloadStatus {
    Downloading,
    Downloaded,
}

} // verus!
