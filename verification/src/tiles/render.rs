//! Integer parts of tile display: recovering a tile key from a cached file
//! name, the tile entity budget, the zoom bands of the 3D view, and the
//! pixels of the grid overlay texture.

use vstd::arithmetic::div_mod::lemma_fundamental_div_mod_converse;
use vstd::prelude::*;

use crate::text::{
    chars_of, dec, lacks, lemma_dec_lacks, lemma_lacks_concat, lemma_parse_dec, lemma_split_on_nonempty,
    lemma_split_on_piece, lemma_split_on_prefix, lemma_split_on_single, parse_unsigned,
    parse_unsigned_chars, split_chars, split_on, views,
};
use super::download::cache_file_name_spec;
use super::types::{TileFormat, TileKey, TileSize};
use super::pool::{grid_lookup, TileGrid, TileGridKey};

verus! {

/// The last `/`-separated piece of a path: its file name.
pub open spec fn file_name_of(path: Seq<char>) -> Seq<char> {
    split_on(path, '/').last()
}

/// The grid key named by a cached tile file `.../{zoom}.{x}.{y}.{size}.tile.{ext}`:
/// the second and third `.`-separated pieces of the file name read as `u32`,
/// with the given zoom; nothing when the name has fewer than three pieces or
/// they are not numbers.
pub open spec fn tile_key_from_path(path: Seq<char>, zoom: u8) -> Option<TileGridKey> {
    let parts = split_on(file_name_of(path), '.');
    if parts.len() >= 3 {
        match (parse_unsigned(parts[1], u32::MAX as nat), parse_unsigned(parts[2], u32::MAX as nat)) {
            (Some(x), Some(y)) => Some((x as u32, y as u32, zoom)),
            _ => None,
        }
    } else {
        None
    }
}

/// Parse tile coordinates from a tile filename for TileGrid key lookup.
pub fn parse_tile_key_from_path(path: &str, zoom: u8) -> (r: Option<TileGridKey>)
    ensures
        r == tile_key_from_path(path@, zoom),
{
    let chars = chars_of(path);
    let pieces = split_chars(&chars, '/');
    proof {
        lemma_split_on_nonempty(path@, '/');
        assert(views(pieces@).len() == pieces@.len());
    }
    let last = pieces.len() - 1;
    let file = &pieces[last];
    assert(file@ == file_name_of(path@));
    let parts = split_chars(file, '.');
    proof {
        assert(views(parts@).len() == parts@.len());
    }
    if parts.len() >= 3 {
        assert(parts@[1]@ == split_on(file_name_of(path@), '.')[1]);
        assert(parts@[2]@ == split_on(file_name_of(path@), '.')[2]);
        let x = parse_unsigned_chars(&parts[1], u32::MAX);
        let y = parse_unsigned_chars(&parts[2], u32::MAX);
        match (x, y) {
            (Some(x), Some(y)) => Some((x, y, zoom)),
            _ => None,
        }
    } else {
        None
    }
}

/// The grid key read back from the path of a cached tile, in any cache
/// directory, holds the tile's own column and row.
pub proof fn lemma_tile_key_from_cache_path(dir: Seq<char>, key: TileKey, zoom: u8)
    ensures
        tile_key_from_path(dir + "/"@ + cache_file_name_spec(key), zoom) == Some((key.x, key.y, zoom)),
{
    reveal_strlit("/");
    reveal_strlit(".");
    reveal_strlit(".tile.");
    reveal_strlit("png");
    reveal_strlit("jpg");
    reveal_strlit("webp");
    let name = cache_file_name_spec(key);
    let dz = dec(key.zoom as nat);
    let dx = dec(key.x as nat);
    let dy = dec(key.y as nat);
    let dp = dec(key.tile_size.pixels() as nat);
    let ext = key.tile_format.ext();
    let tail = dp + ".tile."@ + ext;
    let a1 = dz.push('.') + dx;
    let a2 = a1.push('.') + dy;
    let a3 = a2.push('.');
    assert(name =~= a3 + tail);

    // The file name is the last `/`-separated piece of the path.
    lemma_dec_lacks(key.zoom as nat, '/');
    lemma_dec_lacks(key.x as nat, '/');
    lemma_dec_lacks(key.y as nat, '/');
    lemma_dec_lacks(key.tile_size.pixels() as nat, '/');
    assert(lacks(seq!['.'], '/'));
    assert(lacks(".tile."@, '/'));
    assert(lacks(ext, '/')) by {
        match key.tile_format {
            TileFormat::Png => {},
            TileFormat::Jpg => {},
            TileFormat::Webp => {},
        }
    }
    lemma_lacks_concat(dz, seq!['.'], '/');
    assert(dz + seq!['.'] =~= dz.push('.'));
    lemma_lacks_concat(dz.push('.'), dx, '/');
    lemma_lacks_concat(a1, seq!['.'], '/');
    assert(a1 + seq!['.'] =~= a1.push('.'));
    lemma_lacks_concat(a1.push('.'), dy, '/');
    lemma_lacks_concat(a2, seq!['.'], '/');
    assert(a2 + seq!['.'] =~= a3);
    lemma_lacks_concat(dp, ".tile."@, '/');
    lemma_lacks_concat(dp + ".tile."@, ext, '/');
    lemma_lacks_concat(a3, tail, '/');
    let path = dir + "/"@ + name;
    assert(path =~= dir.push('/') + name);
    lemma_split_on_piece(dir, name, '/');
    assert(file_name_of(path) == name);

    // Its second and third `.`-separated pieces are the column and row.
    lemma_dec_lacks(key.zoom as nat, '.');
    lemma_dec_lacks(key.x as nat, '.');
    lemma_dec_lacks(key.y as nat, '.');
    lemma_split_on_single(dz, '.');
    lemma_split_on_piece(dz, dx, '.');
    lemma_split_on_piece(a1, dy, '.');
    assert(a3.drop_last() =~= a2);
    assert(split_on(a3, '.') == split_on(a2, '.').push(Seq::empty()));
    assert(split_on(a3, '.') =~= seq![dz, dx, dy, Seq::empty()]);
    lemma_split_on_prefix(a3, tail, '.');
    let parts = split_on(name, '.');
    assert(parts.len() >= 4);
    assert(parts[1] == dx);
    assert(parts[2] == dy);
    lemma_parse_dec(key.x as nat, u32::MAX as nat);
    lemma_parse_dec(key.y as nat, u32::MAX as nat);
}

/// What the visible-tile loader does with one tile of a band.
#[derive(Debug, Clone, Copy, PartialEq, Eq, Structural)]
pub enum VisibleTileAction {
    /// A tile already shows that cell.
    AlreadyShown,
    /// Not cached: ask for the downloads of this zoom's band (once per zoom
    /// and frame).
    RequestBand,
    /// Not cached, and this zoom's band was already asked for this frame.
    AwaitDownload,
    /// Cached: show it with a pooled entity.
    Show,
}

/// Decides what to do with a tile of a visible band.
pub fn visible_tile_action(occupied: bool, cached: bool, zoom_requested: bool) -> (r: VisibleTileAction)
    ensures
        r == (if occupied {
            VisibleTileAction::AlreadyShown
        } else if !cached {
            if zoom_requested {
                VisibleTileAction::AwaitDownload
            } else {
                VisibleTileAction::RequestBand
            }
        } else {
            VisibleTileAction::Show
        }),
{
    if occupied {
        VisibleTileAction::AlreadyShown
    } else if !cached {
        if zoom_requested {
            VisibleTileAction::AwaitDownload
        } else {
            VisibleTileAction::RequestBand
        }
    } else {
        VisibleTileAction::Show
    }
}

/// Whether no tile shows the cell `c`.
pub open spec fn cell_free(entries: Seq<(TileGridKey, u64)>, c: TileGridKey) -> bool {
    grid_lookup(entries, c) is None
}

/// The visible-tile plan for the first `n` cells, in order: the zooms whose
/// bands to request (each once, for the first free cell of that zoom that is
/// not cached) and the cells to show (each free cached cell once, at its
/// first occurrence).
pub open spec fn visible_plan(
    cells: Seq<TileGridKey>,
    entries: Seq<(TileGridKey, u64)>,
    cached: Seq<TileGridKey>,
    n: nat,
) -> (Seq<u8>, Seq<TileGridKey>)
    decreases n,
{
    if n == 0 || n > cells.len() {
        (Seq::empty(), Seq::empty())
    } else {
        let prev = visible_plan(cells, entries, cached, (n - 1) as nat);
        let c = cells[n - 1];
        if !cell_free(entries, c) || prev.1.contains(c) {
            prev
        } else if !cached.contains(c) {
            if prev.0.contains(c.2) {
                prev
            } else {
                (prev.0.push(c.2), prev.1)
            }
        } else {
            (prev.0, prev.1.push(c))
        }
    }
}

/// The requested zooms and shown cells of a plan are each listed once; a
/// zoom is requested exactly when some free cell of that zoom is not
/// cached; a cell is shown exactly when it is among the cells, free and
/// cached.
pub proof fn lemma_visible_plan_properties(
    cells: Seq<TileGridKey>,
    entries: Seq<(TileGridKey, u64)>,
    cached: Seq<TileGridKey>,
    n: nat,
)
    requires
        n <= cells.len(),
    ensures
        visible_plan(cells, entries, cached, n).0.no_duplicates(),
        visible_plan(cells, entries, cached, n).1.no_duplicates(),
        forall|z: u8|
            #[trigger] visible_plan(cells, entries, cached, n).0.contains(z) <==> exists|i: int|
                0 <= i < n && cell_free(entries, cells[i]) && !cached.contains(cells[i]) && cells[i].2 == z,
        forall|c: TileGridKey|
            #[trigger] visible_plan(cells, entries, cached, n).1.contains(c) <==> (cells.take(n as int).contains(c)
                && cell_free(entries, c) && cached.contains(c)),
    decreases n,
{
    if n > 0 {
        let m = (n - 1) as nat;
        lemma_visible_plan_properties(cells, entries, cached, m);
        let prev = visible_plan(cells, entries, cached, m);
        let cur = visible_plan(cells, entries, cached, n);
        let c = cells[m as int];
        assert(cells.take(n as int) =~= cells.take(m as int).push(c));
        assert forall|z: u8| cur.0.contains(z) <==> exists|i: int|
            0 <= i < n && cell_free(entries, cells[i]) && !cached.contains(cells[i]) && cells[i].2 == z by {
            if cur.0.contains(z) {
                if !prev.0.contains(z) {
                    assert(cur.0 == prev.0.push(c.2));
                    let k = choose|k: int| 0 <= k < cur.0.len() && cur.0[k] == z;
                    assert(k == prev.0.len());
                    assert(cells[m as int] == c);
                } else {
                    let i = choose|i: int|
                        0 <= i < m && cell_free(entries, cells[i]) && !cached.contains(cells[i]) && cells[i].2 == z;
                    assert(0 <= i < n);
                }
            }
            if exists|i: int|
                0 <= i < n && cell_free(entries, cells[i]) && !cached.contains(cells[i]) && cells[i].2 == z {
                let i = choose|i: int|
                    0 <= i < n && cell_free(entries, cells[i]) && !cached.contains(cells[i]) && cells[i].2 == z;
                if i < m {
                    assert(prev.0.contains(z));
                    assert(cur.0 == prev.0 || cur.0 == prev.0.push(c.2));
                    if cur.0 == prev.0.push(c.2) {
                        let k = choose|k: int| 0 <= k < prev.0.len() && prev.0[k] == z;
                        assert(cur.0[k] == z);
                    }
                } else {
                    assert(i == m);
                    if !prev.1.contains(c) {
                        if prev.0.contains(c.2) {
                        } else {
                            assert(cur.0[prev.0.len() as int] == z);
                        }
                    } else {
                        assert(cached.contains(c));
                    }
                }
            }
        }
        assert forall|x: TileGridKey| cur.1.contains(x) <==> (cells.take(n as int).contains(x)
            && cell_free(entries, x) && cached.contains(x)) by {
            if cur.1.contains(x) && !prev.1.contains(x) {
                assert(cur.1 == prev.1.push(c));
                let k = choose|k: int| 0 <= k < cur.1.len() && cur.1[k] == x;
                assert(k == prev.1.len());
                assert(cells.take(n as int)[m as int] == c);
            }
            if prev.1.contains(x) {
                assert(cur.1 == prev.1 || cur.1 == prev.1.push(c));
                let k = choose|k: int| 0 <= k < prev.1.len() && prev.1[k] == x;
                assert(cur.1[k] == x);
                let j = choose|j: int| 0 <= j < cells.take(m as int).len() && cells.take(m as int)[j] == x;
                assert(cells.take(n as int)[j] == x);
            }
            if cells.take(n as int).contains(x) && cell_free(entries, x) && cached.contains(x) && !prev.1.contains(x) {
                let j = choose|j: int| 0 <= j < cells.take(n as int).len() && cells.take(n as int)[j] == x;
                if j < m {
                    assert(cells.take(m as int)[j] == x);
                    assert(cells.take(m as int).contains(x));
                } else {
                    assert(x == c);
                    assert(cur.1[prev.1.len() as int] == x);
                }
            }
        }
        if cur.0 == prev.0.push(c.2) {
            assert forall|i: int, j: int| 0 <= i < cur.0.len() && 0 <= j < cur.0.len() && i != j implies cur.0[i]
                != cur.0[j] by {
                if i == prev.0.len() {
                    assert(prev.0.contains(cur.0[j]) || j == i);
                } else if j == prev.0.len() {
                    assert(prev.0.contains(cur.0[i]));
                }
            }
        }
        if cur.1 == prev.1.push(c) && !prev.1.contains(c) {
            assert forall|i: int, j: int| 0 <= i < cur.1.len() && 0 <= j < cur.1.len() && i != j implies cur.1[i]
                != cur.1[j] by {
                if i == prev.1.len() {
                    assert(prev.1.contains(cur.1[j]));
                } else if j == prev.1.len() {
                    assert(prev.1.contains(cur.1[i]));
                }
            }
        }
    }
}

fn holds_zoom(v: &Vec<u8>, z: u8) -> (r: bool)
    ensures
        r == v@.contains(z),
{
    let mut i: usize = 0;
    while i < v.len()
        invariant
            i <= v@.len(),
            forall|j: int| 0 <= j < i ==> v@[j] != z,
        decreases v@.len() - i,
    {
        if v[i] == z {
            return true;
        }
        i = i + 1;
    }
    false
}

fn holds_cell(v: &Vec<TileGridKey>, c: TileGridKey) -> (r: bool)
    ensures
        r == v@.contains(c),
{
    let mut i: usize = 0;
    while i < v.len()
        invariant
            i <= v@.len(),
            forall|j: int| 0 <= j < i ==> v@[j] != c,
        decreases v@.len() - i,
    {
        let k = v[i];
        if k.0 == c.0 && k.1 == c.1 && k.2 == c.2 {
            return true;
        }
        i = i + 1;
    }
    false
}

/// Plans the visible tiles of a frame: for the candidate `cells` of all
/// bands, in order, skips those a tile already shows; of the others, shows
/// each cached one once, and asks once per zoom for the downloads of a band
/// that has an uncached cell. Returns the zooms to request and the cells to
/// show.
pub fn plan_visible_tiles(cells: &Vec<TileGridKey>, grid: &TileGrid, cached: &Vec<TileGridKey>) -> (plan: (
    Vec<u8>,
    Vec<TileGridKey>,
))
    ensures
        (plan.0@, plan.1@) == visible_plan(cells@, grid.entries(), cached@, cells@.len()),
        plan.0@.no_duplicates(),
        plan.1@.no_duplicates(),
        forall|z: u8|
            #[trigger] plan.0@.contains(z) <==> exists|i: int|
                0 <= i < cells@.len() && cell_free(grid.entries(), cells@[i]) && !cached@.contains(cells@[i])
                    && cells@[i].2 == z,
        forall|c: TileGridKey|
            #[trigger] plan.1@.contains(c) <==> (cells@.contains(c) && cell_free(grid.entries(), c)
                && cached@.contains(c)),
{
    let mut zooms: Vec<u8> = Vec::new();
    let mut shown: Vec<TileGridKey> = Vec::new();
    let mut i: usize = 0;
    while i < cells.len()
        invariant
            i <= cells@.len(),
            (zooms@, shown@) == visible_plan(cells@, grid.entries(), cached@, i as nat),
        decreases cells@.len() - i,
    {
        let c = cells[i];
        if grid.contains_key(c) || holds_cell(&shown, c) {
        } else if !holds_cell(cached, c) {
            if !holds_zoom(&zooms, c.2) {
                zooms.push(c.2);
            }
        } else {
            shown.push(c);
        }
        i = i + 1;
    }
    proof {
        lemma_visible_plan_properties(cells@, grid.entries(), cached@, cells@.len());
        assert(cells@.take(cells@.len() as int) =~= cells@);
    }
    (zooms, shown)
}

/// The fourth `.`-separated piece of a tile's cache file name reads back as
/// the pixel size of the tile (256 normal, 512 large, 768 very large), so
/// two tiles that differ only in size are cached under different names.
pub proof fn lemma_cache_file_name_pixels(key: TileKey, other: TileKey)
    ensures
        split_on(cache_file_name_spec(key), '.').len() >= 5,
        parse_unsigned(split_on(cache_file_name_spec(key), '.')[3], u32::MAX as nat) == Some(
            (match key.tile_size {
                TileSize::Normal => 256nat,
                TileSize::Large => 512nat,
                TileSize::VeryLarge => 768nat,
            }),
        ),
        other.tile_size != key.tile_size ==> cache_file_name_spec(other) != cache_file_name_spec(key),
{
    lemma_pixels_piece(key);
    lemma_pixels_piece(other);
}

proof fn lemma_pixels_piece(key: TileKey)
    ensures
        split_on(cache_file_name_spec(key), '.').len() >= 5,
        parse_unsigned(split_on(cache_file_name_spec(key), '.')[3], u32::MAX as nat) == Some(
            key.tile_size.pixels() as nat,
        ),
        key.tile_size.pixels() == (match key.tile_size {
            TileSize::Normal => 256u32,
            TileSize::Large => 512u32,
            TileSize::VeryLarge => 768u32,
        }),
{
    reveal_strlit(".");
    reveal_strlit(".tile.");
    let name = cache_file_name_spec(key);
    let dz = dec(key.zoom as nat);
    let dx = dec(key.x as nat);
    let dy = dec(key.y as nat);
    let dp = dec(key.tile_size.pixels() as nat);
    let rest = seq!['t', 'i', 'l', 'e', '.'] + key.tile_format.ext();
    let a1 = dz.push('.') + dx;
    let a2 = a1.push('.') + dy;
    let a3 = a2.push('.') + dp;
    let a4 = a3.push('.');
    assert(".tile."@ =~= seq!['.'] + seq!['t', 'i', 'l', 'e', '.']);
    assert(name =~= a4 + rest);
    lemma_dec_lacks(key.zoom as nat, '.');
    lemma_dec_lacks(key.x as nat, '.');
    lemma_dec_lacks(key.y as nat, '.');
    lemma_dec_lacks(key.tile_size.pixels() as nat, '.');
    lemma_split_on_single(dz, '.');
    lemma_split_on_piece(dz, dx, '.');
    lemma_split_on_piece(a1, dy, '.');
    lemma_split_on_piece(a2, dp, '.');
    assert(a4.drop_last() =~= a3);
    assert(split_on(a4, '.') == split_on(a3, '.').push(Seq::empty()));
    assert(split_on(a4, '.') =~= seq![dz, dx, dy, dp, Seq::empty()]);
    lemma_split_on_prefix(a4, rest, '.');
    lemma_parse_dec(key.tile_size.pixels() as nat, u32::MAX as nat);
}

/// Maximum number of tile entities allowed at any time: 5000 in the 3D view,
/// whose multi-resolution bands need 800-1200 tiles at steady state, and 500
/// in the 2D map.
pub fn max_tile_entities(is_3d: bool) -> (r: usize)
    ensures
        r == (if is_3d { 5000usize } else { 500usize }),
{
    if is_3d {
        5000
    } else {
        500
    }
}

/// Minimum zoom level used for the coarsest horizon tiles.
pub const MIN_SSE_ZOOM: u8 = 4;

/// The lowest zoom of the 3D bands: five below the current zoom, but not
/// below `MIN_SSE_ZOOM`.
pub open spec fn lowest_band_zoom(current: u8) -> u8 {
    let lowered = if current >= 5 { (current - 5) as u8 } else { 0u8 };
    if lowered >= MIN_SSE_ZOOM { lowered } else { MIN_SSE_ZOOM }
}

/// The zooms of the 3D tile bands, finest first: from the current zoom down
/// to `lowest_band_zoom`; none when the current zoom is below that.
pub fn sse_band_zooms(current: u8) -> (r: Vec<u8>)
    ensures
        r@.len() == (if current >= lowest_band_zoom(current) {
            (current - lowest_band_zoom(current) + 1) as nat
        } else {
            0nat
        }),
        forall|i: int| 0 <= i < r@.len() ==> r@[i] == current - i,
{
    let lowered = if current >= 5 { current - 5 } else { 0 };
    let min_zoom = if lowered >= MIN_SSE_ZOOM { lowered } else { MIN_SSE_ZOOM };
    let mut out: Vec<u8> = Vec::new();
    if current < min_zoom {
        return out;
    }
    let mut z: u8 = current;
    loop
        invariant_except_break
            out@.len() == current - z,
        invariant
            min_zoom <= z <= current,
            min_zoom == lowest_band_zoom(current),
            forall|i: int| 0 <= i < out@.len() ==> out@[i] == current - i,
        ensures
            out@.len() == current - min_zoom + 1,
        decreases z,
    {
        out.push(z);
        if z == min_zoom {
            break;
        }
        z = z - 1;
    }
    out
}

/// Edge length of the grid overlay texture, in pixels.
pub const GRID_OVERLAY_SIZE: u32 = 512;

/// Inner grid lines per edge of the grid overlay texture.
pub const GRID_OVERLAY_SUBDIVISIONS: u32 = 4;

/// Color of pixel `(x, y)` of the grid overlay, as RGBA: the outer border
/// (two pixels on the top and left edges, one on the others) in a light line
/// color, the inner grid lines every `cell` pixels in a subtler one, and a
/// dark charcoal background elsewhere.
pub open spec fn overlay_color(size: int, cell: int, x: int, y: int) -> Seq<u8> {
    let on_border = x == 0 || x == size - 1 || y == 0 || y == size - 1 || x == 1 || y == 1;
    let on_minor = x % cell == 0 || y % cell == 0;
    if on_border {
        seq![100u8, 110u8, 130u8, 255u8]
    } else if on_minor {
        seq![70u8, 78u8, 90u8, 255u8]
    } else {
        seq![40u8, 44u8, 52u8, 255u8]
    }
}

/// Byte `i` of the overlay texture, stored row by row, four bytes per pixel.
pub open spec fn overlay_byte(size: int, cell: int, i: int) -> u8 {
    overlay_color(size, cell, (i / 4) % size, (i / 4) / size)[i % 4]
}

/// The RGBA pixels of the grid overlay texture of `size` x `size` pixels
/// with `subdivisions` inner cells per edge.
pub fn grid_overlay_pixels(size: u32, subdivisions: u32) -> (data: Vec<u8>)
    requires
        subdivisions > 0,
        size / subdivisions > 0,
        size * size * 4 <= u32::MAX,
    ensures
        data@.len() == size * size * 4,
        forall|i: int|
            0 <= i < data@.len() ==> data@[i] == overlay_byte(size as int, (size / subdivisions) as int, i),
{
    let cell = size / subdivisions;
    let ghost sz = size as int;
    let ghost ce = cell as int;
    let mut data: Vec<u8> = Vec::new();
    let mut y: u32 = 0;
    while y < size
        invariant
            y <= size,
            cell == size / subdivisions,
            cell > 0,
            sz == size as int,
            ce == cell as int,
            size * size * 4 <= u32::MAX,
            data@.len() == (y as int) * sz * 4,
            forall|i: int| 0 <= i < data@.len() ==> data@[i] == overlay_byte(sz, ce, i),
        decreases size - y,
    {
        let mut x: u32 = 0;
        while x < size
            invariant
                x <= size,
                y < size,
                cell == size / subdivisions,
                cell > 0,
                sz == size as int,
                ce == cell as int,
                size * size * 4 <= u32::MAX,
                data@.len() == ((y as int) * sz + x as int) * 4,
                forall|i: int| 0 <= i < data@.len() ==> data@[i] == overlay_byte(sz, ce, i),
            decreases size - x,
        {
            let on_border = x == 0 || x == size - 1 || y == 0 || y == size - 1 || x == 1 || y == 1;
            let on_minor = x % cell == 0 || y % cell == 0;
            let color: [u8; 4] = if on_border {
                [100u8, 110, 130, 255]
            } else if on_minor {
                [70u8, 78, 90, 255]
            } else {
                [40u8, 44, 52, 255]
            };
            let ghost p = ((y as int) * sz + x as int);
            let ghost before = data@;
            proof {
                assert(color@ == overlay_color(sz, ce, x as int, y as int));
                lemma_fundamental_div_mod_converse(p, sz, y as int, x as int);
            }
            data.push(color[0]);
            data.push(color[1]);
            data.push(color[2]);
            data.push(color[3]);
            proof {
                assert forall|i: int| 0 <= i < data@.len() implies data@[i] == overlay_byte(sz, ce, i) by {
                    if i >= p * 4 {
                        let c = i - p * 4;
                        lemma_fundamental_div_mod_converse(p * 4 + c, 4, p, c);
                        assert(data@[i] == color@[c]);
                    } else {
                        assert(data@[i] == before[i]);
                    }
                }
                assert(data@.len() == ((y as int) * sz + x as int + 1) * 4) by (nonlinear_arith)
                    requires
                        data@.len() == before.len() + 4,
                        before.len() == ((y as int) * sz + x as int) * 4,
                ;
            }
            x = x + 1;
        }
        proof {
            assert(data@.len() == ((y + 1) as int) * sz * 4) by (nonlinear_arith)
                requires
                    data@.len() == ((y as int) * sz + sz) * 4,
            ;
        }
        y = y + 1;
    }
    proof {
        assert(data@.len() == size * size * 4) by (nonlinear_arith)
            requires
                data@.len() == (y as int) * sz * 4,
                y == size,
                sz == size as int,
        ;
    }
    data
}

} // verus!
