//! Tile download scheduling: URLs and cache file names, response validation,
//! the request rate limiter with its priority buffer, and the cooldown of
//! failed tiles. Fetching, file writes and task polling stay with the caller;
//! this module decides what to fetch, when, and what to do with the answer.

use std::collections::VecDeque;
use vstd::prelude::*;

use crate::text::{dec, push_decimal};
use super::types::{DownloadPriority, TileFormat, TileKey, TileSize};

verus! {

/// Download configuration. Durations are in nanoseconds, paths are strings.
pub struct TileDownloadSettings {
    pub endpoint: String,
    pub tiles_directory: String,
    pub max_concurrent_downloads: usize,
    pub max_retries: u32,
    pub tile_format: TileFormat,
    pub tile_size: TileSize,
    pub rate_limit_requests: usize,
    pub rate_limit_window_ns: u64,
    /// When true, swap x and y in the tile URL (/{z}/{y}/{x} servers).
    pub reverse_axes: bool,
    /// Whether this provider supports @2x retina postfix in URLs.
    pub supports_retina: bool,
    /// Whether this provider uses file extensions in tile URLs.
    pub uses_extension_in_url: bool,
    /// Basemap style key for per-style cache directories (e.g. "carto-dark").
    pub cache_key: String,
}

/// One second in nanoseconds.
pub const NANOS_PER_SEC: u64 = 1_000_000_000;

impl Default for TileDownloadSettings {
    fn default() -> (r: Self)
        ensures
            r.endpoint@ == "https://tile.openstreetmap.org"@,
            r.tiles_directory@ == "tiles/"@,
            r.max_concurrent_downloads == 16,
            r.max_retries == 3,
            r.tile_format == TileFormat::Png,
            r.tile_size == TileSize::Large,
            r.rate_limit_requests == 60,
            r.rate_limit_window_ns == NANOS_PER_SEC,
            !r.reverse_axes,
            r.supports_retina,
            r.uses_extension_in_url,
            r.cache_key@ == "carto-dark"@,
    {
        TileDownloadSettings {
            endpoint: String::from_str("https://tile.openstreetmap.org"),
            tiles_directory: String::from_str("tiles/"),
            max_concurrent_downloads: 16,
            max_retries: 3,
            tile_format: TileFormat::Png,
            tile_size: TileSize::Large,
            rate_limit_requests: 60,
            rate_limit_window_ns: NANOS_PER_SEC,
            reverse_axes: false,
            supports_retina: true,
            uses_extension_in_url: true,
            cache_key: String::from_str("carto-dark"),
        }
    }
}

/// The URL of a tile: `{endpoint}/{zoom}/{x}/{y}{postfix}.{ext}`, with x and y
/// swapped for reversed-axes servers, the retina postfix only where the server
/// supports it, and no postfix or extension where it takes none.
pub open spec fn tile_url_spec(
    endpoint: Seq<char>,
    key: TileKey,
    reverse_axes: bool,
    supports_retina: bool,
    uses_extension: bool,
) -> Seq<char> {
    let (first, second) = if reverse_axes { (key.y, key.x) } else { (key.x, key.y) };
    let postfix = if supports_retina { key.tile_size.postfix() } else { ""@ };
    let base = endpoint + "/"@ + dec(key.zoom as nat) + "/"@ + dec(first as nat) + "/"@ + dec(
        second as nat,
    );
    if uses_extension {
        base + postfix + "."@ + key.tile_format.ext()
    } else {
        base
    }
}

/// The cache file name of a tile: `{zoom}.{x}.{y}.{pixels}.tile.{ext}`.
pub open spec fn cache_file_name_spec(key: TileKey) -> Seq<char> {
    dec(key.zoom as nat) + "."@ + dec(key.x as nat) + "."@ + dec(key.y as nat) + "."@ + dec(
        key.tile_size.pixels() as nat,
    ) + ".tile."@ + key.tile_format.ext()
}

pub fn tile_url(endpoint: &str, key: &TileKey, settings: &TileDownloadSettings) -> (r: String)
    ensures
        r@ == tile_url_spec(
            endpoint@,
            *key,
            settings.reverse_axes,
            settings.supports_retina,
            settings.uses_extension_in_url,
        ),
{
    let postfix = if settings.supports_retina {
        key.tile_size.url_postfix()
    } else {
        ""
    };
    let (first, second) = if settings.reverse_axes {
        (key.y, key.x)
    } else {
        (key.x, key.y)
    };
    let mut s = String::from_str(endpoint);
    s.append("/");
    push_decimal(&mut s, key.zoom as u64);
    s.append("/");
    push_decimal(&mut s, first as u64);
    s.append("/");
    push_decimal(&mut s, second as u64);
    let ghost base = s@;
    if settings.uses_extension_in_url {
        s.append(postfix);
        s.append(".");
        s.append(key.tile_format.extension());
    }
    proof {
        reveal_strlit("");
    }
    s
}

/// Appends `{zoom}.{x}.{y}.{pixels}.tile.{ext}` for `key` to `s`.
fn push_cache_file_name(s: &mut String, key: &TileKey)
    ensures
        final(s)@ == old(s)@ + cache_file_name_spec(*key),
{
    let ghost s0 = s@;
    push_decimal(s, key.zoom as u64);
    s.append(".");
    push_decimal(s, key.x as u64);
    s.append(".");
    push_decimal(s, key.y as u64);
    s.append(".");
    push_decimal(s, key.tile_size.to_pixels() as u64);
    s.append(".tile.");
    s.append(key.tile_format.extension());
    assert(s@ =~= s0 + cache_file_name_spec(*key));
}

/// The file name under which a tile is cached, in every cache directory.
pub fn tile_cache_file_name(key: &TileKey) -> (r: String)
    ensures
        r@ == cache_file_name_spec(*key),
{
    let mut s = String::new();
    push_cache_file_name(&mut s, key);
    s
}

/// The asset path of a tile: `{tiles_directory}{cache_key}/{cache file name}`.
pub fn tile_filename(settings: &TileDownloadSettings, key: &TileKey) -> (r: String)
    ensures
        r@ == settings.tiles_directory@ + settings.cache_key@ + "/"@ + cache_file_name_spec(*key),
{
    let mut s = settings.tiles_directory.clone();
    s.append(settings.cache_key.as_str());
    s.append("/");
    push_cache_file_name(&mut s, key);
    s
}

/// Whether `s` holds `pat` as a contiguous piece.
pub open spec fn contains_piece(s: Seq<char>, pat: Seq<char>) -> bool {
    exists|i: int| 0 <= i <= s.len() - pat.len() && #[trigger] s.subrange(i, i + pat.len()) == pat
}

/// Whether a file in a cache directory is a cached tile: its name holds
/// `.tile.`.
pub fn is_cached_tile_name(name: &str) -> (r: bool)
    ensures
        r == contains_piece(name@, ".tile."@),
{
    proof {
        reveal_strlit(".tile.");
    }
    let n = name.unicode_len();
    let pat = ".tile.";
    let m: usize = 6;
    assert(pat@.len() == m);
    if n < m {
        assert(!contains_piece(name@, pat@));
        return false;
    }
    let mut i: usize = 0;
    while i <= n - m
        invariant
            n == name@.len(),
            m == pat@.len(),
            pat@ == ".tile."@,
            n >= m,
            forall|j: int| 0 <= j < i ==> #[trigger] name@.subrange(j, j + m as int) != pat@,
        decreases n - m + 1 - i,
    {
        let mut k: usize = 0;
        let mut same = true;
        while k < m
            invariant
                n == name@.len(),
                m == pat@.len(),
                i + m <= n,
                k <= m,
                same == (forall|q: int| 0 <= q < k ==> name@[i + q] == #[trigger] pat@[q]),
            decreases m - k,
        {
            if name.get_char(i + k) != pat.get_char(k) {
                same = false;
            }
            k = k + 1;
        }
        if same {
            proof {
                reveal_strlit(".tile.");
                let w = i as int;
                let t = ".tile."@;
                assert(name@.subrange(w, w + t.len()) =~= t);
                assert(0 <= w <= name@.len() - t.len());
                assert(contains_piece(name@, t));
            }
            return true;
        }
        proof {
            let q = choose|q: int| 0 <= q < m && name@[i + q] != #[trigger] pat@[q];
            assert(name@.subrange(i as int, i + m as int)[q] != pat@[q]);
        }
        i = i + 1;
    }
    proof {
        assert forall|j: int| 0 <= j <= name@.len() - pat@.len() implies #[trigger] name@.subrange(
            j,
            j + pat@.len(),
        ) != pat@ by {
            assert(name@.subrange(j, j + m as int) != pat@);
        }
    }
    false
}

/// The cache file name of every tile is recognized as a cached tile.
pub proof fn lemma_cache_file_name_is_tile(key: TileKey)
    ensures
        contains_piece(cache_file_name_spec(key), ".tile."@),
{
    let name = cache_file_name_spec(key);
    let head = dec(key.zoom as nat) + "."@ + dec(key.x as nat) + "."@ + dec(key.y as nat) + "."@ + dec(
        key.tile_size.pixels() as nat,
    );
    let i = head.len() as int;
    assert(name == head + ".tile."@ + key.tile_format.ext());
    assert(name.subrange(i, i + (".tile."@).len()) =~= ".tile."@);
}

/// Tiles smaller than this are rejected as truncated or as error pages.
pub const MIN_TILE_SIZE: usize = 100;

/// Whether `bytes` begin with `prefix`.
pub open spec fn starts_with(bytes: Seq<u8>, prefix: Seq<u8>) -> bool {
    bytes.len() >= prefix.len() && bytes.subrange(0, prefix.len() as int) == prefix
}

/// The signature that opens a file of the given format.
pub open spec fn magic(format: TileFormat) -> Seq<u8> {
    match format {
        TileFormat::Png => seq![0x89u8, 0x50, 0x4E, 0x47, 0x0D, 0x0A, 0x1A, 0x0A],
        TileFormat::Jpg => seq![0xFFu8, 0xD8],
        TileFormat::Webp => seq![0x52u8, 0x49, 0x46, 0x46],
    }
}

/// A downloaded tile is accepted when it has at least `MIN_TILE_SIZE` bytes,
/// is not an HTML or XML page (first byte `<`), and opens with the signature
/// of its format.
pub open spec fn valid_tile_bytes(bytes: Seq<u8>, format: TileFormat) -> bool {
    &&& bytes.len() >= MIN_TILE_SIZE
    &&& bytes[0] != 0x3Cu8
    &&& starts_with(bytes, magic(format))
}

pub fn validate_tile_bytes(bytes: &[u8], format: &TileFormat) -> (r: bool)
    ensures
        r == valid_tile_bytes(bytes@, *format),
{
    if bytes.len() < MIN_TILE_SIZE {
        return false;
    }
    if bytes[0] == 0x3C {
        return false;
    }
    let ok = match format {
        TileFormat::Png => bytes[0] == 0x89 && bytes[1] == 0x50 && bytes[2] == 0x4E && bytes[3]
            == 0x47 && bytes[4] == 0x0D && bytes[5] == 0x0A && bytes[6] == 0x1A && bytes[7] == 0x0A,
        TileFormat::Jpg => bytes[0] == 0xFF && bytes[1] == 0xD8,
        TileFormat::Webp => bytes[0] == 0x52 && bytes[1] == 0x49 && bytes[2] == 0x46 && bytes[3]
            == 0x46,
    };
    proof {
        let m = magic(*format);
        if ok {
            assert(bytes@.subrange(0, m.len() as int) =~= m);
        } else if bytes@.subrange(0, m.len() as int) == m {
            assert(bytes@.subrange(0, m.len() as int)[0] == m[0]);
            assert(bytes@.subrange(0, m.len() as int)[1] == m[1]);
            if m.len() > 2 {
                assert(bytes@.subrange(0, m.len() as int)[2] == m[2]);
                assert(bytes@.subrange(0, m.len() as int)[3] == m[3]);
            }
            if m.len() > 4 {
                assert(bytes@.subrange(0, m.len() as int)[4] == m[4]);
                assert(bytes@.subrange(0, m.len() as int)[5] == m[5]);
                assert(bytes@.subrange(0, m.len() as int)[6] == m[6]);
                assert(bytes@.subrange(0, m.len() as int)[7] == m[7]);
            }
        }
    }
    ok
}

/// A request held back by the rate limiter until a slot frees up.
pub struct BufferedRequest {
    pub key: TileKey,
    pub endpoint: String,
    pub filename: String,
    pub priority: DownloadPriority,
}

/// A request time stamp is stale once more than `window` has passed since it
/// (a stamp later than `now` has zero age).
pub open spec fn is_stale(t: u64, now: u64, window: u64) -> bool {
    now - t > window
}

/// The stamps left after dropping stale ones from the front, oldest first,
/// until the first fresh one.
pub open spec fn drop_stale(ts: Seq<u64>, now: u64, window: u64) -> Seq<u64>
    decreases ts.len(),
{
    if ts.len() > 0 && is_stale(ts[0], now, window) {
        drop_stale(ts.drop_first(), now, window)
    } else {
        ts
    }
}

/// `k` copies of the stamp `now`.
pub open spec fn stamps_at(k: nat, now: u64) -> Seq<u64> {
    Seq::new(k, |i: int| now)
}

/// Requests of one priority, in arrival order.
pub open spec fn with_rank(s: Seq<BufferedRequest>, rank: u8) -> Seq<BufferedRequest> {
    s.filter(|r: BufferedRequest| r.priority.rank() == rank)
}

/// A stable sort of requests by priority: all `Near` requests first, then
/// `Mid`, `Far` and `Elevation`, each group in arrival order.
pub open spec fn by_priority(s: Seq<BufferedRequest>) -> Seq<BufferedRequest> {
    with_rank(s, 0) + with_rank(s, 1) + with_rank(s, 2) + with_rank(s, 3)
}

/// How many buffered requests one dispatch round sends: as many as the free
/// slots in the window allow, and none when nothing is buffered.
pub open spec fn dispatch_count(stamps: Seq<u64>, pending: nat, now: u64, window: u64, limit: usize) -> nat {
    let used = drop_stale(stamps, now, window).len();
    let free: nat = if limit > used { (limit - used) as nat } else { 0 };
    if pending == 0 {
        0
    } else if pending < free {
        pending
    } else {
        free
    }
}

/// Whether a buffered request is for tiles of the given zoom.
pub open spec fn on_zoom(zoom: u8) -> spec_fn(BufferedRequest) -> bool {
    |r: BufferedRequest| r.key.zoom == zoom
}

/// Sliding-window request limiter with a buffer of held-back requests.
/// Time stamps are nanoseconds on the caller's monotonic clock.
pub struct RateLimiter {
    timestamps: VecDeque<u64>,
    buffer: Vec<BufferedRequest>,
}

impl RateLimiter {
    /// Time stamps of the requests sent within the window, oldest first.
    pub closed spec fn stamps(&self) -> Seq<u64> {
        self.timestamps@
    }

    /// Requests waiting for a slot, in the order they will be considered.
    pub closed spec fn pending(&self) -> Seq<BufferedRequest> {
        self.buffer@
    }

    pub fn new() -> (r: Self)
        ensures
            r.stamps() == Seq::<u64>::empty(),
            r.pending() == Seq::<BufferedRequest>::empty(),
    {
        RateLimiter { timestamps: VecDeque::new(), buffer: Vec::new() }
    }

    /// Forgets stale stamps and says whether another request fits in the
    /// window.
    pub fn can_request(&mut self, now: u64, window: u64, limit: usize) -> (r: bool)
        ensures
            final(self).stamps() == drop_stale(old(self).stamps(), now, window),
            final(self).pending() == old(self).pending(),
            r == (final(self).stamps().len() < limit),
    {
        broadcast use vstd::std_specs::vecdeque::group_vec_dequeue_axioms;
        loop
            invariant
                drop_stale(self.timestamps@, now, window) == drop_stale(old(self).stamps(), now, window),
                self.buffer@ == old(self).pending(),
            ensures
                self.timestamps@ == drop_stale(old(self).stamps(), now, window),
                self.buffer@ == old(self).pending(),
            decreases self.timestamps@.len(),
        {
            if self.timestamps.len() == 0 {
                break;
            }
            let front = self.timestamps[0];
            if !(now > front && now - front > window) {
                break;
            }
            let ghost before = self.timestamps@;
            self.timestamps.pop_front();
            assert(self.timestamps@ =~= before.drop_first());
        }
        self.timestamps.len() < limit
    }

    /// Drops buffered requests for any zoom but `current_zoom`; returns how
    /// many were dropped.
    pub fn clear_stale_zoom(&mut self, current_zoom: u8) -> (removed: usize)
        ensures
            final(self).pending() == old(self).pending().filter(on_zoom(current_zoom)),
            final(self).stamps() == old(self).stamps(),
            removed == old(self).pending().len() - final(self).pending().len(),
    {
        let ghost keep = on_zoom(current_zoom);
        let mut old_buffer: Vec<BufferedRequest> = Vec::new();
        std::mem::swap(&mut old_buffer, &mut self.buffer);
        let ghost orig = old_buffer@;
        let before = old_buffer.len();
        let mut i: usize = 0;
        while old_buffer.len() > 0
            invariant
                i + old_buffer@.len() == orig.len(),
                old_buffer@ == orig.skip(i as int),
                self.buffer@ == orig.take(i as int).filter(keep),
                keep == on_zoom(current_zoom),
                self.timestamps@ == old(self).stamps(),
                before == orig.len(),
            decreases old_buffer@.len(),
        {
            let ghost rest = old_buffer@;
            let r = old_buffer.remove(0);
            proof {
                assert(orig.take(i as int).push(r) =~= orig.take(i + 1));
                orig.take(i as int).lemma_filter_push(r, keep);
                assert(old_buffer@ =~= orig.skip(i + 1));
            }
            assert(keep(r) == (r.key.zoom == current_zoom));
            if r.key.zoom == current_zoom {
                self.buffer.push(r);
            }
            i = i + 1;
        }
        proof {
            assert(orig.take(i as int) =~= orig);
            orig.lemma_filter_len(keep);
        }
        before - self.buffer.len()
    }

    /// Holds a request back until a slot frees up.
    pub fn enqueue(&mut self, request: BufferedRequest)
        ensures
            final(self).pending() == old(self).pending().push(request),
            final(self).stamps() == old(self).stamps(),
    {
        self.buffer.push(request);
    }

    /// Number of requests held back.
    pub fn pending_count(&self) -> (r: usize)
        ensures
            r == self.pending().len(),
    {
        self.buffer.len()
    }

    /// Orders the buffer by priority, keeping arrival order within a priority.
    pub fn sort_by_priority(&mut self)
        ensures
            final(self).pending() == by_priority(old(self).pending()),
            final(self).stamps() == old(self).stamps(),
    {
        let mut old_buffer: Vec<BufferedRequest> = Vec::new();
        std::mem::swap(&mut old_buffer, &mut self.buffer);
        let ghost orig = old_buffer@;
        let n = old_buffer.len();
        let mut near: Vec<BufferedRequest> = Vec::new();
        let mut mid: Vec<BufferedRequest> = Vec::new();
        let mut far: Vec<BufferedRequest> = Vec::new();
        let mut elevation: Vec<BufferedRequest> = Vec::new();
        let mut i: usize = 0;
        while old_buffer.len() > 0
            invariant
                i + old_buffer@.len() == orig.len(),
                old_buffer@ == orig.skip(i as int),
                near@ == with_rank(orig.take(i as int), 0),
                mid@ == with_rank(orig.take(i as int), 1),
                far@ == with_rank(orig.take(i as int), 2),
                elevation@ == with_rank(orig.take(i as int), 3),
                self.buffer@ == Seq::<BufferedRequest>::empty(),
                self.timestamps@ == old(self).stamps(),
                n == orig.len(),
            decreases old_buffer@.len(),
        {
            let r = old_buffer.remove(0);
            proof {
                let t = orig.take(i as int);
                assert(t.push(r) =~= orig.take(i + 1));
                t.lemma_filter_push(r, |x: BufferedRequest| x.priority.rank() == 0);
                t.lemma_filter_push(r, |x: BufferedRequest| x.priority.rank() == 1);
                t.lemma_filter_push(r, |x: BufferedRequest| x.priority.rank() == 2);
                t.lemma_filter_push(r, |x: BufferedRequest| x.priority.rank() == 3);
                assert(old_buffer@ =~= orig.skip(i + 1));
            }
            match r.priority {
                DownloadPriority::Near => near.push(r),
                DownloadPriority::Mid => mid.push(r),
                DownloadPriority::Far => far.push(r),
                DownloadPriority::Elevation => elevation.push(r),
            }
            i = i + 1;
        }
        proof {
            assert(orig.take(i as int) =~= orig);
        }
        self.buffer.append(&mut near);
        self.buffer.append(&mut mid);
        self.buffer.append(&mut far);
        self.buffer.append(&mut elevation);
        assert(self.buffer@ =~= by_priority(orig));
    }

    /// Sends buffered requests from the front while the window has room, and
    /// stamps each one sent with `now`. Returns the requests to start, in
    /// order.
    pub fn dispatch(&mut self, now: u64, window: u64, limit: usize) -> (sent: Vec<BufferedRequest>)
        ensures
            ({
                let k = dispatch_count(old(self).stamps(), old(self).pending().len(), now, window, limit);
                &&& sent@ == old(self).pending().take(k as int)
                &&& final(self).pending() == old(self).pending().skip(k as int)
                &&& final(self).stamps() == if old(self).pending().len() == 0 {
                    old(self).stamps()
                } else {
                    drop_stale(old(self).stamps(), now, window) + stamps_at(k, now)
                }
            }),
            sent@.len() == old(self).pending().len() || drop_stale(old(self).stamps(), now, window).len()
                + sent@.len() >= limit,
    {
        let ghost orig = self.buffer@;
        let ghost t0 = drop_stale(self.timestamps@, now, window);
        let ghost free: nat = if limit > t0.len() { (limit - t0.len()) as nat } else { 0 };
        let mut sent: Vec<BufferedRequest> = Vec::new();
        proof {
            lemma_drop_stale_fresh_front(old(self).stamps(), now, window);
        }
        loop
            invariant_except_break
                sent@.len() == 0 ==> self.timestamps@ == old(self).stamps(),
                sent@.len() > 0 ==> self.timestamps@ == t0 + stamps_at(sent@.len(), now)
                    && sent@.len() <= free,
            invariant
                self.buffer@ == orig.skip(sent@.len() as int),
                sent@ == orig.take(sent@.len() as int),
                sent@.len() <= orig.len(),
                orig == old(self).pending(),
                t0 == drop_stale(old(self).stamps(), now, window),
                free == (if limit > t0.len() { (limit - t0.len()) as nat } else { 0nat }),
                t0.len() == 0 || !is_stale(t0[0], now, window),
            ensures
                sent@ == orig.take(dispatch_count(old(self).stamps(), orig.len(), now, window, limit) as int),
                self.buffer@ == orig.skip(dispatch_count(old(self).stamps(), orig.len(), now, window, limit) as int),
                self.timestamps@ == if orig.len() == 0 {
                    old(self).stamps()
                } else {
                    t0 + stamps_at(dispatch_count(old(self).stamps(), orig.len(), now, window, limit), now)
                },
            decreases self.buffer@.len(),
        {
            if self.buffer.len() == 0 {
                proof {
                    if orig.len() > 0 {
                        assert(sent@.len() == orig.len());
                    }
                    assert(orig.skip(sent@.len() as int).len() == 0);
                }
                break;
            }
            let ghost k0 = sent@.len();
            proof {
                if k0 > 0 {
                    lemma_drop_stale_keeps_fresh(t0, stamps_at(k0, now), now, window);
                }
            }
            let ok = self.can_request(now, window, limit);
            if !ok {
                proof {
                    if k0 == 0 {
                        assert(self.timestamps@ == t0);
                        assert(self.timestamps@ =~= t0 + stamps_at(0, now));
                    }
                }
                break;
            }
            let r = self.buffer.remove(0);
            sent.push(r);
            self.timestamps.push_back(now);
            proof {
                assert(self.buffer@ =~= orig.skip(sent@.len() as int));
                assert(sent@ =~= orig.take(sent@.len() as int));
                assert(self.timestamps@ =~= t0 + stamps_at(sent@.len(), now));
            }
        }
        proof {
            lemma_dispatch_fills_window(old(self).stamps(), orig.len(), now, window, limit);
        }
        sent
    }
}

/// After dropping stale stamps, the front stamp (if any) is fresh.
proof fn lemma_drop_stale_fresh_front(ts: Seq<u64>, now: u64, window: u64)
    ensures
        drop_stale(ts, now, window).len() == 0 || !is_stale(drop_stale(ts, now, window)[0], now, window),
        drop_stale(ts, now, window).len() <= ts.len(),
    decreases ts.len(),
{
    if ts.len() > 0 && is_stale(ts[0], now, window) {
        lemma_drop_stale_fresh_front(ts.drop_first(), now, window);
    }
}

/// Stamps behind a fresh front, or stamps taken `now`, are never dropped.
proof fn lemma_drop_stale_keeps_fresh(t: Seq<u64>, nows: Seq<u64>, now: u64, window: u64)
    requires
        t.len() == 0 || !is_stale(t[0], now, window),
        forall|i: int| 0 <= i < nows.len() ==> nows[i] == now,
    ensures
        drop_stale(t + nows, now, window) == t + nows,
{
    if t.len() > 0 {
        assert((t + nows)[0] == t[0]);
    } else if nows.len() > 0 {
        assert((t + nows)[0] == now);
    }
}

/// How long a tile that failed to download is left alone.
pub const FAILURE_COOLDOWN_NS: u64 = 30 * NANOS_PER_SEC;

/// A failure recorded at `t` still holds the tile back at `now` (a record
/// later than `now` has zero age).
pub open spec fn still_cooling(t: u64, now: u64) -> bool {
    now - t < FAILURE_COOLDOWN_NS
}

/// No tile has two records.
pub open spec fn keys_distinct(s: Seq<(TileKey, u64)>) -> bool {
    forall|i: int, j: int| 0 <= i < j < s.len() ==> s[i].0 != s[j].0
}

/// Whether the records hold the tile back at `now`.
pub open spec fn cooling(s: Seq<(TileKey, u64)>, key: TileKey, now: u64) -> bool {
    exists|i: int| 0 <= i < s.len() && s[i].0 == key && still_cooling(s[i].1, now)
}

/// Whether a record is still in force at `now`.
pub open spec fn in_force(now: u64) -> spec_fn((TileKey, u64)) -> bool {
    |e: (TileKey, u64)| still_cooling(e.1, now)
}

/// The records after a failure of `key` at `now`: the tile's record is
/// replaced where it has one, appended otherwise; every other record stays
/// as it was.
pub open spec fn failure_recorded(before: Seq<(TileKey, u64)>, after: Seq<(TileKey, u64)>, key: TileKey, now: u64) -> bool {
    ||| exists|i: int| 0 <= i < before.len() && before[i].0 == key && after == before.update(i, (key, now))
    ||| (forall|i: int| 0 <= i < before.len() ==> before[i].0 != key) && after == before.push((key, now))
}

/// Tiles whose download failed recently, with the time of the last failure.
pub struct FailedTileCooldown {
    failures: Vec<(TileKey, u64)>,
}

impl FailedTileCooldown {
    /// The failure records, one per tile.
    pub closed spec fn records(&self) -> Seq<(TileKey, u64)> {
        self.failures@
    }

    #[verifier::type_invariant]
    spec fn well_formed(&self) -> bool {
        keys_distinct(self.failures@)
    }

    pub fn new() -> (r: Self)
        ensures
            r.records() == Seq::<(TileKey, u64)>::empty(),
    {
        FailedTileCooldown { failures: Vec::new() }
    }

    /// Records that `key` failed at `now`, replacing an earlier record.
    pub fn record_failure(&mut self, key: TileKey, now: u64)
        ensures
            failure_recorded(old(self).records(), final(self).records(), key, now),
    {
        proof {
            use_type_invariant(&*self);
        }
        let mut v: Vec<(TileKey, u64)> = Vec::new();
        std::mem::swap(&mut v, &mut self.failures);
        let ghost orig = v@;
        let mut i: usize = 0;
        let mut found = false;
        while i < v.len()
            invariant_except_break
                !found,
            invariant
                i <= v@.len(),
                v@ == orig,
                orig == old(self).records(),
                keys_distinct(orig),
                forall|j: int| 0 <= j < i ==> orig[j].0 != key,
            ensures
                v@ == orig,
                found ==> i < orig.len() && orig[i as int].0 == key,
                !found ==> forall|j: int| 0 <= j < orig.len() ==> orig[j].0 != key,
            decreases v@.len() - i,
        {
            if v[i].0 == key {
                found = true;
                break;
            }
            i = i + 1;
        }
        if found {
            let mut entry = (key, now);
            std::mem::swap(&mut entry, &mut v[i]);
            proof {
                assert(v@ =~= orig.update(i as int, (key, now)));
                assert(keys_distinct(v@));
            }
        } else {
            v.push((key, now));
            proof {
                assert(keys_distinct(v@));
            }
        }
        std::mem::swap(&mut v, &mut self.failures);
    }

    /// Whether `key` failed less than the cooldown before `now`.
    pub fn is_cooling_down(&self, key: &TileKey, now: u64) -> (r: bool)
        ensures
            r == cooling(self.records(), *key, now),
    {
        let mut i: usize = 0;
        while i < self.failures.len()
            invariant
                i <= self.failures@.len(),
                forall|j: int|
                    0 <= j < i ==> !(self.failures@[j].0 == *key && still_cooling(self.failures@[j].1, now)),
            decreases self.failures@.len() - i,
        {
            let t = self.failures[i].1;
            if self.failures[i].0 == *key && (t > now || now - t < FAILURE_COOLDOWN_NS) {
                return true;
            }
            i = i + 1;
        }
        false
    }

    /// Forgets the failures whose cooldown is over.
    pub fn prune_expired(&mut self, now: u64)
        ensures
            final(self).records() == old(self).records().filter(in_force(now)),
    {
        proof {
            use_type_invariant(&*self);
        }
        let ghost keep = in_force(now);
        let mut old_failures: Vec<(TileKey, u64)> = Vec::new();
        std::mem::swap(&mut old_failures, &mut self.failures);
        let ghost orig = old_failures@;
        let n = old_failures.len();
        let mut kept: Vec<(TileKey, u64)> = Vec::new();
        let mut i: usize = 0;
        proof {
            lemma_filter_keeps_keys_distinct(orig.take(0), keep);
        }
        while old_failures.len() > 0
            invariant
                n == orig.len(),
                i + old_failures@.len() == orig.len(),
                old_failures@ == orig.skip(i as int),
                kept@ == orig.take(i as int).filter(keep),
                keep == in_force(now),
                keys_distinct(orig),
                keys_distinct(kept@),
            decreases old_failures@.len(),
        {
            let e = old_failures.remove(0);
            proof {
                assert(orig.take(i as int).push(e) =~= orig.take(i + 1));
                orig.take(i as int).lemma_filter_push(e, keep);
                assert(old_failures@ =~= orig.skip(i + 1));
                assert(keys_distinct(orig.take(i + 1)));
                lemma_filter_keeps_keys_distinct(orig.take(i + 1), keep);
            }
            if e.1 > now || now - e.1 < FAILURE_COOLDOWN_NS {
                kept.push(e);
            }
            i = i + 1;
        }
        proof {
            assert(orig.take(i as int) =~= orig);
        }
        std::mem::swap(&mut kept, &mut self.failures);
    }
}

/// Keeping a subset of the records keeps one record per tile.
proof fn lemma_filter_keeps_keys_distinct(s: Seq<(TileKey, u64)>, p: spec_fn((TileKey, u64)) -> bool)
    requires
        keys_distinct(s),
    ensures
        keys_distinct(s.filter(p)),
    decreases s.len(),
{
    reveal(Seq::filter);
    if s.len() > 0 {
        let rest = s.drop_last();
        assert(keys_distinct(rest));
        lemma_filter_keeps_keys_distinct(rest, p);
        let fr = rest.filter(p);
        if p(s.last()) {
            assert forall|j: int| 0 <= j < fr.len() implies fr[j].0 != s.last().0 by {
                assert(fr.contains(fr[j]));
                rest.lemma_filter_contains_rev(p, fr[j]);
                let k = choose|k: int| 0 <= k < rest.len() && rest[k] == fr[j];
                assert(s[k] == rest[k]);
            }
            assert(keys_distinct(fr.push(s.last())));
        }
    }
}

/// Tiles that finished downloading in this session (one entry per tile).
pub struct DownloadedTiles {
    tiles: Vec<TileKey>,
}

impl DownloadedTiles {
    /// The downloaded tiles.
    pub closed spec fn keys(&self) -> Set<TileKey> {
        self.tiles@.to_set()
    }

    pub fn new() -> (r: Self)
        ensures
            r.keys() == Set::<TileKey>::empty(),
    {
        let r = DownloadedTiles { tiles: Vec::new() };
        proof {
            assert(r.tiles@.to_set() =~= Set::<TileKey>::empty());
        }
        r
    }

    pub fn contains(&self, key: &TileKey) -> (r: bool)
        ensures
            r == self.keys().contains(*key),
    {
        let mut i: usize = 0;
        while i < self.tiles.len()
            invariant
                i <= self.tiles@.len(),
                forall|j: int| 0 <= j < i ==> self.tiles@[j] != *key,
            decreases self.tiles@.len() - i,
        {
            if self.tiles[i] == *key {
                proof {
                    assert(self.tiles@.contains(*key));
                }
                return true;
            }
            i = i + 1;
        }
        proof {
            assert(!self.tiles@.contains(*key));
        }
        false
    }

    pub fn insert(&mut self, key: TileKey)
        ensures
            final(self).keys() == old(self).keys().insert(key),
    {
        if !self.contains(&key) {
            let ghost before = self.tiles@;
            self.tiles.push(key);
            proof {
                before.lemma_push_to_set_commute(key);
            }
        } else {
            proof {
                assert(self.keys().insert(key) =~= self.keys());
            }
        }
    }
}

/// Forgets every downloaded tile. Used when the basemap changes.
pub fn clear_download_tracking(downloaded: &mut DownloadedTiles)
    ensures
        final(downloaded).keys() == Set::<TileKey>::empty(),
{
    downloaded.tiles.clear();
    proof {
        assert(downloaded.tiles@.to_set() =~= Set::<TileKey>::empty());
    }
}

/// A tile already being fetched, or one that failed recently, is not
/// requested again.
pub fn is_request_blocked(in_flight: bool, cooling_down: bool) -> (r: bool)
    ensures
        r == (in_flight || cooling_down),
{
    in_flight || cooling_down
}

/// What a download request does with a tile that is not blocked.
#[derive(PartialEq, Eq, Structural, Clone, Copy, Debug)]
pub enum CachedTileAction {
    /// Announce the cached file as ready.
    Ready,
    /// Nothing to do: it was downloaded already.
    Skip,
    /// Hold the request in the rate limiter's buffer.
    Buffer,
}

/// A cached tile is served from the cache when the request allows it; a tile
/// downloaded earlier in the session is not fetched again; anything else is
/// buffered for download.
pub fn cached_tile_action(use_cache: bool, cached: bool, already_downloaded: bool) -> (r: CachedTileAction)
    ensures
        r == (if use_cache && cached {
            CachedTileAction::Ready
        } else if already_downloaded {
            CachedTileAction::Skip
        } else {
            CachedTileAction::Buffer
        }),
{
    if use_cache && cached {
        CachedTileAction::Ready
    } else if already_downloaded {
        CachedTileAction::Skip
    } else {
        CachedTileAction::Buffer
    }
}

/// The download attempt gives up once `retries` reaches `max_retries`.
pub fn retries_exhausted(retries: u32, max_retries: u32) -> (r: bool)
    ensures
        r == (retries >= max_retries),
{
    retries >= max_retries
}

/// How one download attempt ended.
#[derive(PartialEq, Eq, Structural, Clone, Copy, Debug)]
pub enum AttemptResult {
    /// The tile was valid and is now in the cache.
    Stored,
    /// A network error, a status other than 200, an invalid body, or a
    /// failed cache write.
    Failed,
}

/// The next step of a tile download.
#[derive(PartialEq, Eq, Structural, Clone, Copy, Debug)]
pub enum DownloadStep {
    /// Make another request.
    Attempt,
    /// The tile is cached: report success.
    Succeed,
    /// Out of retries: report failure.
    GiveUp,
}

/// The download loop's decision after `last` (none before the first
/// attempt), with `retries` failed attempts so far (an attempt is only made
/// while they are below `max_retries`): a stored tile succeeds;
/// a failure counts one more retry; the loop gives up once the retries
/// reach `max_retries` and otherwise tries again. Returns the new retry
/// count and the step.
pub fn download_step(retries: u32, max_retries: u32, last: Option<AttemptResult>) -> (r: (u32, DownloadStep))
    requires
        retries <= max_retries,
        last is Some ==> retries < max_retries,
    ensures
        last == Some(AttemptResult::Stored) ==> r == (retries, DownloadStep::Succeed),
        last != Some(AttemptResult::Stored) ==> {
            let n = if last == Some(AttemptResult::Failed) { retries + 1 } else { retries as int };
            &&& r.0 == n
            &&& r.1 == if n >= max_retries { DownloadStep::GiveUp } else { DownloadStep::Attempt }
        },
        r.0 <= max_retries,
{
    match last {
        Some(AttemptResult::Stored) => (retries, DownloadStep::Succeed),
        _ => {
            let n = if last == Some(AttemptResult::Failed) {
                retries + 1
            } else {
                retries
            };
            if retries_exhausted(n, max_retries) {
                (n, DownloadStep::GiveUp)
            } else {
                (n, DownloadStep::Attempt)
            }
        },
    }
}

/// What to do with an HTTP answer to a tile request.
#[derive(PartialEq, Eq, Structural, Clone, Copy, Debug)]
pub enum ResponseVerdict {
    /// Write the bytes to the cache; the download succeeded if that works.
    Store,
    /// Count a failed attempt and try again.
    Retry,
}

/// An answer is stored when the status is 200 and the body is a valid tile of
/// the requested format; anything else is retried.
pub fn classify_response(status: u16, bytes: &[u8], format: &TileFormat) -> (r: ResponseVerdict)
    ensures
        r == (if status == 200 && valid_tile_bytes(bytes@, *format) {
            ResponseVerdict::Store
        } else {
            ResponseVerdict::Retry
        }),
{
    if status == 200 && validate_tile_bytes(bytes, format) {
        ResponseVerdict::Store
    } else {
        ResponseVerdict::Retry
    }
}

/// Books the end of a download: a success joins the downloaded set, a
/// failure starts the tile's cooldown. Returns whether to announce the tile.
pub fn finish_download(
    downloaded: &mut DownloadedTiles,
    cooldown: &mut FailedTileCooldown,
    key: TileKey,
    success: bool,
    now: u64,
) -> (announce: bool)
    ensures
        announce == success,
        success ==> final(downloaded).keys() == old(downloaded).keys().insert(key)
            && final(cooldown).records() == old(cooldown).records(),
        !success ==> final(downloaded).keys() == old(downloaded).keys()
            && failure_recorded(old(cooldown).records(), final(cooldown).records(), key, now)
            && cooling(final(cooldown).records(), key, now),
{
    if success {
        downloaded.insert(key);
    } else {
        cooldown.record_failure(key, now);
        proof {
            lemma_record_failure_cools(old(cooldown).records(), cooldown.records(), key, now);
        }
    }
    success
}

/// A tile whose failure was just recorded is cooling down.
pub proof fn lemma_record_failure_cools(
    before: Seq<(TileKey, u64)>,
    after: Seq<(TileKey, u64)>,
    key: TileKey,
    now: u64,
)
    requires
        failure_recorded(before, after, key, now),
    ensures
        cooling(after, key, now),
{
    if exists|i: int| 0 <= i < before.len() && before[i].0 == key && after == before.update(i, (key, now)) {
        let i = choose|i: int|
            0 <= i < before.len() && before[i].0 == key && after == before.update(i, (key, now));
        assert(after[i] == (key, now));
    } else {
        assert(after[before.len() as int] == (key, now));
    }
}


/// Every request of `with_rank(s, r)` has priority rank `r`.
proof fn lemma_with_rank_ranks(s: Seq<BufferedRequest>, r: u8)
    ensures
        forall|i: int| 0 <= i < with_rank(s, r).len() ==> (#[trigger] with_rank(s, r)[i]).priority.rank() == r,
{
    assert forall|i: int| 0 <= i < with_rank(s, r).len() implies (#[trigger] with_rank(s, r)[i]).priority.rank()
        == r by {
        s.lemma_filter_pred(|x: BufferedRequest| x.priority.rank() == r, i);
    }
}

/// Sorting the buffer by priority is a stable sort: it keeps exactly the
/// same requests (as a multiset), and afterwards priorities never decrease
/// from front to back.
pub proof fn lemma_by_priority_sorts(s: Seq<BufferedRequest>)
    ensures
        by_priority(s).len() == s.len(),
        by_priority(s).to_multiset() == s.to_multiset(),
        forall|i: int, j: int|
            0 <= i <= j < s.len() ==> (#[trigger] by_priority(s)[i]).priority.rank()
                <= (#[trigger] by_priority(s)[j]).priority.rank(),
    decreases s.len(),
{
    broadcast use vstd::multiset::group_multiset_axioms;
    broadcast use vstd::seq_lib::to_multiset_build;
    broadcast use vstd::seq_lib::lemma_multiset_commutative;

    let w0 = with_rank(s, 0);
    let w1 = with_rank(s, 1);
    let w2 = with_rank(s, 2);
    let w3 = with_rank(s, 3);
    if s.len() == 0 {
        assert(w0 =~= Seq::<BufferedRequest>::empty());
        assert(w1 =~= Seq::<BufferedRequest>::empty());
        assert(w2 =~= Seq::<BufferedRequest>::empty());
        assert(w3 =~= Seq::<BufferedRequest>::empty());
        assert(by_priority(s) =~= s);
    } else {
        let t = s.drop_last();
        let x = s.last();
        lemma_by_priority_sorts(t);
        assert(t.push(x) =~= s);
        t.lemma_filter_push(x, |y: BufferedRequest| y.priority.rank() == 0);
        t.lemma_filter_push(x, |y: BufferedRequest| y.priority.rank() == 1);
        t.lemma_filter_push(x, |y: BufferedRequest| y.priority.rank() == 2);
        t.lemma_filter_push(x, |y: BufferedRequest| y.priority.rank() == 3);
        let v0 = with_rank(t, 0);
        let v1 = with_rank(t, 1);
        let v2 = with_rank(t, 2);
        let v3 = with_rank(t, 3);
        let m = |q: Seq<BufferedRequest>| q.to_multiset();
        assert((w0 + w1 + w2 + w3).to_multiset() =~= m(w0).add(m(w1)).add(m(w2)).add(m(w3)));
        assert((v0 + v1 + v2 + v3).to_multiset() =~= m(v0).add(m(v1)).add(m(v2)).add(m(v3)));
        assert(s.to_multiset() =~= t.to_multiset().insert(x));
        match x.priority {
            DownloadPriority::Near => {
                assert(m(w0) =~= m(v0).insert(x));
            },
            DownloadPriority::Mid => {
                assert(m(w1) =~= m(v1).insert(x));
            },
            DownloadPriority::Far => {
                assert(m(w2) =~= m(v2).insert(x));
            },
            DownloadPriority::Elevation => {
                assert(m(w3) =~= m(v3).insert(x));
            },
        }
        assert(by_priority(s).to_multiset() =~= s.to_multiset());
        assert(by_priority(s).len() == s.len()) by {
            by_priority(s).to_multiset_ensures();
            s.to_multiset_ensures();
        }
    }
    lemma_with_rank_ranks(s, 0);
    lemma_with_rank_ranks(s, 1);
    lemma_with_rank_ranks(s, 2);
    lemma_with_rank_ranks(s, 3);
    let b = by_priority(s);
    let a0 = w0.len() as int;
    let a1 = a0 + w1.len();
    let a2 = a1 + w2.len();
    assert forall|i: int| 0 <= i < b.len() implies (#[trigger] b[i]).priority.rank() == (if i < a0 {
        0int
    } else if i < a1 {
        1int
    } else if i < a2 {
        2int
    } else {
        3int
    }) by {
        if i < a0 {
            assert(b[i] == w0[i]);
        } else if i < a1 {
            assert(b[i] == w1[i - a0]);
        } else if i < a2 {
            assert(b[i] == w2[i - a1]);
        } else {
            assert(b[i] == w3[i - a2]);
        }
    }
}

/// A dispatch round sends no more requests than are buffered, never fills
/// the window past its limit (when the window was within its limit), and
/// sends at least one request when something is buffered and the window has
/// room.
pub proof fn lemma_dispatch_within_limit(stamps: Seq<u64>, pending: nat, now: u64, window: u64, limit: usize)
    ensures
        dispatch_count(stamps, pending, now, window, limit) <= pending,
        drop_stale(stamps, now, window).len() <= limit ==> drop_stale(stamps, now, window).len()
            + dispatch_count(stamps, pending, now, window, limit) <= limit,
        pending > 0 && drop_stale(stamps, now, window).len() < limit ==> dispatch_count(
            stamps,
            pending,
            now,
            window,
            limit,
        ) > 0,
{
}

/// A dispatch round keeps the window within its limit: when no more than
/// `limit` stamps were held before, no more are held after. The other
/// operations of a frame (enqueueing, sorting, clearing other zooms) leave
/// the stamps as they are, so a whole frame of requests never has more than
/// `limit` requests in flight within one window.
pub proof fn lemma_dispatch_preserves_window_bound(
    stamps: Seq<u64>,
    pending: nat,
    now: u64,
    window: u64,
    limit: usize,
)
    requires
        stamps.len() <= limit,
    ensures
        (if pending == 0 {
            stamps
        } else {
            drop_stale(stamps, now, window) + stamps_at(dispatch_count(stamps, pending, now, window, limit), now)
        }).len() <= limit,
{
    lemma_drop_stale_fresh_front(stamps, now, window);
    lemma_dispatch_within_limit(stamps, pending, now, window, limit);
}

/// Pruning expired failures never changes which tiles are cooling down at
/// the same instant.
pub proof fn lemma_prune_keeps_cooling(records: Seq<(TileKey, u64)>, key: TileKey, now: u64)
    ensures
        cooling(records.filter(in_force(now)), key, now) == cooling(records, key, now),
{
    let kept = records.filter(in_force(now));
    if cooling(records, key, now) {
        let i = choose|i: int| 0 <= i < records.len() && records[i].0 == key && still_cooling(records[i].1, now);
        records.lemma_filter_contains(in_force(now), i);
        let j = choose|j: int| 0 <= j < kept.len() && kept[j] == records[i];
        assert(kept[j].0 == key && still_cooling(kept[j].1, now));
    }
    if cooling(kept, key, now) {
        let j = choose|j: int| 0 <= j < kept.len() && kept[j].0 == key && still_cooling(kept[j].1, now);
        assert(kept.contains(kept[j]));
        records.lemma_filter_contains_rev(in_force(now), kept[j]);
        let i = choose|i: int| 0 <= i < records.len() && records[i] == kept[j];
        assert(records[i].0 == key && still_cooling(records[i].1, now));
    }
}

/// A dispatch round sends as much as it can: either every buffered request,
/// or enough that the window's fresh stamps reach the limit; and when the
/// window holds `used < limit` fresh stamps, it sends exactly the smaller of
/// the buffered count and `limit - used`.
pub proof fn lemma_dispatch_fills_window(stamps: Seq<u64>, pending: nat, now: u64, window: u64, limit: usize)
    ensures
        dispatch_count(stamps, pending, now, window, limit) == pending || drop_stale(stamps, now, window).len()
            + dispatch_count(stamps, pending, now, window, limit) >= limit,
        drop_stale(stamps, now, window).len() < limit ==> dispatch_count(stamps, pending, now, window, limit)
            == (if pending <= limit - drop_stale(stamps, now, window).len() {
            pending as int
        } else {
            limit - drop_stale(stamps, now, window).len()
        }),
{
}

} // verus!
