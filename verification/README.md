# airjedi

The decision-making core of the AirJedi ADS-B map viewer, written in Verus
and proved against its contracts.

- `src/` — the verified library:
  - `tiles/` — zoom levels and tile keys, tile URLs and cache file names,
    tile response validation, the download rate limiter with its priority
    buffer, failure cooldowns, the retry loop's decisions, the tile entity
    pool and grid, eviction of held tile images, elevation tile sources, and
    the integer parts of tile display (grid overlay texture, 3D zoom bands,
    reading a grid key back from a cached file name).
  - `adsb/` — position-source enrichment lines and endpoints, feed status
    texts, and the reconnection plan when the feed configuration changes.
  - `aircraft/` — altitude-band and position-source statistics, labels,
    durations, and the choice of 3D model.
  - `fusion.rs` — what the map does with fused tracks (visual actions,
    callsign merging, landing candidates, expiry, status texts and colours).
  - `zoom.rs`, `render_layers.rs`, `widgets.rs`, `text.rs` — zoom stepping,
    camera layer lists, flight-display tape logic, and decimal text.
- `tests/` — tests run against the compiled library.
- `app/` — the shell around the library: sockets, HTTP, the tile cache on
  disk, background threads and floating-point geometry.
