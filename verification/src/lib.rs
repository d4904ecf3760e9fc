//! Verified core of the AirJedi map viewer: slippy-tile keys, URLs and cache
//! names; tile download scheduling (rate limiter, priorities, cooldowns,
//! retries); the tile entity pool and grid; eviction of held tile images;
//! feed and enrichment bookkeeping; aircraft statistics and labels; the
//! presentation decisions about fused tracks; zoom stepping; render layers;
//! and the integer logic of the flight-display widgets.

pub mod adsb;
pub mod aircraft;
pub mod fusion;
pub mod render_layers;
pub mod text;
pub mod tiles;
pub mod widgets;
pub mod zoom;
