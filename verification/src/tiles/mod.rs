//! Slippy-map tile system: tile types, coordinates, download scheduling, the
//! tile entity pool and grid, the tile images held in memory, elevation
//! sources, and the integer parts of tile display.

pub mod asset_cache;
pub mod coords;
pub mod download;
pub mod elevation;
pub mod pool;
pub mod render;
pub mod types;
