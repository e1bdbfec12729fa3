//! Point queries against a downloaded OSMViews raster: the verified core.
//!
//! The raster is a single-level, tiled, little-endian GeoTIFF of 32-bit float
//! samples. This crate validates its header, locates the tile that holds a
//! pixel, decodes tiles into their raw sample bits, and keeps a small LRU cache
//! of decoded tiles together with the diagnostic counters.

use vstd::prelude::*;

pub mod cache;
pub mod tiff;
pub mod tile;

pub use cache::{Cache, CacheView};
pub use tiff::{parse, Header, MaxSample, TileOffset, TileRef};
pub use tile::decode_tile;

verus! {

/// Where the OSMViews raster is published.
///
/// Nothing here downloads it; the file behind the URL is regenerated weekly
/// and is roughly 594 MB.
pub const DOWNLOAD_URL: &'static str = "https://osmviews.toolforge.org/download/osmviews.tiff";

/// Decoded-tile cache capacity used by default, in tiles. Each tile is a fixed
/// 256 KiB, so this is about 16 MiB.
pub const DEFAULT_CACHE_TILES: usize = 64;

/// Declares `std::io::Error` so that `Error::Io` can carry one; its contents
/// stay opaque.
#[verifier::external_type_specification]
#[verifier::external_body]
pub struct ExIoError(std::io::Error);

/// An error from opening a raster.
#[derive(Debug)]
pub enum Error {
    /// The file could not be opened or memory-mapped.
    Io(std::io::Error),
    /// The file is not a TIFF, or not an OSMViews raster this crate can read.
    Format(&'static str),
}

/// Diagnostic counters from a raster's query engine.
///
/// Every field except the `tiles_cached` / `tile_cache_capacity` gauges counts
/// monotonically since the raster was opened. The cache's memory footprint is
/// `tiles_cached * 256 KiB`.
#[derive(Debug, Clone, Copy)]
pub struct Metrics {
    /// Total point queries.
    pub queries: u64,
    /// Queries whose coordinates fell outside the covered area.
    pub out_of_range: u64,
    /// Tile lookups served from the cache.
    pub tile_cache_hits: u64,
    /// Tile lookups that missed and triggered a decode.
    pub tile_cache_misses: u64,
    /// Tiles actually decoded. Exceeds `tile_cache_misses` only when threads
    /// race to decode the same tile.
    pub tiles_decoded: u64,
    /// Cache entries dropped to make room.
    pub tile_cache_evictions: u64,
    /// Tiles currently held in the cache.
    pub tiles_cached: usize,
    /// Configured cache capacity, in tiles.
    pub tile_cache_capacity: usize,
    /// Cumulative wall-clock time spent reading and decompressing tiles.
    pub decode_time: std::time::Duration,
}

} // verus!
