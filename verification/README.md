# osmviews

Point queries against a downloaded [OSMViews](https://osmviews.toolforge.org)
raster, a world-wide ranking of places by how much they are looked at on
OpenStreetMap-based maps.

The library under `src/` is written in Verus and proved against its contracts:

- `tiff.rs` validates the GeoTIFF header (`parse`), reads the tile tables and
  locates the tile and in-tile position of a pixel (`Header::locate`). A file
  that `parse` accepts has every tile inside it.
- `tile.rs` decodes a tile, stored raw or zlib-compressed, into the bit
  patterns of its 32-bit float samples (`decode_tile`).
- `cache.rs` is the LRU cache of decoded tiles keyed by the offset of their
  stored data, with the query counters (`Cache`), and the laws it obeys,
  among them that a cache faithful to the file answers every query exactly as
  decoding the stored tile does, and stays faithful whatever it evicts.

`app/` holds what the verifier does not see: memory-mapping the file, the
mutex around the cache, timing, and the floating-point parts (the Web Mercator
projection and the scaling of a sample against the raster's maximum). It
exposes the `OsmViews` type with `open`, `rank` and `metrics`.
