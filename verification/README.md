# jlh_maps

A Verus-verified library with the logic of a web map client (tile
bookkeeping, a background task pool, staggered flow grids) and of an
OpenStreetMap ingestion pipeline (slippy-tile splitting, PMTiles packing,
vector-layer listings). Verus proves every function in `src/` against its
contract; calls into `pmtiles` and `geozero` go through
small trusted wrappers whose contracts restate the crates' documented
behaviour.

Layout:

- `src/` — the verified library (see the module list in `src/lib.rs`).
- `tests/` — tests of the library on concrete values.
- `app/` — the parts that are not verified: file system walks and writes,
  JSON, and the floating-point arithmetic of geographic bounds and GeoJSON
  filtering.
