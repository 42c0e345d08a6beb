//! Tile bookkeeping, task scheduling and vector-tile helpers for the map
//! client and the ingestion pipeline, with their contracts proved by Verus.
//!
//! Map client: the background task pool (`task_pool`, `app_task_pool`),
//! MapLibre tile ids and neighbourhoods (`canonical`), feature ids of parsed
//! tiles (`feature_ids`), per-source-tile tables (`tile_table`), parse
//! revisions (`tile_parses`), the sources' tiles and their parses
//! (`map_data`), bucket and terrain tile syncing (`bucket_sync`,
//! `terrain_tiles`), entity spawners (`entity_spawner`), derived tile data
//! (`tile_task`), the staggered flow grid (`mac_grid`), lights (`lighting`),
//! the map view's texture atlas (`map_view`), browser input events
//! (`web_input`).
//!
//! Ingestion pipeline: slippy tiles and chunk splitting (`tiles`), names in
//! tile directory trees (`file_names`), PMTiles ordering and checks
//! (`mvt_archive`), the archive's layer listing (`vector_layers`), and the
//! element keys of the map service (`osm_element`).
//!
//! Shared: decimal numbers (`decimal`), sorting (`key_sort`), text-ordered
//! maps (`text_map`).

pub mod decimal;
pub mod key_sort;
pub mod text_map;

pub mod app_task_pool;
pub mod bucket_sync;
pub mod canonical;
pub mod entity_spawner;
pub mod feature_ids;
pub mod lighting;
pub mod map_data;
pub mod map_view;
pub mod mac_grid;
pub mod task_pool;
pub mod terrain_tiles;
pub mod tile_parses;
pub mod tile_table;
pub mod tile_task;
pub mod web_input;

pub mod file_names;
pub mod mvt_archive;
pub mod osm_element;
pub mod tiles;
pub mod vector_layers;
