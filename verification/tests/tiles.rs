use jlh_maps::tiles::{
    pow2_u32, target_tiles_for_chunk, target_tiles_for_chunks, validate_tile_options, SlippyTile, TileOptionsError, TileRange, TileSplitError,
    DEFAULT_MVT_BUFFER, DEFAULT_MVT_EXTENT, MAX_MVT_ZOOM,
};

fn tolerance_is_valid(tolerance: f64) -> bool {
    tolerance.is_finite() && tolerance >= 0.0
}

#[test]
fn lower_zoom_uses_parent_tile_for_merging() {
    let tiles = target_tiles_for_chunk(
        SlippyTile {
            z: 13,
            x: 4400,
            y: 2686,
        },
        12,
    )
    .unwrap();
    assert_eq!(
        tiles,
        vec![SlippyTile {
            z: 12,
            x: 2200,
            y: 1343
        }]
    );
}

#[test]
fn child_tiles_are_used_when_target_zoom_is_higher_than_chunk() {
    let tiles = target_tiles_for_chunk(
        SlippyTile {
            z: 13,
            x: 4400,
            y: 2686,
        },
        14,
    )
    .unwrap();
    assert_eq!(
        tiles,
        vec![
            SlippyTile {
                z: 14,
                x: 8800,
                y: 5372
            },
            SlippyTile {
                z: 14,
                x: 8800,
                y: 5373
            },
            SlippyTile {
                z: 14,
                x: 8801,
                y: 5372
            },
            SlippyTile {
                z: 14,
                x: 8801,
                y: 5373
            },
        ]
    );
}

#[test]
fn same_zoom_keeps_the_chunk() {
    let chunk = SlippyTile { z: 13, x: 4400, y: 2686 };
    assert_eq!(target_tiles_for_chunk(chunk, 13).unwrap(), vec![chunk]);
}

#[test]
fn chunk_zoom_above_the_limit_is_refused() {
    let chunk = SlippyTile { z: MAX_MVT_ZOOM + 1, x: 0, y: 0 };
    assert_eq!(target_tiles_for_chunk(chunk, 10), Err(TileSplitError::ChunkZoomTooLarge));
}

#[test]
fn zoom_gap_of_32_levels_is_refused() {
    let chunk = SlippyTile { z: 0, x: 0, y: 0 };
    assert_eq!(target_tiles_for_chunk(chunk, 32), Err(TileSplitError::ZoomDeltaTooLarge));
}

#[test]
fn child_columns_beyond_u32_are_refused() {
    let chunk = SlippyTile { z: 20, x: 1 << 20, y: 0 };
    assert_eq!(target_tiles_for_chunk(chunk, 32), Err(TileSplitError::XOverflow));
    let chunk = SlippyTile { z: 20, x: 0, y: 1 << 20 };
    assert_eq!(target_tiles_for_chunk(chunk, 32), Err(TileSplitError::YOverflow));
}

#[test]
fn tile_names_join_zoom_column_and_row() {
    assert_eq!(SlippyTile { z: 13, x: 4400, y: 2686 }.id(), "13-4400-2686");
    assert_eq!(SlippyTile { z: 0, x: 0, y: 0 }.id(), "0-0-0");
}

#[test]
fn tile_range_lists_tiles_column_by_column() {
    let range = TileRange { z: 13, min_x: 4400, max_x: 4402, min_y: 2686, max_y: 2687 };
    assert_eq!(range.tile_count(), 6);
    let names: Vec<String> = range.tiles().iter().map(|tile| tile.id()).collect();
    assert_eq!(
        names,
        vec!["13-4400-2686", "13-4400-2687", "13-4401-2686", "13-4401-2687", "13-4402-2686", "13-4402-2687"]
    );
}

#[test]
fn empty_tile_range_has_no_tiles() {
    let range = TileRange { z: 5, min_x: 3, max_x: 2, min_y: 0, max_y: 4 };
    assert_eq!(range.tile_count(), 0);
    assert!(range.tiles().is_empty());
}

#[test]
fn powers_of_two_up_to_31() {
    assert_eq!(pow2_u32(0), 1);
    assert_eq!(pow2_u32(13), 8192);
    assert_eq!(pow2_u32(31), 1 << 31);
}

#[test]
fn default_mvt_options_preserve_geometry_precision() {
    let (extent, buffer, tolerance) = (DEFAULT_MVT_EXTENT, DEFAULT_MVT_BUFFER, 0.0);
    validate_tile_options(extent, buffer, tolerance_is_valid(tolerance)).unwrap();
    assert_eq!(extent, 4096);
    assert_eq!(buffer, 64);
    assert_eq!(tolerance, 0.0);
}

#[test]
fn rejects_lossy_or_invalid_mvt_options() {
    let (extent, buffer) = (DEFAULT_MVT_EXTENT, DEFAULT_MVT_BUFFER);
    assert!(validate_tile_options(extent, buffer, tolerance_is_valid(-1.0)).is_err());
    assert!(validate_tile_options(extent, extent, tolerance_is_valid(0.0)).is_err());
    assert!(validate_tile_options(0, buffer, tolerance_is_valid(0.0)).is_err());
}

#[test]
fn tile_option_errors_come_in_order() {
    assert_eq!(validate_tile_options(0, 0, false), Err(TileOptionsError::ZeroExtent));
    assert_eq!(validate_tile_options(4096, 5000, false), Err(TileOptionsError::InvalidTolerance));
    assert_eq!(validate_tile_options(4096, 4096, true), Err(TileOptionsError::BufferNotBelowExtent));
    assert_eq!(validate_tile_options(4096, 4095, true), Ok(()));
    assert!(!tolerance_is_valid(f64::NAN));
}

#[test]
fn chunk_targets_are_merged_and_ordered() {
    let chunks = [
        SlippyTile { z: 13, x: 4401, y: 2686 },
        SlippyTile { z: 13, x: 4400, y: 2687 },
        SlippyTile { z: 13, x: 4400, y: 2686 },
        SlippyTile { z: 13, x: 4400, y: 2686 },
    ];
    assert_eq!(
        target_tiles_for_chunks(&chunks, 12).unwrap(),
        vec![SlippyTile { z: 12, x: 2200, y: 1343 }]
    );
    let names: Vec<String> = target_tiles_for_chunks(&chunks, 13).unwrap().iter().map(|t| t.id()).collect();
    assert_eq!(names, vec!["13-4400-2686", "13-4400-2687", "13-4401-2686"]);
    assert_eq!(target_tiles_for_chunks(&chunks, 14).unwrap().len(), 12);
    assert!(target_tiles_for_chunks(&[], 14).unwrap().is_empty());
}

#[test]
fn the_first_failing_chunk_decides_the_error() {
    let chunks = [
        SlippyTile { z: 13, x: 1, y: 1 },
        SlippyTile { z: 30, x: 0, y: 0 },
        SlippyTile { z: 0, x: 0, y: 0 },
    ];
    assert_eq!(target_tiles_for_chunks(&chunks, 14), Err(TileSplitError::ChunkZoomTooLarge));
    assert_eq!(target_tiles_for_chunks(&chunks[2..], 40), Err(TileSplitError::ZoomDeltaTooLarge));
}

#[test]
fn tile_range_lists_each_tile_once_in_ascending_order() {
    let range = TileRange { z: 6, min_x: 10, max_x: 14, min_y: 20, max_y: 23 };
    let tiles = range.tiles();
    assert_eq!(tiles.len() as u128, range.tile_count());
    for pair in tiles.windows(2) {
        assert!((pair[0].x, pair[0].y) < (pair[1].x, pair[1].y));
    }
    for x in 10..=14 {
        for y in 20..=23 {
            assert!(tiles.contains(&SlippyTile { z: 6, x, y }));
        }
    }
}
