use jlh_maps::canonical::{
    experiment_tile_ids, parse_serialized_canonical_tile_id, parse_serialized_canonical_tile_ids, tile_label, CanonicalTileId, TileCoordinate, TileKeyError,
};

fn tile(z: u32, x: u32, y: u32) -> CanonicalTileId {
    CanonicalTileId { z, x, y }
}

#[test]
fn parses_tile_keys() {
    assert_eq!(parse_serialized_canonical_tile_id("14/8800/5372"), Ok(tile(14, 8800, 5372)));
    assert_eq!(parse_serialized_canonical_tile_id("0/0/0"), Ok(tile(0, 0, 0)));
    assert_eq!(parse_serialized_canonical_tile_id("3/+1/2"), Ok(tile(3, 1, 2)));
}

#[test]
fn extra_fields_are_ignored() {
    assert_eq!(parse_serialized_canonical_tile_id("1/2/3/4"), Ok(tile(1, 2, 3)));
}

#[test]
fn missing_coordinates_are_reported() {
    assert_eq!(
        parse_serialized_canonical_tile_id("14/8800"),
        Err(TileKeyError::Missing(TileCoordinate::Y))
    );
    assert_eq!(
        parse_serialized_canonical_tile_id("14"),
        Err(TileKeyError::Missing(TileCoordinate::X))
    );
}

#[test]
fn invalid_coordinates_are_reported() {
    assert_eq!(parse_serialized_canonical_tile_id(""), Err(TileKeyError::Invalid(TileCoordinate::Z)));
    assert_eq!(
        parse_serialized_canonical_tile_id("1/x/3"),
        Err(TileKeyError::Invalid(TileCoordinate::X))
    );
    assert_eq!(
        parse_serialized_canonical_tile_id("1/2/4294967296"),
        Err(TileKeyError::Invalid(TileCoordinate::Y))
    );
}

#[test]
fn labels_use_slashes() {
    assert_eq!(tile_label(tile(14, 8800, 5372)), "14/8800/5372");
}

#[test]
fn neighbourhood_of_an_inner_tile_has_nine_tiles() {
    let ids = experiment_tile_ids(tile(2, 1, 1));
    assert_eq!(
        ids,
        vec![
            tile(2, 0, 0),
            tile(2, 1, 0),
            tile(2, 2, 0),
            tile(2, 0, 1),
            tile(2, 1, 1),
            tile(2, 2, 1),
            tile(2, 0, 2),
            tile(2, 1, 2),
            tile(2, 2, 2),
        ]
    );
}

#[test]
fn neighbourhood_is_clipped_at_the_edges() {
    assert_eq!(experiment_tile_ids(tile(0, 0, 0)), vec![tile(0, 0, 0)]);
    assert_eq!(
        experiment_tile_ids(tile(1, 0, 0)),
        vec![tile(1, 0, 0), tile(1, 1, 0), tile(1, 0, 1), tile(1, 1, 1)]
    );
}

#[test]
fn neighbourhood_is_empty_beyond_zoom_62() {
    assert!(experiment_tile_ids(tile(63, 0, 0)).is_empty());
    assert_eq!(experiment_tile_ids(tile(62, 0, 0)).len(), 4);
}

#[test]
fn labels_read_back_as_the_same_tile() {
    for id in [tile(0, 0, 0), tile(14, 8800, 5372), tile(u32::MAX, 10, u32::MAX)] {
        assert_eq!(parse_serialized_canonical_tile_id(&tile_label(id)), Ok(id));
    }
}

#[test]
fn tile_id_lists_parse_in_order() {
    let ids = vec!["1/0/1".to_string(), "14/8800/5372".to_string()];
    assert_eq!(parse_serialized_canonical_tile_ids(&ids), Ok(vec![tile(1, 0, 1), tile(14, 8800, 5372)]));
    assert_eq!(parse_serialized_canonical_tile_ids(&[]), Ok(vec![]));
}

#[test]
fn tile_id_lists_report_the_first_rejected_id() {
    let ids = vec!["1/0/1".to_string(), "2/x/1".to_string(), "3".to_string()];
    assert_eq!(
        parse_serialized_canonical_tile_ids(&ids),
        Err(TileKeyError::Invalid(TileCoordinate::X))
    );
}
