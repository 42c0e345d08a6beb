use jlh_maps::file_names::{
    is_geojson_file_name, is_mvt_file_name, is_pbf_file_name, parse_column_component, parse_zoom_component,
    tile_y_from_file_name,
};
use jlh_maps::mvt_archive::{order_mvt_inputs, zoom_range_for_tiles, MvtInput, MvtTilesError};
use jlh_maps::tiles::SlippyTile;

fn input(z: u8, x: u32, y: u32, source: usize) -> MvtInput {
    MvtInput::new(z, x, y, source).unwrap()
}

#[test]
fn mvt_files_are_recognised_by_extension() {
    assert!(is_mvt_file_name(b"2686.mvt"));
    assert!(is_mvt_file_name(b"2686.MVT"));
    assert!(is_mvt_file_name(b"a.b.Mvt"));
    assert!(!is_mvt_file_name(b".mvt"));
    assert!(!is_mvt_file_name(b"2686.mvt.gz"));
    assert!(!is_mvt_file_name(b"2686"));
    assert!(!is_mvt_file_name(b".."));
    assert!(!is_mvt_file_name(b"2686.pbf"));
}

#[test]
fn geojson_and_pbf_files_are_recognised_by_extension() {
    assert!(is_geojson_file_name(b"roads.geojson"));
    assert!(is_geojson_file_name(b"roads.GeoJSON"));
    assert!(!is_geojson_file_name(b"roads.json"));
    assert!(is_pbf_file_name(b"13-4400-2686.osm.pbf"));
    assert!(is_pbf_file_name(b"berlin.PBF"));
    assert!(!is_pbf_file_name(b"pbf"));
}

#[test]
fn tile_rows_come_from_the_file_stem() {
    assert_eq!(tile_y_from_file_name(b"2686.mvt"), Some(2686));
    assert_eq!(tile_y_from_file_name(b"+7.mvt"), Some(7));
    assert_eq!(tile_y_from_file_name(b"1.2.mvt"), None);
    assert_eq!(tile_y_from_file_name(b"12"), Some(12));
    assert_eq!(tile_y_from_file_name(b"y.mvt"), None);
}

#[test]
fn directory_names_parse_as_integers() {
    assert_eq!(parse_zoom_component(b"13"), Some(13));
    assert_eq!(parse_zoom_component(b"255"), Some(255));
    assert_eq!(parse_zoom_component(b"256"), None);
    assert_eq!(parse_zoom_component(b"z13"), None);
    assert_eq!(parse_column_component(b"4400"), Some(4400));
    assert_eq!(parse_column_component(b""), None);
}

#[test]
fn coordinates_outside_pmtiles_are_refused() {
    assert!(matches!(MvtInput::new(32, 0, 0, 0), Err(MvtTilesError::InvalidCoordinate { z: 32, x: 0, y: 0 })));
    assert!(matches!(MvtInput::new(2, 4, 0, 1), Err(MvtTilesError::InvalidCoordinate { z: 2, x: 4, y: 0 })));
    assert!(matches!(MvtInput::new(2, 0, 4, 1), Err(MvtTilesError::InvalidCoordinate { .. })));
}

#[test]
fn inputs_carry_their_pmtiles_ids() {
    assert_eq!(input(0, 0, 0, 0).tile_id(), 0);
    assert_eq!(input(1, 1, 0, 0).tile_id(), 4);
    assert_eq!(input(2, 1, 3, 0).tile_id(), 11);
    assert_eq!(input(3, 3, 0, 0).tile_id(), 26);
    assert_eq!(input(20, 0, 0, 0).tile_id(), 366503875925);
    let tile = input(13, 4400, 2686, 9);
    assert_eq!(tile.tile(), SlippyTile { z: 13, x: 4400, y: 2686 });
    assert_eq!(tile.source(), 9);
    assert_eq!(tile.coord().z(), 13);
}

#[test]
fn tiles_are_ordered_by_pmtiles_id() {
    let tiles = vec![input(3, 3, 0, 0), input(0, 0, 0, 1), input(2, 1, 3, 2), input(1, 1, 0, 3)];
    let ordered = order_mvt_inputs(tiles).unwrap();
    let ids: Vec<u64> = ordered.iter().map(|t| t.tile_id()).collect();
    assert_eq!(ids, vec![0, 4, 11, 26]);
    let sources: Vec<usize> = ordered.iter().map(|t| t.source()).collect();
    assert_eq!(sources, vec![1, 3, 2, 0]);
}

#[test]
fn duplicate_tiles_are_refused() {
    let tiles = vec![input(13, 4400, 2686, 0), input(1, 0, 0, 1), input(13, 4400, 2686, 2)];
    match order_mvt_inputs(tiles) {
        Err(MvtTilesError::DuplicateTile { tile, first, second }) => {
            assert_eq!(tile, SlippyTile { z: 13, x: 4400, y: 2686 });
            assert_eq!((first, second), (0, 2));
        }
        _ => panic!("expected a duplicate"),
    }
}

#[test]
fn the_lowest_duplicate_is_reported() {
    let tiles = vec![input(5, 1, 1, 0), input(2, 0, 0, 1), input(5, 1, 1, 2), input(2, 0, 0, 3)];
    match order_mvt_inputs(tiles) {
        Err(MvtTilesError::DuplicateTile { tile, first, second }) => {
            assert_eq!(tile, SlippyTile { z: 2, x: 0, y: 0 });
            assert_eq!((first, second), (1, 3));
        }
        _ => panic!("expected a duplicate"),
    }
}

#[test]
fn no_tiles_order_to_no_tiles() {
    assert!(order_mvt_inputs(Vec::new()).unwrap().is_empty());
}

#[test]
fn computes_zoom_range_from_tiles() {
    let tiles = vec![input(13, 4400, 2686, 0), input(13, 4401, 2687, 1), input(14, 8800, 5372, 2)];
    assert_eq!(zoom_range_for_tiles(&tiles), Some((13, 14)));
    assert_eq!(zoom_range_for_tiles(&[]), None);
}

#[test]
fn a_tile_found_three_times_reports_its_first_two_entries() {
    let tiles = vec![
        input(4, 2, 2, 0),
        input(4, 3, 3, 1),
        input(4, 3, 3, 2),
        input(4, 3, 3, 3),
    ];
    match order_mvt_inputs(tiles) {
        Err(MvtTilesError::DuplicateTile { tile, first, second }) => {
            assert_eq!(tile, SlippyTile { z: 4, x: 3, y: 3 });
            assert_eq!((first, second), (1, 2));
        }
        _ => panic!("expected a duplicate"),
    }
}

#[test]
fn inputs_carry_the_pmtiles_coordinate_of_their_tile() {
    let tile = MvtInput::new(13, 4400, 2686, 7).unwrap();
    let coord = tile.coord();
    assert_eq!((coord.z(), coord.x(), coord.y()), (13, 4400, 2686));
}
