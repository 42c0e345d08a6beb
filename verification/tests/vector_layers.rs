use geozero::mvt::tile::{Feature, Layer, Value};
use geozero::mvt::{Message, Tile};
use jlh_maps::vector_layers::{mvt_value_type, vector_layers_for_tiles, MvtLayerSummary, MvtValueKind, VectorLayerListing};

fn value(string: Option<&str>, number: Option<i64>, boolean: Option<bool>) -> Value {
    Value {
        string_value: string.map(|s| s.to_string()),
        float_value: None,
        double_value: None,
        int_value: number,
        uint_value: None,
        sint_value: None,
        bool_value: boolean,
    }
}

fn feature(tags: Vec<u32>) -> Feature {
    Feature { tags, ..Default::default() }
}

fn layer(name: &str, keys: &[&str], values: Vec<Value>, features: Vec<Feature>) -> Layer {
    Layer {
        version: 2,
        name: name.to_string(),
        features,
        keys: keys.iter().map(|k| k.to_string()).collect(),
        values,
        extent: Some(4096),
    }
}

fn names(listing: &[(String, Vec<(String, MvtValueKind)>)]) -> Vec<(String, Vec<(String, String)>)> {
    listing
        .iter()
        .map(|(name, fields)| {
            (name.clone(), fields.iter().map(|(k, t)| (k.clone(), t.listed_name())).collect())
        })
        .collect()
}

#[test]
fn value_kinds_prefer_boolean_then_string() {
    assert_eq!(mvt_value_type(true, true), MvtValueKind::Boolean);
    assert_eq!(mvt_value_type(false, true), MvtValueKind::String);
    assert_eq!(mvt_value_type(false, false), MvtValueKind::Number);
    assert_eq!(MvtValueKind::Number.listed_name(), "Number");
}

#[test]
fn layers_and_fields_are_listed_in_name_order() {
    let roads = layer(
        "roads",
        &["name", "lanes", "oneway"],
        vec![value(Some("Main"), None, None), value(None, Some(2), None), value(None, None, Some(true))],
        vec![feature(vec![0, 0, 1, 1]), feature(vec![2, 2, 1, 1, 7])],
    );
    let water = layer("water", &[], Vec::new(), vec![feature(Vec::new())]);
    let tile = Tile { layers: vec![water, roads] };
    let listing = vector_layers_for_tiles(&[tile.encode_to_vec()]).unwrap();
    assert_eq!(
        names(&listing),
        vec![
            (
                "roads".to_string(),
                vec![
                    ("lanes".to_string(), "Number".to_string()),
                    ("name".to_string(), "String".to_string()),
                    ("oneway".to_string(), "Boolean".to_string()),
                ]
            ),
            ("water".to_string(), Vec::new()),
        ]
    );
}

#[test]
fn fields_with_mixed_kinds_become_strings() {
    let first = layer("poi", &["rank"], vec![value(None, Some(1), None)], vec![feature(vec![0, 0])]);
    let second = layer("poi", &["rank"], vec![value(None, None, Some(false))], vec![feature(vec![0, 0])]);
    let tiles = vec![Tile { layers: vec![first] }.encode_to_vec(), Tile { layers: vec![second] }.encode_to_vec()];
    let listing = vector_layers_for_tiles(&tiles).unwrap();
    assert_eq!(names(&listing), vec![("poi".to_string(), vec![("rank".to_string(), "String".to_string())])]);
}

#[test]
fn out_of_range_tags_are_skipped() {
    let poi = layer("poi", &["rank"], vec![value(None, Some(1), None)], vec![feature(vec![0, 5, 3, 0])]);
    let listing = vector_layers_for_tiles(&[Tile { layers: vec![poi] }.encode_to_vec()]).unwrap();
    assert_eq!(names(&listing), vec![("poi".to_string(), Vec::new())]);
}

#[test]
fn undecodable_tiles_are_reported_by_position() {
    let good = Tile { layers: vec![layer("a", &[], Vec::new(), Vec::new())] }.encode_to_vec();
    let bad = vec![0xff, 0xff, 0xff];
    assert_eq!(vector_layers_for_tiles(&[good.clone(), bad, good]), Err(1));
}

#[test]
fn listings_can_be_built_from_summaries() {
    let mut listing = VectorLayerListing::new();
    listing.record_tile(&vec![MvtLayerSummary {
        name: "b".to_string(),
        keys: vec!["x".to_string()],
        value_flags: vec![(false, true), (false, false)],
        feature_tags: vec![vec![0, 0], vec![0, 0]],
    }]);
    listing.record_tile(&vec![MvtLayerSummary {
        name: "a".to_string(),
        keys: Vec::new(),
        value_flags: Vec::new(),
        feature_tags: Vec::new(),
    }]);
    let layers = listing.into_layers();
    assert_eq!(
        names(&layers),
        vec![("a".to_string(), Vec::new()), ("b".to_string(), vec![("x".to_string(), "String".to_string())])]
    );
}
