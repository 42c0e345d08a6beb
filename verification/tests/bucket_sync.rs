use jlh_maps::bucket_sync::{
    is_map_tile_kind_enabled, map_tile_kind_flags, map_tile_kinds, EnabledKinds, KindChange, MapTileKind,
    SpawnedBuckets,
};
use jlh_maps::canonical::CanonicalTileId;
use jlh_maps::tile_table::{MlTileKey, TileTable};

fn key(source: &str, x: u32) -> MlTileKey {
    MlTileKey::new(source.to_string(), CanonicalTileId { z: 5, x, y: 1 })
}

#[test]
fn buckets_follow_the_source_tiles() {
    let mut buckets: SpawnedBuckets<u32> = SpawnedBuckets::new();
    let wanted = vec![key("roads", 1), key("roads", 2), key("water", 1)];
    assert_eq!(buckets.missing_buckets(&wanted), vec![0, 1, 2]);
    for (i, index) in buckets.missing_buckets(&wanted).into_iter().enumerate() {
        let k = &wanted[index];
        buckets.record_spawned(MlTileKey::new(k.source_id().clone(), k.tile_id()), 100 + i as u32);
    }
    assert!(buckets.missing_buckets(&wanted).is_empty());

    let wanted = vec![key("roads", 2), key("roads", 3)];
    assert_eq!(buckets.missing_buckets(&wanted), vec![1]);
    let mut despawned: Vec<u32> = buckets.despawn_absent(&wanted).into_iter().map(|(_, e)| e).collect();
    despawned.sort();
    assert_eq!(despawned, vec![100, 102]);
    assert_eq!(buckets.bucket("roads", CanonicalTileId { z: 5, x: 2, y: 1 }), Some(&101));
    assert_eq!(buckets.bucket("water", CanonicalTileId { z: 5, x: 1, y: 1 }), None);
}

#[test]
fn table_keeps_one_value_per_source_tile() {
    let mut table: TileTable<MlTileKey, &str> = TileTable::new();
    table.insert(key("roads", 1), "a");
    table.insert(key("roads", 1), "b");
    table.insert(key("water", 1), "c");
    assert_eq!(table.len(), 2);
    assert_eq!(table.get(&key("roads", 1)), Some(&"b"));
    assert!(table.contains(&key("water", 1)));
    assert_eq!(table.remove(&key("roads", 1)), Some("b"));
    assert_eq!(table.remove(&key("roads", 1)), None);
    assert_eq!(table.entries().len(), 1);
    let removed = table.retain_keys(&[]);
    assert_eq!(removed.len(), 1);
    assert_eq!(table.len(), 0);
}

#[test]
fn tables_can_be_keyed_by_tile() {
    let mut table: TileTable<CanonicalTileId, u8> = TileTable::new();
    let a = CanonicalTileId { z: 1, x: 0, y: 0 };
    let b = CanonicalTileId { z: 1, x: 1, y: 0 };
    table.insert(a, 1);
    table.insert(b, 2);
    assert_eq!(table.missing(&[a, CanonicalTileId { z: 2, x: 0, y: 0 }]), vec![1]);
    let removed = table.retain_keys(&[b]);
    assert_eq!(removed, vec![(a, 1)]);
    assert_eq!(table.get(&b), Some(&2));
}

#[test]
fn enabled_kinds_report_each_flag_change_in_kind_order() {
    let mut kinds = EnabledKinds::new(3);
    assert!(!kinds.is_enabled(0));
    assert_eq!(
        kinds.sync(&[true, false, true]),
        vec![KindChange::Enable(0), KindChange::Enable(2)]
    );
    assert!(kinds.is_enabled(2));
    assert_eq!(
        kinds.sync(&[false, true, true]),
        vec![KindChange::Disable(0), KindChange::Enable(1)]
    );
    assert!(!kinds.is_enabled(0));
    assert!(kinds.is_enabled(1));
}

#[test]
fn enabled_kinds_settle_on_unchanged_flags() {
    let mut kinds = EnabledKinds::new(2);
    kinds.sync(&[true, false]);
    assert!(kinds.sync(&[true, false]).is_empty());
}

#[test]
fn map_tile_kinds_follow_the_view_settings() {
    assert_eq!(map_tile_kinds(), vec![MapTileKind::Water, MapTileKind::Building]);
    assert!(is_map_tile_kind_enabled(MapTileKind::Water, true, false));
    assert!(!is_map_tile_kind_enabled(MapTileKind::Building, true, false));
    let mut kinds = EnabledKinds::new(map_tile_kinds().len());
    assert_eq!(kinds.sync(&map_tile_kind_flags(false, true)), vec![KindChange::Enable(1)]);
    assert_eq!(
        kinds.sync(&map_tile_kind_flags(true, false)),
        vec![KindChange::Enable(0), KindChange::Disable(1)]
    );
}
