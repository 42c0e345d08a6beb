use jlh_maps::canonical::CanonicalTileId;
use jlh_maps::tile_parses::TileParses;
use jlh_maps::tile_table::MlTileKey;

fn tile(z: u32, x: u32, y: u32) -> CanonicalTileId {
    CanonicalTileId { z, x, y }
}

#[test]
fn updates_get_increasing_revisions() {
    let mut parses: TileParses<&str> = TileParses::new();
    assert_eq!(parses.update_tile(MlTileKey::new("roads".to_string(), tile(1, 0, 0)), "a"), 1);
    assert_eq!(parses.update_tile(MlTileKey::new("roads".to_string(), tile(1, 1, 0)), "b"), 2);
    assert_eq!(parses.update_tile(MlTileKey::new("water".to_string(), tile(1, 0, 0)), "c"), 3);
    assert_eq!(parses.entries().len(), 3);
}

#[test]
fn a_stale_parse_is_not_applied() {
    let mut parses: TileParses<&str> = TileParses::new();
    let first = parses.update_tile(MlTileKey::new("roads".to_string(), tile(2, 1, 1)), "old");
    let second = parses.update_tile(MlTileKey::new("roads".to_string(), tile(2, 1, 1)), "new");
    assert_eq!(parses.entries().len(), 1);
    assert_eq!(parses.complete("roads", tile(2, 1, 1), first), None);
    assert_eq!(parses.complete("roads", tile(2, 1, 1), second), Some("new"));
    assert_eq!(parses.complete("roads", tile(2, 1, 1), second), None);
    assert!(parses.entries().is_empty());
}

#[test]
fn removed_tiles_have_nothing_to_apply() {
    let mut parses: TileParses<u8> = TileParses::new();
    let revision = parses.update_tile(MlTileKey::new("roads".to_string(), tile(0, 0, 0)), 1);
    parses.remove_tile("roads", tile(0, 0, 0));
    parses.remove_tile("water", tile(0, 0, 0));
    assert_eq!(parses.complete("roads", tile(0, 0, 0), revision), None);
    let key = MlTileKey::new("water".to_string(), tile(3, 2, 1));
    assert_eq!(key.source_id(), "water");
    assert_eq!(key.tile_id(), tile(3, 2, 1));
}
