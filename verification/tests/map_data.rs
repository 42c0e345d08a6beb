use jlh_maps::canonical::CanonicalTileId;
use jlh_maps::map_data::{MlData, MlTile};
use jlh_maps::task_pool::{TaskPool, TaskPoolBackendKind};
use jlh_maps::text_map::TextMap;

type Parse = Box<dyn FnOnce() -> Result<MlTile<u32>, String>>;
type Pool = TaskPool<Result<MlTile<u32>, String>, Parse>;

fn pool() -> Pool {
    TaskPool::builder().backend(TaskPoolBackendKind::Manual).build()
}

fn id(x: u32) -> CanonicalTileId {
    CanonicalTileId { z: 3, x, y: 4 }
}

fn tile(tile_id: CanonicalTileId, revision: u64, layer_names: &[&str]) -> MlTile<u32> {
    let mut layers = TextMap::new();
    for (i, name) in layer_names.iter().enumerate() {
        layers.insert(name.to_string(), i as u32);
    }
    MlTile { id: tile_id, revision, layers }
}

fn parse_ok(tile_id: CanonicalTileId, revision: u64, layer_names: &'static [&'static str]) -> Parse {
    Box::new(move || Ok(tile(tile_id, revision, layer_names)))
}

fn parse_err() -> Parse {
    Box::new(|| Err("broken tile".to_string()))
}

fn revision_of(data: &MlData<u32>, source: &str, tile_id: CanonicalTileId) -> Option<u64> {
    data.sources().tile(source, tile_id).map(|t| t.revision)
}

#[test]
fn finished_parse_is_applied_under_its_source() {
    let mut pool = pool();
    let mut data: MlData<u32> = MlData::new();
    let revision = data.next_tile_revision();
    assert_eq!(revision, 1);
    let r = data.update_tile("roads".to_string(), id(1), parse_ok(id(1), revision, &["road"]), &mut pool);
    assert_eq!(r, 1);

    data.apply_pending_tile_parse_results(&mut pool);
    assert_eq!(revision_of(&data, "roads", id(1)), None);

    pool.tick_until_empty();
    data.apply_pending_tile_parse_results(&mut pool);
    assert_eq!(revision_of(&data, "roads", id(1)), Some(1));
    assert_eq!(revision_of(&data, "water", id(1)), None);
}

#[test]
fn only_the_latest_parse_of_a_tile_is_applied() {
    let mut pool = pool();
    let mut data: MlData<u32> = MlData::new();
    let first = data.next_tile_revision();
    data.update_tile("roads".to_string(), id(1), parse_ok(id(1), first, &["road"]), &mut pool);
    let second = data.next_tile_revision();
    assert_eq!(second, 2);
    data.update_tile("roads".to_string(), id(1), parse_ok(id(1), second, &["road"]), &mut pool);

    pool.tick_until_empty();
    data.apply_pending_tile_parse_results(&mut pool);
    assert_eq!(revision_of(&data, "roads", id(1)), Some(2));
}

#[test]
fn empty_tiles_are_ignored_and_failures_drop_the_tile() {
    let mut pool = pool();
    let mut data: MlData<u32> = MlData::new();
    let r = data.next_tile_revision();
    data.update_tile("roads".to_string(), id(1), parse_ok(id(1), r, &["road"]), &mut pool);
    pool.tick_until_empty();
    data.apply_pending_tile_parse_results(&mut pool);

    let r = data.next_tile_revision();
    data.update_tile("roads".to_string(), id(1), parse_ok(id(1), r, &[]), &mut pool);
    pool.tick_until_empty();
    data.apply_pending_tile_parse_results(&mut pool);
    assert_eq!(revision_of(&data, "roads", id(1)), Some(1));

    data.update_tile("roads".to_string(), id(1), parse_err(), &mut pool);
    pool.tick_until_empty();
    data.apply_pending_tile_parse_results(&mut pool);
    assert_eq!(revision_of(&data, "roads", id(1)), None);
}

#[test]
fn removed_tile_is_not_brought_back_by_its_parse() {
    let mut pool = pool();
    let mut data: MlData<u32> = MlData::new();
    let r = data.next_tile_revision();
    data.update_tile("roads".to_string(), id(2), parse_ok(id(2), r, &["road"]), &mut pool);
    data.remove_tile("roads", id(2));
    pool.tick_until_empty();
    data.apply_pending_tile_parse_results(&mut pool);
    assert_eq!(revision_of(&data, "roads", id(2)), None);
}

#[test]
fn renderable_tiles_are_replaced_per_source() {
    let mut data: MlData<u32> = MlData::new();
    data.set_renderable_tiles("roads".to_string(), vec![id(1), id(2)]);
    assert!(data.sources().is_renderable("roads", id(2)));
    assert!(!data.sources().is_renderable("water", id(2)));
    data.set_renderable_tiles("roads".to_string(), vec![id(3)]);
    assert!(!data.sources().is_renderable("roads", id(2)));
    assert!(data.sources().is_renderable("roads", id(3)));
}

#[test]
fn updates_hand_out_increasing_revisions_and_queue_one_parse_each() {
    let mut pool = pool();
    let mut data: MlData<u32> = MlData::default();
    let first = data.next_tile_revision();
    assert_eq!(data.update_tile("roads".to_string(), id(5), parse_ok(id(5), first, &["road"]), &mut pool), 1);
    let second = data.next_tile_revision();
    assert_eq!(data.update_tile("roads".to_string(), id(5), parse_ok(id(5), second, &["road"]), &mut pool), 2);
    assert_eq!(pool.queued_len(), 2);
    assert_eq!(revision_of(&data, "roads", id(5)), None);

    data.apply_pending_tile_parse_results(&mut pool);
    assert_eq!(revision_of(&data, "roads", id(5)), None);

    pool.tick_until_empty();
    data.apply_pending_tile_parse_results(&mut pool);
    assert_eq!(revision_of(&data, "roads", id(5)), Some(2));
}
