use jlh_maps::task_pool::{TaskPool, TaskPoolBackendKind};
use jlh_maps::tile_task::{TileSyncAction, TileTaskBased, TileTaskBasedRevision};

type Entry = TileTaskBased<&'static str, u32, u8>;

fn entry() -> Entry {
    TileTaskBased::from_parts("config", 7)
}

#[test]
fn revisions_start_empty_and_reset() {
    let revision = TileTaskBasedRevision::default();
    assert!(revision.is_empty());
    assert_eq!(revision.tile_revision(), None);
    let mut tile = entry();
    assert_eq!(tile.sync(Some(1), Some(9)), TileSyncAction::Build { discard: true });
    let mut revision = tile.revision();
    assert!(!revision.is_empty());
    assert_eq!(revision.tile_revision(), Some(1));
    assert_eq!(revision.terrain_hash(), Some(9));
    revision.reset();
    assert!(revision.is_empty());
}

#[test]
fn a_new_tile_is_built_once() {
    let mut tile = entry();
    assert_eq!(tile.sync(Some(3), None), TileSyncAction::Build { discard: true });
    assert_eq!(tile.sync(Some(3), None), TileSyncAction::Keep);
    assert_eq!(*tile.config(), "config");
    assert_eq!(*tile.state(), 7);
}

#[test]
fn changes_drop_the_data_and_rebuild() {
    let mut pool: TaskPool<u32, fn() -> u32> = TaskPool::builder().backend(TaskPoolBackendKind::Manual).build();
    let mut tile = entry();
    assert_eq!(tile.sync(Some(3), None), TileSyncAction::Build { discard: true });
    tile.set_pending_task(pool.spawn(|| 11));
    pool.tick_until_empty();
    let mut task = tile.take_pending_task().unwrap();
    let data = task.take_result(&mut pool);
    tile.set_data(data);
    assert_eq!(tile.data(), Some(&11));
    assert_eq!(tile.data_revision(), 1);

    assert_eq!(tile.sync(Some(3), Some(5)), TileSyncAction::Build { discard: true });
    assert_eq!(tile.data(), None);
    assert!(tile.pending_task().is_none());
    assert_eq!(tile.sync(Some(4), Some(5)), TileSyncAction::Build { discard: true });
    assert_eq!(tile.sync(Some(4), Some(5)), TileSyncAction::Keep);
}

#[test]
fn removed_tiles_lose_their_data_once() {
    let mut tile = entry();
    assert_eq!(tile.sync(None, None), TileSyncAction::Keep);
    assert_eq!(tile.sync(Some(1), None), TileSyncAction::Build { discard: true });
    tile.set_data(Some(5));
    assert_eq!(tile.sync(None, None), TileSyncAction::Remove);
    assert_eq!(tile.data(), None);
    tile.set_data(None);
    assert_eq!(tile.data_revision(), 2);
    assert!(tile.revision().is_empty());
    assert_eq!(tile.sync(None, None), TileSyncAction::Keep);
    assert_eq!(tile.data_revision(), 2);
    assert!(tile.pending_task().is_none());
    assert_eq!(tile.sync(Some(1), None), TileSyncAction::Build { discard: true });
}
