use jlh_maps::canonical::CanonicalTileId;
use jlh_maps::task_pool::{TaskPool, TaskPoolBackendKind};
use jlh_maps::terrain_tiles::{
    is_active, MlTerrain, MlTerrainTile, TerrainMesh, TerrainTileManager, TerrainTileMesh,
};

type Pool = TaskPool<u32, fn() -> u32>;

fn pool() -> Pool {
    TaskPool::builder().backend(TaskPoolBackendKind::Manual).build()
}

fn tile(x: u32) -> CanonicalTileId {
    CanonicalTileId { z: 3, x, y: 1 }
}

fn built(step_apply: &Option<TerrainMesh<u32>>) -> Option<u32> {
    match step_apply {
        Some(TerrainMesh::Built(m)) => Some(*m),
        _ => None,
    }
}

fn flat(step_apply: &Option<TerrainMesh<u32>>) -> bool {
    matches!(step_apply, Some(TerrainMesh::Flat))
}

#[test]
fn terrain_tiles_follow_the_active_set() {
    let mut manager: TerrainTileManager<&str> = TerrainTileManager::new();
    let active = [tile(1), tile(2)];
    assert_eq!(manager.missing_tiles(&active), vec![0, 1]);
    manager.record_spawned(tile(1), "one");
    manager.record_spawned(tile(2), "two");
    assert!(manager.missing_tiles(&active).is_empty());
    assert!(is_active(&active, tile(2)));
    assert!(!is_active(&active, tile(3)));

    let despawned = manager.despawn_unused(&[tile(2)], &[]);
    assert_eq!(despawned, vec![(tile(1), "one")]);
    let despawned = manager.despawn_unused(&[], &[tile(2)]);
    assert!(despawned.is_empty());
    assert_eq!(manager.spawned_tiles().len(), 1);
}

#[test]
fn meshes_are_built_for_the_current_terrain() {
    let mut pool = pool();
    let mut mesh: TerrainTileMesh<u32> = TerrainTileMesh::new();

    let step = mesh.sync(&mut pool, Some(7));
    assert!(step.apply.is_none());
    assert_eq!(step.build, Some(7));
    mesh.set_pending(7, pool.spawn(|| 70));

    let step = mesh.sync(&mut pool, Some(7));
    assert!(step.apply.is_none() && step.build.is_none());

    pool.tick_until_empty();
    let step = mesh.sync(&mut pool, Some(7));
    assert_eq!(built(&step.apply), Some(70));
    assert!(step.build.is_none());
    assert_eq!(mesh.terrain_hash(), Some(7));

    let step = mesh.sync(&mut pool, Some(7));
    assert!(step.apply.is_none() && step.build.is_none());
}

#[test]
fn builds_for_changed_terrain_are_dropped() {
    let mut pool = pool();
    let mut mesh: TerrainTileMesh<u32> = TerrainTileMesh::new();
    assert_eq!(mesh.sync(&mut pool, Some(1)).build, Some(1));
    mesh.set_pending(1, pool.spawn(|| 10));
    pool.tick_until_empty();

    let step = mesh.sync(&mut pool, Some(2));
    assert!(step.apply.is_none());
    assert_eq!(step.build, Some(2));
    mesh.set_pending(2, pool.spawn(|| 20));
    pool.tick_until_empty();
    let step = mesh.sync(&mut pool, Some(2));
    assert_eq!(built(&step.apply), Some(20));
}

#[test]
fn tiles_without_terrain_are_flat() {
    let mut pool = pool();
    let mut mesh: TerrainTileMesh<u32> = TerrainTileMesh::new();
    let step = mesh.sync(&mut pool, None);
    assert!(step.apply.is_none() && step.build.is_none());

    assert_eq!(mesh.sync(&mut pool, Some(4)).build, Some(4));
    mesh.set_pending(4, pool.spawn(|| 40));
    pool.tick_until_empty();
    assert_eq!(built(&mesh.sync(&mut pool, Some(4)).apply), Some(40));

    let step = mesh.sync(&mut pool, None);
    assert!(flat(&step.apply));
    assert_eq!(mesh.terrain_hash(), None);
}

#[test]
fn a_build_without_a_mesh_shows_flat_and_retries() {
    let mut pool = pool();
    let mut mesh: TerrainTileMesh<u32> = TerrainTileMesh::new();
    assert_eq!(mesh.sync(&mut pool, Some(5)).build, Some(5));
    let mut task = pool.spawn(|| 50);
    pool.tick_until_empty();
    assert_eq!(task.take_result(&mut pool), Some(50));
    mesh.set_pending(5, task);
    let step = mesh.sync(&mut pool, Some(5));
    assert!(flat(&step.apply));
    assert_eq!(step.build, Some(5));
}

#[test]
fn terrain_keeps_the_latest_data_per_tile() {
    let t = |x: u32| CanonicalTileId { z: 9, x, y: 3 };
    let mut terrain: MlTerrain<Vec<u32>> = MlTerrain::new();
    terrain.update_tile_data(MlTerrainTile { id: t(1), hash: 10, terrain_data: vec![1, 2] });
    terrain.update_tile_data(MlTerrainTile { id: t(2), hash: 20, terrain_data: vec![3] });
    terrain.update_tile_data(MlTerrainTile { id: t(1), hash: 11, terrain_data: vec![4] });
    assert_eq!(terrain.terrain_hash(t(1)), Some(11));
    assert_eq!(terrain.tile(t(1)).map(|tile| tile.terrain_data.clone()), Some(vec![4]));
    let mut loaded = terrain.loaded_tile_ids();
    loaded.sort_by_key(|id| id.x);
    assert_eq!(loaded, vec![t(1), t(2)]);

    terrain.remove_tile_data(t(2));
    assert_eq!(terrain.terrain_hash(t(2)), None);
    assert_eq!(terrain.loaded_tile_ids(), vec![t(1)]);
}

#[test]
fn terrain_active_tiles_are_replaced() {
    let t = |x: u32| CanonicalTileId { z: 9, x, y: 3 };
    let mut terrain: MlTerrain<()> = MlTerrain::new();
    terrain.set_active_tile_ids(vec![t(1), t(2)]);
    assert_eq!(terrain.active_tile_ids(), &vec![t(1), t(2)]);
    terrain.set_active_tile_ids(vec![t(3)]);
    assert!(is_active(terrain.active_tile_ids(), t(3)));
    assert!(!is_active(terrain.active_tile_ids(), t(1)));
}
