//! Terrain tiles of the map view: the terrain MapLibre has loaded and the
//! tiles it shows, which tiles are spawned, and when a tile's mesh is
//! rebuilt. A tile shows the mesh built for the
//! terrain it currently has; a mesh built for terrain that has changed
//! since is dropped, and a tile without terrain is flat.
use vstd::prelude::*;
use crate::canonical::CanonicalTileId;
use crate::task_pool::{Task, TaskPool};
use crate::tile_table::{key_set, TileTable};

verus! {

/// Whether `tile` is one of `active`.
pub fn is_active(active: &[CanonicalTileId], tile: CanonicalTileId) -> (found: bool)
    ensures
        found == key_set(active@).contains(tile),
{
    let mut i: usize = 0;
    while i < active.len()
        invariant
            i <= active@.len(),
            forall|k: int| 0 <= k < i ==> active@[k] != tile,
        decreases active@.len() - i,
    {
        if active[i] == tile {
            proof {
                assert(active@[i as int]@ == tile);
            }
            return true;
        }
        i = i + 1;
    }
    proof {
        assert forall|k: int| 0 <= k < active@.len() implies (#[trigger] active@[k])@ != tile by {
            assert(active@[k] != tile);
        }
    }
    false
}

/// The terrain of one tile as MapLibre hands it over, with the hash that
/// tells its versions apart.
pub struct MlTerrainTile<D> {
    pub id: CanonicalTileId,
    pub hash: u64,
    pub terrain_data: D,
}

/// The terrain of one map: the terrain tiles MapLibre has loaded, by tile,
/// and the tiles it shows.
pub struct MlTerrain<D> {
    tiles: TileTable<CanonicalTileId, MlTerrainTile<D>>,
    active_tile_ids: Vec<CanonicalTileId>,
}

impl<D> MlTerrain<D> {
    pub closed spec fn wf(&self) -> bool {
        self.tiles.wf()
    }

    /// The loaded terrain tiles.
    pub closed spec fn tiles(&self) -> Map<CanonicalTileId, MlTerrainTile<D>> {
        self.tiles.map()
    }

    /// The tiles shown.
    pub closed spec fn active(&self) -> Set<CanonicalTileId> {
        key_set(self.active_tile_ids@)
    }

    /// No terrain loaded and no tile shown.
    pub fn new() -> (terrain: Self)
        ensures
            terrain.wf(),
            terrain.tiles() == Map::<CanonicalTileId, MlTerrainTile<D>>::empty(),
            terrain.active() == Set::<CanonicalTileId>::empty(),
    {
        let terrain = MlTerrain { tiles: TileTable::new(), active_tile_ids: Vec::new() };
        proof {
            assert(terrain.active() =~= Set::<CanonicalTileId>::empty());
        }
        terrain
    }

    /// Stores the terrain of `tile.id`, replacing what the tile had.
    pub fn update_tile_data(&mut self, tile: MlTerrainTile<D>)
        requires
            old(self).wf(),
        ensures
            final(self).wf(),
            final(self).tiles() == old(self).tiles().insert(tile.id, tile),
            final(self).active() == old(self).active(),
    {
        self.tiles.insert(tile.id, tile);
    }

    /// Drops the terrain of `tile_id`, if it has some.
    pub fn remove_tile_data(&mut self, tile_id: CanonicalTileId)
        requires
            old(self).wf(),
        ensures
            final(self).wf(),
            final(self).tiles() == old(self).tiles().remove(tile_id),
            final(self).active() == old(self).active(),
    {
        let _dropped = self.tiles.remove(&tile_id);
    }

    /// Sets the tiles shown.
    pub fn set_active_tile_ids(&mut self, tile_ids: Vec<CanonicalTileId>)
        requires
            old(self).wf(),
        ensures
            final(self).wf(),
            final(self).tiles() == old(self).tiles(),
            final(self).active() == key_set(tile_ids@),
    {
        self.active_tile_ids = tile_ids;
    }

    /// The tiles shown, as MapLibre listed them.
    pub fn active_tile_ids(&self) -> (tile_ids: &Vec<CanonicalTileId>)
        ensures
            key_set(tile_ids@) == self.active(),
    {
        &self.active_tile_ids
    }

    /// The hash of the terrain of `tile_id`, if it has some.
    pub fn terrain_hash(&self, tile_id: CanonicalTileId) -> (hash: Option<u64>)
        requires
            self.wf(),
        ensures
            hash is Some <==> self.tiles().dom().contains(tile_id),
            hash matches Some(h) ==> h == self.tiles()[tile_id].hash,
    {
        match self.tiles.get(&tile_id) {
            Some(tile) => Some(tile.hash),
            None => None,
        }
    }

    /// The terrain of `tile_id`, if it has some.
    pub fn tile(&self, tile_id: CanonicalTileId) -> (tile: Option<&MlTerrainTile<D>>)
        requires
            self.wf(),
        ensures
            tile is Some <==> self.tiles().dom().contains(tile_id),
            tile matches Some(t) ==> *t == self.tiles()[tile_id],
    {
        self.tiles.get(&tile_id)
    }

    /// The tiles with terrain loaded.
    pub fn loaded_tile_ids(&self) -> (tile_ids: Vec<CanonicalTileId>)
        requires
            self.wf(),
        ensures
            key_set(tile_ids@) == self.tiles().dom(),
    {
        let entries = self.tiles.entries();
        let mut tile_ids: Vec<CanonicalTileId> = Vec::new();
        let mut i: usize = 0;
        while i < entries.len()
            invariant
                i <= entries@.len(),
                tile_ids@.len() == i,
                forall|j: int| 0 <= j < i ==> tile_ids@[j] == (#[trigger] entries@[j]).0,
            decreases entries@.len() - i,
        {
            tile_ids.push(entries[i].0);
            i = i + 1;
        }
        proof {
            assert forall|k: CanonicalTileId| #[trigger] key_set(tile_ids@).contains(k) <==> self.tiles().dom().contains(k) by {
                if key_set(tile_ids@).contains(k) {
                    let j = choose|j: int| 0 <= j < tile_ids@.len() && (#[trigger] tile_ids@[j])@ == k;
                    assert(entries@[j].0 == k);
                }
                if self.tiles().dom().contains(k) {
                    let j = choose|j: int| 0 <= j < entries@.len() && (#[trigger] entries@[j]).0@ == k;
                    assert(tile_ids@[j]@ == k);
                }
            }
            assert(key_set(tile_ids@) =~= self.tiles().dom());
        }
        tile_ids
    }
}

/// The terrain tiles a manager has spawned, by tile.
pub struct TerrainTileManager<E> {
    spawned_tiles: TileTable<CanonicalTileId, E>,
}

impl<E> TerrainTileManager<E> {
    pub closed spec fn wf(&self) -> bool {
        self.spawned_tiles.wf()
    }

    /// The spawned tiles.
    pub closed spec fn spawned(&self) -> Map<CanonicalTileId, E> {
        self.spawned_tiles.map()
    }

    /// No tile spawned yet.
    pub fn new() -> (manager: Self)
        ensures
            manager.wf(),
            manager.spawned() == Map::<CanonicalTileId, E>::empty(),
    {
        TerrainTileManager { spawned_tiles: TileTable::new() }
    }

    /// The positions in `active` of the tiles that are not spawned yet.
    pub fn missing_tiles(&self, active: &[CanonicalTileId]) -> (missing: Vec<usize>)
        requires
            self.wf(),
        ensures
            forall|p: int, q: int| 0 <= p < q < missing@.len() ==> missing@[p] < missing@[q],
            forall|p: int| 0 <= p < missing@.len() ==> (#[trigger] missing@[p]) < active@.len(),
            forall|i: int|
                0 <= i < active@.len() ==> (!self.spawned().dom().contains(#[trigger] active@[i]) <==> missing@.contains(i as usize)),
    {
        self.spawned_tiles.missing(active)
    }

    /// Records the entity spawned for `tile`.
    pub fn record_spawned(&mut self, tile: CanonicalTileId, entity: E)
        requires
            old(self).wf(),
        ensures
            final(self).wf(),
            final(self).spawned() == old(self).spawned().insert(tile, entity),
    {
        self.spawned_tiles.insert(tile, entity);
    }

    /// The spawned tiles with their entities.
    pub fn spawned_tiles(&self) -> (tiles: &Vec<(CanonicalTileId, E)>)
        requires
            self.wf(),
        ensures
            forall|i: int| 0 <= i < tiles@.len() ==> self.spawned().dom().contains((#[trigger] tiles@[i]).0)
                && self.spawned()[tiles@[i].0] == tiles@[i].1,
            forall|k: CanonicalTileId| #[trigger] self.spawned().dom().contains(k) ==> exists|i: int| 0 <= i < tiles@.len() && (#[trigger] tiles@[i]).0 == k,
    {
        self.spawned_tiles.entries()
    }

    /// Forgets the tiles that are neither active nor loaded and hands them
    /// out to be despawned.
    pub fn despawn_unused(&mut self, active: &[CanonicalTileId], loaded: &[CanonicalTileId]) -> (despawned: Vec<(CanonicalTileId, E)>)
        requires
            old(self).wf(),
        ensures
            final(self).wf(),
            final(self).spawned() == old(self).spawned().restrict(key_set(active@).union(key_set(loaded@))),
            forall|p: int|
                0 <= p < despawned@.len() ==> old(self).spawned().dom().contains((#[trigger] despawned@[p]).0)
                    && !key_set(active@).contains(despawned@[p].0) && !key_set(loaded@).contains(despawned@[p].0)
                    && old(self).spawned()[despawned@[p].0] == despawned@[p].1,
            forall|k: CanonicalTileId|
                #[trigger] old(self).spawned().dom().contains(k) && !key_set(active@).contains(k) && !key_set(loaded@).contains(k)
                    ==> exists|p: int| 0 <= p < despawned@.len() && (#[trigger] despawned@[p]).0 == k,
    {
        let mut kept: Vec<CanonicalTileId> = Vec::new();
        let mut i: usize = 0;
        while i < active.len()
            invariant
                i <= active@.len(),
                kept@ == active@.take(i as int),
            decreases active@.len() - i,
        {
            kept.push(active[i]);
            proof {
                assert(active@.take(i + 1) == active@.take(i as int).push(active@[i as int]));
            }
            i = i + 1;
        }
        let mut j: usize = 0;
        while j < loaded.len()
            invariant
                j <= loaded@.len(),
                kept@ == active@ + loaded@.take(j as int),
            decreases loaded@.len() - j,
        {
            kept.push(loaded[j]);
            proof {
                assert(loaded@.take(j + 1) == loaded@.take(j as int).push(loaded@[j as int]));
                assert(active@ + loaded@.take(j + 1) == (active@ + loaded@.take(j as int)).push(loaded@[j as int]));
            }
            j = j + 1;
        }
        proof {
            assert(active@.take(active@.len() as int) == active@);
            assert(loaded@.take(loaded@.len() as int) == loaded@);
            assert forall|k: CanonicalTileId| #[trigger] key_set(kept@).contains(k) <==> key_set(active@).union(key_set(loaded@)).contains(k) by {
                if key_set(kept@).contains(k) {
                    let i = choose|i: int| 0 <= i < kept@.len() && (#[trigger] kept@[i])@ == k;
                    if i < active@.len() {
                        assert(active@[i]@ == k);
                    } else {
                        assert(loaded@[i - active@.len()]@ == k);
                    }
                }
                if key_set(active@).contains(k) {
                    let i = choose|i: int| 0 <= i < active@.len() && (#[trigger] active@[i])@ == k;
                    assert(kept@[i]@ == k);
                }
                if key_set(loaded@).contains(k) {
                    let i = choose|i: int| 0 <= i < loaded@.len() && (#[trigger] loaded@[i])@ == k;
                    assert(kept@[active@.len() + i]@ == k);
                }
            }
            assert(key_set(kept@) =~= key_set(active@).union(key_set(loaded@)));
        }
        self.spawned_tiles.retain_keys(kept.as_slice())
    }
}

/// What a terrain tile shows.
#[derive(Debug)]
pub enum TerrainMesh<M> {
    /// The mesh built from the tile's terrain.
    Built(M),
    /// The flat mesh.
    Flat,
}

/// What the caller does for a terrain tile after a sync: show `apply`, if
/// set, and start a mesh build for the terrain with hash `build`, if set.
pub struct TerrainMeshStep<M> {
    pub apply: Option<TerrainMesh<M>>,
    pub build: Option<u64>,
}

/// The mesh state of one terrain tile: the hash of the terrain its mesh was
/// built from, and the build under way with the hash it builds from.
pub struct TerrainTileMesh<M> {
    terrain_hash: Option<u64>,
    pending: Option<(u64, Task<M>)>,
}

impl<M> TerrainTileMesh<M> {
    pub closed spec fn spec_terrain_hash(&self) -> Option<u64> {
        self.terrain_hash
    }

    pub closed spec fn spec_pending(&self) -> Option<(u64, Task<M>)> {
        self.pending
    }

    /// A tile with no mesh built and none under way.
    pub fn new() -> (mesh: Self)
        ensures
            mesh.spec_terrain_hash() is None,
            mesh.spec_pending() is None,
    {
        TerrainTileMesh { terrain_hash: None, pending: None }
    }

    pub fn terrain_hash(&self) -> (hash: Option<u64>)
        ensures
            hash == self.spec_terrain_hash(),
    {
        self.terrain_hash
    }

    /// Records the build the caller started after a step asked for one.
    pub fn set_pending(&mut self, terrain_hash: u64, task: Task<M>)
        ensures
            final(self).spec_pending() == Some((terrain_hash, task)),
            final(self).spec_terrain_hash() == old(self).spec_terrain_hash(),
    {
        self.pending = Some((terrain_hash, task));
    }

    /// Brings the tile in step with its terrain (`terrain_hash`: the hash of
    /// the terrain the map has for it, `None` for none). A finished build for
    /// the current terrain is shown (flat where it left no mesh); a build for
    /// other terrain is dropped; then, with no build under way and a mesh not
    /// for the current terrain, a build is asked for, or, without terrain,
    /// the flat mesh is shown.
    pub fn sync<F: FnOnce() -> M>(&mut self, pool: &mut TaskPool<M, F>, terrain_hash: Option<u64>) -> (step: TerrainMeshStep<M>)
        requires
            old(pool).wf(),
            old(self).spec_pending() matches Some((_, t)) ==> old(pool).owns(t),
        ensures
            final(pool).wf(),
            ({
                let pending = old(self).spec_pending();
                let current = pending matches Some((h, t)) && terrain_hash == Some(h);
                let finished = current && old(pool).finished(pending->Some_0.1.spec_id());
                let result = if finished { old(pool).result(pending->Some_0.1.spec_id()) } else { None };
                let hash_after_apply = if finished {
                    if result is Some { Some(pending->Some_0.0) } else { None }
                } else {
                    old(self).spec_terrain_hash()
                };
                let still_pending = current && !finished;
                let stale = terrain_hash == hash_after_apply || still_pending;
                &&& finished ==> step.apply == Some(match result {
                    Some(m) => TerrainMesh::Built(m),
                    None => TerrainMesh::<M>::Flat,
                })
                &&& !finished && !stale && terrain_hash is None ==> step.apply == Some(TerrainMesh::<M>::Flat)
                &&& !finished && (stale || terrain_hash is Some) ==> step.apply is None
                &&& step.build == if !stale && terrain_hash is Some { terrain_hash } else { None }
                &&& final(self).spec_terrain_hash() == if !stale && terrain_hash is None { None } else { hash_after_apply }
                &&& final(self).spec_pending() == if still_pending { pending } else { None }
                &&& step.apply matches Some(TerrainMesh::Built(m)) ==> current && old(pool).result(pending->Some_0.1.spec_id()) == Some(m)
                &&& finished ==> final(pool).result(pending->Some_0.1.spec_id()) is None
                &&& !finished ==> *final(pool) == *old(pool)
                &&& final(pool).task_count() == old(pool).task_count()
                &&& final(pool).pending_tasks() == old(pool).pending_tasks()
                &&& forall|t: nat| t < old(pool).task_count() ==> #[trigger] final(pool).finished(t) == old(pool).finished(t)
                &&& forall|t: nat|
                    t < old(pool).task_count() && (pending is None || t != pending->Some_0.1.spec_id()) ==> #[trigger] final(pool).result(t) == old(pool).result(t)
            }),
    {
        let mut apply: Option<TerrainMesh<M>> = None;
        match self.pending.take() {
            Some((hash, mut task)) => {
                if terrain_hash == Some(hash) {
                    if task.is_finished(pool) {
                        match task.take_result(pool) {
                            Some(mesh) => {
                                self.terrain_hash = Some(hash);
                                apply = Some(TerrainMesh::Built(mesh));
                            },
                            None => {
                                self.terrain_hash = None;
                                apply = Some(TerrainMesh::Flat);
                            },
                        }
                    } else {
                        self.pending = Some((hash, task));
                    }
                }
            },
            None => {},
        }
        if terrain_hash == self.terrain_hash || self.pending.is_some() {
            return TerrainMeshStep { apply, build: None };
        }
        match terrain_hash {
            Some(hash) => TerrainMeshStep { apply, build: Some(hash) },
            None => {
                self.terrain_hash = None;
                TerrainMeshStep { apply: Some(TerrainMesh::Flat), build: None }
            },
        }
    }
}

} // verus!
