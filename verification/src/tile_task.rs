//! Keeping a tile's derived data in step with the tile: the data is rebuilt
//! in a background task whenever the tile's revision or its terrain changes,
//! and dropped when the tile goes away. The build itself and the hook that
//! applies its result belong to the caller; this module decides.
use vstd::prelude::*;
use crate::task_pool::Task;

verus! {

/// The tile revision and terrain hash that the current data was built for.
#[derive(Debug, Clone, Copy, PartialEq, Eq, Structural)]
pub struct TileTaskBasedRevision {
    terrain_hash: Option<u64>,
    tile_revision: Option<u64>,
}

impl TileTaskBasedRevision {
    pub closed spec fn spec_terrain_hash(&self) -> Option<u64> {
        self.terrain_hash
    }

    pub closed spec fn spec_tile_revision(&self) -> Option<u64> {
        self.tile_revision
    }

    /// Nothing has been built yet.
    pub open spec fn spec_is_empty(&self) -> bool {
        self.spec_terrain_hash() is None && self.spec_tile_revision() is None
    }

    /// The revision before anything was built.
    pub fn new() -> (revision: Self)
        ensures
            revision.spec_is_empty(),
    {
        TileTaskBasedRevision { terrain_hash: None, tile_revision: None }
    }

    /// Forgets what was built.
    pub fn reset(&mut self)
        ensures
            final(self).spec_is_empty(),
    {
        self.terrain_hash = None;
        self.tile_revision = None;
    }

    /// Whether nothing has been built.
    pub fn is_empty(&self) -> (empty: bool)
        ensures
            empty == self.spec_is_empty(),
    {
        self.terrain_hash.is_none() && self.tile_revision.is_none()
    }

    pub fn terrain_hash(&self) -> (hash: Option<u64>)
        ensures
            hash == self.spec_terrain_hash(),
    {
        self.terrain_hash
    }

    pub fn tile_revision(&self) -> (revision: Option<u64>)
        ensures
            revision == self.spec_tile_revision(),
    {
        self.tile_revision
    }
}

impl Default for TileTaskBasedRevision {
    fn default() -> (revision: Self)
        ensures
            revision.spec_is_empty(),
    {
        TileTaskBasedRevision::new()
    }
}

/// What the caller does after a sync.
#[derive(Debug, Clone, Copy, PartialEq, Eq, Structural)]
pub enum TileSyncAction {
    /// Nothing.
    Keep,
    /// The tile is gone and its data was dropped: apply "no data".
    Remove,
    /// Start a build task for the tile. `discard`: the old data and any
    /// pending build were dropped because the tile or its terrain changed.
    Build { discard: bool },
}

/// The derived data of one tile: its configuration and caller state, the
/// current data and how often it was replaced, what it was built for, and
/// the build task under way.
pub struct TileTaskBased<C, D, S> {
    config: C,
    data: Option<D>,
    state: S,
    dirty: bool,
    data_revision: u64,
    revision: TileTaskBasedRevision,
    pending_task: Option<Task<D>>,
}

impl<C, D, S> TileTaskBased<C, D, S> {
    pub closed spec fn spec_config(&self) -> C {
        self.config
    }

    pub closed spec fn spec_data(&self) -> Option<D> {
        self.data
    }

    pub closed spec fn spec_state(&self) -> S {
        self.state
    }

    /// A build is owed.
    pub closed spec fn spec_dirty(&self) -> bool {
        self.dirty
    }

    pub closed spec fn spec_data_revision(&self) -> u64 {
        self.data_revision
    }

    pub closed spec fn spec_revision(&self) -> TileTaskBasedRevision {
        self.revision
    }

    pub closed spec fn spec_pending_task(&self) -> Option<Task<D>> {
        self.pending_task
    }

    /// The action a sync with `tile_revision` (`None`: the tile is gone) and
    /// `terrain_hash` takes.
    pub open spec fn sync_action(&self, tile_revision: Option<u64>, terrain_hash: Option<u64>) -> TileSyncAction {
        match tile_revision {
            None => if self.spec_revision().spec_is_empty() {
                TileSyncAction::Keep
            } else {
                TileSyncAction::Remove
            },
            Some(r) => {
                let discard = self.spec_revision().spec_tile_revision() != Some(r)
                    || self.spec_revision().spec_terrain_hash() != terrain_hash;
                if discard || self.spec_dirty() {
                    TileSyncAction::Build { discard }
                } else {
                    TileSyncAction::Keep
                }
            },
        }
    }

    /// The tile's entry after a sync: what `sync` leaves, field by field.
    pub open spec fn synced(&self, after: Self, tile_revision: Option<u64>, terrain_hash: Option<u64>) -> bool {
        &&& after.spec_config() == self.spec_config()
        &&& after.spec_state() == self.spec_state()
        &&& after.spec_data_revision() == self.spec_data_revision()
        &&& after.spec_dirty() == (self.spec_dirty() && self.sync_action(tile_revision, terrain_hash) is Keep)
        &&& match self.sync_action(tile_revision, terrain_hash) {
            TileSyncAction::Keep => {
                &&& after.spec_data() == self.spec_data()
                &&& after.spec_pending_task() == self.spec_pending_task()
                &&& after.spec_revision() == self.spec_revision()
            },
            TileSyncAction::Remove => {
                &&& after.spec_data() is None
                &&& after.spec_pending_task() is None
                &&& after.spec_revision().spec_is_empty()
            },
            TileSyncAction::Build { discard } => {
                &&& discard ==> after.spec_data() is None && after.spec_pending_task() is None
                &&& !discard ==> after.spec_data() == self.spec_data() && after.spec_pending_task()
                    == self.spec_pending_task()
                &&& after.spec_revision().spec_tile_revision() == tile_revision
                &&& after.spec_revision().spec_terrain_hash() == terrain_hash
            },
        }
    }

    /// A fresh entry: no data, nothing built, a build owed.
    pub fn from_parts(config: C, state: S) -> (tile: Self)
        ensures
            tile.spec_config() == config,
            tile.spec_state() == state,
            tile.spec_data() is None,
            tile.spec_dirty(),
            tile.spec_data_revision() == 0,
            tile.spec_revision().spec_is_empty(),
            tile.spec_pending_task() is None,
    {
        TileTaskBased {
            config,
            data: None,
            state,
            dirty: true,
            data_revision: 0,
            revision: TileTaskBasedRevision::new(),
            pending_task: None,
        }
    }

    pub fn config(&self) -> (config: &C)
        ensures
            *config == self.spec_config(),
    {
        &self.config
    }

    pub fn state(&self) -> (state: &S)
        ensures
            *state == self.spec_state(),
    {
        &self.state
    }

    pub fn data(&self) -> (data: Option<&D>)
        ensures
            data is None <==> self.spec_data() is None,
            data matches Some(d) ==> self.spec_data() == Some(*d),
    {
        match &self.data {
            Some(d) => Some(d),
            None => None,
        }
    }

    /// How many times the data was replaced.
    pub fn data_revision(&self) -> (revision: u64)
        ensures
            revision == self.spec_data_revision(),
    {
        self.data_revision
    }

    /// What the current data was built for.
    pub fn revision(&self) -> (revision: TileTaskBasedRevision)
        ensures
            revision == self.spec_revision(),
    {
        self.revision
    }

    /// The build task under way, if any.
    pub fn pending_task(&self) -> (task: Option<&Task<D>>)
        ensures
            task is None <==> self.spec_pending_task() is None,
            task matches Some(t) ==> self.spec_pending_task() == Some(*t),
    {
        match &self.pending_task {
            Some(t) => Some(t),
            None => None,
        }
    }

    /// Hands the build task under way to the caller, which collects its
    /// result; nothing else changes.
    pub fn take_pending_task(&mut self) -> (task: Option<Task<D>>)
        ensures
            task == old(self).spec_pending_task(),
            final(self).spec_pending_task() is None,
            final(self).spec_data() == old(self).spec_data(),
            final(self).spec_dirty() == old(self).spec_dirty(),
            final(self).spec_data_revision() == old(self).spec_data_revision(),
            final(self).spec_revision() == old(self).spec_revision(),
            final(self).spec_config() == old(self).spec_config(),
            final(self).spec_state() == old(self).spec_state(),
    {
        self.pending_task.take()
    }

    /// Records the build task the caller started after a `Build` action.
    pub fn set_pending_task(&mut self, task: Task<D>)
        ensures
            final(self).spec_pending_task() == Some(task),
            final(self).spec_data() == old(self).spec_data(),
            final(self).spec_dirty() == old(self).spec_dirty(),
            final(self).spec_data_revision() == old(self).spec_data_revision(),
            final(self).spec_revision() == old(self).spec_revision(),
            final(self).spec_config() == old(self).spec_config(),
            final(self).spec_state() == old(self).spec_state(),
    {
        self.pending_task = Some(task);
    }

    /// Replaces the data with what the caller's apply hook returned and counts
    /// the replacement.
    pub fn set_data(&mut self, data: Option<D>)
        requires
            old(self).spec_data_revision() < u64::MAX,
        ensures
            final(self).spec_data() == data,
            final(self).spec_data_revision() == old(self).spec_data_revision() + 1,
            final(self).spec_pending_task() == old(self).spec_pending_task(),
            final(self).spec_dirty() == old(self).spec_dirty(),
            final(self).spec_revision() == old(self).spec_revision(),
            final(self).spec_config() == old(self).spec_config(),
            final(self).spec_state() == old(self).spec_state(),
    {
        self.data = data;
        self.data_revision = self.data_revision + 1;
    }

    fn clear_data(&mut self)
        ensures
            final(self).spec_data() is None,
            final(self).spec_dirty(),
            final(self).spec_pending_task() is None,
            final(self).spec_data_revision() == old(self).spec_data_revision(),
            final(self).spec_revision() == old(self).spec_revision(),
            final(self).spec_config() == old(self).spec_config(),
            final(self).spec_state() == old(self).spec_state(),
    {
        self.data = None;
        self.dirty = true;
        self.pending_task = None;
    }

    /// Brings the entry in step with the tile: `tile_revision` is the tile's
    /// revision (`None`: the tile is gone), `terrain_hash` the hash of the
    /// terrain under it, if the layer uses terrain and there is some. Drops
    /// the data when the tile went away or changed, and says whether to build.
    pub fn sync(&mut self, tile_revision: Option<u64>, terrain_hash: Option<u64>) -> (action: TileSyncAction)
        ensures
            action == old(self).sync_action(tile_revision, terrain_hash),
            old(self).synced(*final(self), tile_revision, terrain_hash),
    {
        let tile_revision = match tile_revision {
            None => {
                if !self.revision.is_empty() {
                    self.clear_data();
                    self.dirty = false;
                    self.revision.reset();
                    return TileSyncAction::Remove;
                }
                return TileSyncAction::Keep;
            },
            Some(r) => r,
        };
        let mut discard = false;
        if self.revision.tile_revision != Some(tile_revision) {
            self.clear_data();
            self.revision.tile_revision = Some(tile_revision);
            discard = true;
        }
        if self.revision.terrain_hash != terrain_hash {
            self.clear_data();
            self.revision.terrain_hash = terrain_hash;
            discard = true;
        }
        if !self.dirty {
            return TileSyncAction::Keep;
        }
        self.dirty = false;
        TileSyncAction::Build { discard }
    }
}

/// Syncing twice with the same tile and terrain does nothing the second
/// time: no rebuild without a change.
pub proof fn lemma_sync_settles<C, D, S>(
    before: TileTaskBased<C, D, S>,
    after: TileTaskBased<C, D, S>,
    tile_revision: Option<u64>,
    terrain_hash: Option<u64>,
)
    requires
        before.synced(after, tile_revision, terrain_hash),
    ensures
        after.sync_action(tile_revision, terrain_hash) == TileSyncAction::Keep,
{
}

/// A tile whose revision changed, or whose terrain changed, always loses its
/// old data and any pending build, and is rebuilt.
pub proof fn lemma_change_rebuilds<C, D, S>(
    before: TileTaskBased<C, D, S>,
    after: TileTaskBased<C, D, S>,
    tile_revision: u64,
    terrain_hash: Option<u64>,
)
    requires
        before.synced(after, Some(tile_revision), terrain_hash),
        before.spec_revision().spec_tile_revision() != Some(tile_revision)
            || before.spec_revision().spec_terrain_hash() != terrain_hash,
    ensures
        before.sync_action(Some(tile_revision), terrain_hash) == (TileSyncAction::Build { discard: true }),
        after.spec_data() is None,
        after.spec_pending_task() is None,
{
}

/// A tile that goes away after something was built for it loses its data,
/// and its entry is as if nothing had been built.
pub proof fn lemma_removal_empties<C, D, S>(
    before: TileTaskBased<C, D, S>,
    after: TileTaskBased<C, D, S>,
    terrain_hash: Option<u64>,
)
    requires
        before.synced(after, None, terrain_hash),
        !before.spec_revision().spec_is_empty(),
    ensures
        before.sync_action(None, terrain_hash) == TileSyncAction::Remove,
        after.spec_data() is None,
        after.spec_pending_task() is None,
        after.spec_revision().spec_is_empty(),
        !after.spec_dirty(),
{
}

/// A tile that went away is removed once: its first sync says `Remove`, the
/// caller's "no data" replaces the data and is counted once, and while the
/// tile stays away every later sync says `Keep` and changes nothing.
pub proof fn lemma_removal_happens_once<C, D, S>(
    before: TileTaskBased<C, D, S>,
    removed: TileTaskBased<C, D, S>,
    applied: TileTaskBased<C, D, S>,
    again: TileTaskBased<C, D, S>,
    no_data: Option<D>,
    terrain_hash: Option<u64>,
    later_terrain_hash: Option<u64>,
)
    requires
        !before.spec_revision().spec_is_empty(),
        before.synced(removed, None, terrain_hash),
        applied.spec_data() == no_data,
        applied.spec_data_revision() == removed.spec_data_revision() + 1,
        applied.spec_pending_task() == removed.spec_pending_task(),
        applied.spec_dirty() == removed.spec_dirty(),
        applied.spec_revision() == removed.spec_revision(),
        applied.synced(again, None, later_terrain_hash),
    ensures
        before.sync_action(None, terrain_hash) == TileSyncAction::Remove,
        applied.spec_data_revision() == before.spec_data_revision() + 1,
        applied.spec_pending_task() is None,
        applied.sync_action(None, later_terrain_hash) == TileSyncAction::Keep,
        again.spec_data() == no_data,
        again.spec_data_revision() == applied.spec_data_revision(),
        again.spec_pending_task() is None,
        again.spec_revision() == applied.spec_revision(),
        !again.spec_dirty(),
{
}

} // verus!