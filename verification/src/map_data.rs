//! The tiles the map client keeps per MapLibre source: parsed tiles by
//! source and tile id, the tiles each source renders, and the parses under
//! way. A tile is applied when its latest parse finishes; a parse that failed
//! drops the tile, and a parsed tile without layers changes nothing.
use vstd::prelude::*;
use vstd::string::StringExecFns;
use crate::canonical::CanonicalTileId;
use crate::task_pool::{Task, TaskPool};
use crate::text_map::TextMap;
use crate::tile_parses::{next_revision, TileParses};
use crate::tile_table::{MlTileKey, MlTileKeyView, TileTable};

verus! {

/// A parsed source tile: its id, the revision it was parsed for, and its
/// layers by name.
pub struct MlTile<L> {
    pub id: CanonicalTileId,
    pub revision: u64,
    pub layers: TextMap<L>,
}

/// The tile has at least one layer.
pub open spec fn has_layers<L>(tile: MlTile<L>) -> bool {
    exists|name: Seq<char>| tile.layers.map().dom().contains(name)
}

/// One source: its parsed tiles and the tiles it renders.
pub struct MlSource<L> {
    tiles: TileTable<CanonicalTileId, MlTile<L>>,
    renderable_tile_ids: Vec<CanonicalTileId>,
}

impl<L> MlSource<L> {
    fn new() -> (source: Self)
        ensures
            source.tiles.wf(),
            source.tiles.map() == Map::<CanonicalTileId, MlTile<L>>::empty(),
            source.renderable_tile_ids@ == Seq::<CanonicalTileId>::empty(),
    {
        MlSource { tiles: TileTable::new(), renderable_tile_ids: Vec::new() }
    }
}

/// The sources of one map, by source id.
pub struct MlSources<L> {
    sources: TextMap<MlSource<L>>,
}

impl<L> MlSources<L> {
    pub closed spec fn wf(&self) -> bool {
        &&& self.sources.wf()
        &&& forall|s: Seq<char>| #[trigger] self.sources.map().dom().contains(s) ==> self.sources.map()[s].tiles.wf()
    }

    /// The ids of the sources.
    pub closed spec fn source_ids(&self) -> Set<Seq<char>> {
        self.sources.map().dom()
    }

    /// The parsed tiles, by source id and tile id.
    pub closed spec fn tiles(&self) -> Map<MlTileKeyView, MlTile<L>> {
        Map::new(
            |k: MlTileKeyView| self.sources.map().dom().contains(k.0) && self.sources.map()[k.0].tiles.map().dom().contains(k.1),
            |k: MlTileKeyView| self.sources.map()[k.0].tiles.map()[k.1],
        )
    }

    /// The tiles each source renders.
    pub closed spec fn renderable(&self) -> Map<Seq<char>, Set<CanonicalTileId>> {
        Map::new(
            |s: Seq<char>| self.sources.map().dom().contains(s),
            |s: Seq<char>| self.sources.map()[s].renderable_tile_ids@.to_set(),
        )
    }

    /// No source yet.
    pub fn new() -> (sources: Self)
        ensures
            sources.wf(),
            sources.source_ids() == Set::<Seq<char>>::empty(),
            sources.tiles() == Map::<MlTileKeyView, MlTile<L>>::empty(),
    {
        let sources = MlSources { sources: TextMap::new() };
        proof {
            assert(sources.source_ids() =~= Set::<Seq<char>>::empty());
            assert(sources.tiles() =~= Map::<MlTileKeyView, MlTile<L>>::empty());
        }
        sources
    }

    /// Takes out the source `source_id`, or a new empty one.
    fn take_source(&mut self, source_id: &str) -> (source: MlSource<L>)
        requires
            old(self).wf(),
        ensures
            final(self).wf(),
            source.tiles.wf(),
            final(self).sources.map() == old(self).sources.map().remove(source_id@),
            old(self).sources.map().dom().contains(source_id@) ==> source == old(self).sources.map()[source_id@],
            !old(self).sources.map().dom().contains(source_id@) ==> source.tiles.map() == Map::<
                CanonicalTileId,
                MlTile<L>,
            >::empty() && source.renderable_tile_ids@ == Seq::<CanonicalTileId>::empty(),
    {
        match self.sources.remove(source_id) {
            Some(source) => source,
            None => MlSource::new(),
        }
    }

    /// Stores a parsed tile under its source, creating the source if need
    /// be; a tile without layers is dropped and changes nothing.
    pub fn apply_tile(&mut self, source_id: String, tile: MlTile<L>)
        requires
            old(self).wf(),
        ensures
            final(self).wf(),
            !has_layers(tile) ==> final(self).tiles() == old(self).tiles() && final(self).renderable() == old(self).renderable(),
            has_layers(tile) ==> final(self).tiles() == old(self).tiles().insert((source_id@, tile.id), tile)
                && final(self).renderable() == (if old(self).source_ids().contains(source_id@) {
                    old(self).renderable()
                } else {
                    old(self).renderable().insert(source_id@, Set::<CanonicalTileId>::empty())
                }),
            final(self).source_ids() == (if has_layers(tile) {
                old(self).source_ids().insert(source_id@)
            } else {
                old(self).source_ids()
            }),
    {
        if tile.layers.is_empty() {
            return;
        }
        let mut source = self.take_source(source_id.as_str());
        let ghost old_source_tiles = source.tiles.map();
        let ghost old_renderable = source.renderable_tile_ids@;
        let ghost key = (source_id@, tile.id);
        let ghost t = tile;
        source.tiles.insert(tile.id, tile);
        self.sources.insert(source_id, source);
        proof {
            let m = self.sources.map();
            assert(m == old(self).sources.map().insert(key.0, source));
            assert forall|s: Seq<char>| #[trigger] m.dom().contains(s) implies m[s].tiles.wf() by {
                if s != key.0 {
                    assert(old(self).sources.map().dom().contains(s));
                }
            }
            assert(self.tiles() =~= old(self).tiles().insert(key, t));
            if old(self).source_ids().contains(key.0) {
                assert(self.renderable() =~= old(self).renderable());
            } else {
                assert(old_renderable.to_set() =~= Set::<CanonicalTileId>::empty());
                assert(self.renderable() =~= old(self).renderable().insert(key.0, Set::<CanonicalTileId>::empty()));
            }
            assert(self.source_ids() =~= old(self).source_ids().insert(key.0));
        }
    }

    /// Drops the tile `tile_id` of source `source_id`, if it has one; the
    /// source itself stays.
    pub fn remove_tile(&mut self, source_id: &str, tile_id: CanonicalTileId)
        requires
            old(self).wf(),
        ensures
            final(self).wf(),
            final(self).tiles() == old(self).tiles().remove((source_id@, tile_id)),
            final(self).renderable() == old(self).renderable(),
            final(self).source_ids() == old(self).source_ids(),
    {
        if self.sources.get(source_id).is_none() {
            proof {
                assert(self.tiles() =~= old(self).tiles().remove((source_id@, tile_id)));
            }
            return;
        }
        let mut source = self.take_source(source_id);
        let _dropped = source.tiles.remove(&tile_id);
        self.sources.insert(String::from_str(source_id), source);
        proof {
            let m = self.sources.map();
            assert forall|s: Seq<char>| #[trigger] m.dom().contains(s) implies m[s].tiles.wf() by {
                if s != source_id@ {
                    assert(old(self).sources.map().dom().contains(s));
                }
            }
            assert(self.tiles() =~= old(self).tiles().remove((source_id@, tile_id)));
            assert(self.renderable() =~= old(self).renderable());
            assert(self.source_ids() =~= old(self).source_ids());
        }
    }

    /// Sets the tiles that source `source_id` renders, creating the source if
    /// need be.
    pub fn set_renderable_tiles(&mut self, source_id: String, tile_ids: Vec<CanonicalTileId>)
        requires
            old(self).wf(),
        ensures
            final(self).wf(),
            final(self).tiles() == old(self).tiles(),
            final(self).renderable() == old(self).renderable().insert(source_id@, tile_ids@.to_set()),
            final(self).source_ids() == old(self).source_ids().insert(source_id@),
    {
        let mut source = self.take_source(source_id.as_str());
        let ghost sid = source_id@;
        let ghost ids = tile_ids@;
        source.renderable_tile_ids = tile_ids;
        self.sources.insert(source_id, source);
        proof {
            let m = self.sources.map();
            assert forall|s: Seq<char>| #[trigger] m.dom().contains(s) implies m[s].tiles.wf() by {
                if s != sid {
                    assert(old(self).sources.map().dom().contains(s));
                }
            }
            assert(self.tiles() =~= old(self).tiles());
            assert(self.renderable() =~= old(self).renderable().insert(sid, ids.to_set()));
            assert(self.source_ids() =~= old(self).source_ids().insert(sid));
        }
    }

    /// The parsed tile `tile_id` of source `source_id`, if there is one.
    pub fn tile(&self, source_id: &str, tile_id: CanonicalTileId) -> (tile: Option<&MlTile<L>>)
        requires
            self.wf(),
        ensures
            tile is Some <==> self.tiles().dom().contains((source_id@, tile_id)),
            tile matches Some(t) ==> *t == self.tiles()[(source_id@, tile_id)],
    {
        match self.sources.get(source_id) {
            Some(source) => source.tiles.get(&tile_id),
            None => None,
        }
    }

    /// Whether source `source_id` renders the tile `tile_id`.
    pub fn is_renderable(&self, source_id: &str, tile_id: CanonicalTileId) -> (renders: bool)
        requires
            self.wf(),
        ensures
            renders <==> self.renderable().dom().contains(source_id@) && self.renderable()[source_id@].contains(tile_id),
    {
        match self.sources.get(source_id) {
            Some(source) => {
                let ids = &source.renderable_tile_ids;
                assert(self.renderable()[source_id@] == ids@.to_set());
                let mut i: usize = 0;
                while i < ids.len()
                    invariant
                        i <= ids@.len(),
                        self.renderable().dom().contains(source_id@),
                        self.renderable()[source_id@] == ids@.to_set(),
                        forall|j: int| 0 <= j < i ==> ids@[j] != tile_id,
                    decreases ids@.len() - i,
                {
                    if ids[i] == tile_id {
                        proof {
                            assert(ids@.to_set().contains(ids@[i as int]));
                        }
                        return true;
                    }
                    i = i + 1;
                }
                false
            },
            None => false,
        }
    }
}

/// The parse adds its tile: it succeeded and the tile has layers.
pub open spec fn adds_tile<L>(result: Result<MlTile<L>, String>) -> bool {
    result is Ok && has_layers(result->Ok_0)
}

/// `tiles` after the finished parses `results` were applied, each under its
/// source tile: a tile with layers is stored, a tile without layers changes
/// nothing, a failed parse drops the tile.
pub open spec fn with_parses_applied<L>(
    tiles: Map<MlTileKeyView, MlTile<L>>,
    results: Map<MlTileKeyView, Result<MlTile<L>, String>>,
) -> Map<MlTileKeyView, MlTile<L>> {
    Map::new(
        |k: MlTileKeyView|
            if results.dom().contains(k) {
                adds_tile(results[k]) || (results[k] is Ok && tiles.dom().contains(k))
            } else {
                tiles.dom().contains(k)
            },
        |k: MlTileKeyView|
            if results.dom().contains(k) && adds_tile(results[k]) {
                results[k]->Ok_0
            } else {
                tiles[k]
            },
    )
}

/// A parse job for the tile `tile_id` at `revision`: a tile it yields has
/// that id and that revision.
pub open spec fn parses_tile<L, F: FnOnce() -> Result<MlTile<L>, String>>(
    job: F,
    tile_id: CanonicalTileId,
    revision: u64,
) -> bool {
    forall|r: Result<MlTile<L>, String>| #[trigger] call_ensures(job, (), r) ==> (r matches Ok(tile) ==> tile.id == tile_id
        && tile.revision == revision)
}

/// The tile data of one map: its sources and the parses under way.
pub struct MlData<L> {
    sources: MlSources<L>,
    parses: TileParses<Task<Result<MlTile<L>, String>>>,
}

impl<L> MlData<L> {
    pub closed spec fn wf(&self) -> bool {
        self.sources.wf() && self.parses.wf()
    }

    /// The sources.
    pub closed spec fn spec_sources(&self) -> MlSources<L> {
        self.sources
    }

    /// The parses under way: revision and task, by source tile.
    pub closed spec fn pending(&self) -> Map<MlTileKeyView, (u64, Task<Result<MlTile<L>, String>>)> {
        self.parses.pending()
    }

    /// The revision last handed out, 0 before the first.
    pub closed spec fn last_revision(&self) -> u64 {
        self.parses.spec_last_revision()
    }

    /// The pending tasks were spawned by `pool`, each with a parse job for
    /// its tile, and no two source tiles share a task.
    pub open spec fn tasks_in<F: FnOnce() -> Result<MlTile<L>, String>>(&self, pool: TaskPool<Result<MlTile<L>, String>, F>) -> bool {
        &&& forall|k: MlTileKeyView| #[trigger] self.pending().dom().contains(k) ==> pool.owns(self.pending()[k].1)
            && parses_tile(pool.spawned_job(self.pending()[k].1.spec_id()), k.1, self.pending()[k].0)
        &&& forall|a: MlTileKeyView, b: MlTileKeyView|
            #[trigger] self.pending().dom().contains(a) && #[trigger] self.pending().dom().contains(b) && a != b
                ==> self.pending()[a].1.spec_id() != self.pending()[b].1.spec_id()
    }

    /// The parses whose task has a result waiting in `pool`, with that result.
    pub open spec fn finished_parses<F: FnOnce() -> Result<MlTile<L>, String>>(&self, pool: TaskPool<Result<MlTile<L>, String>, F>) -> Map<MlTileKeyView, Result<MlTile<L>, String>> {
        Map::new(
            |k: MlTileKeyView| self.pending().dom().contains(k) && pool.result(self.pending()[k].1.spec_id()) is Some,
            |k: MlTileKeyView| pool.result(self.pending()[k].1.spec_id())->0,
        )
    }

    /// No source and no parse yet.
    pub fn new() -> (data: Self)
        ensures
            data.wf(),
            data.spec_sources().source_ids() == Set::<Seq<char>>::empty(),
            data.spec_sources().tiles() == Map::<MlTileKeyView, MlTile<L>>::empty(),
            data.pending() == Map::<MlTileKeyView, (u64, Task<Result<MlTile<L>, String>>)>::empty(),
            data.last_revision() == 0,
    {
        MlData { sources: MlSources::new(), parses: TileParses::new() }
    }

    /// The sources.
    pub fn sources(&self) -> (sources: &MlSources<L>)
        ensures
            *sources == self.spec_sources(),
    {
        &self.sources
    }

    /// The revision that the next update of a tile gets.
    pub fn next_tile_revision(&self) -> (revision: u64)
        ensures
            revision == next_revision(self.last_revision()),
    {
        self.parses.next_tile_revision()
    }
    /// Starts parsing new data for the tile `tile_id` of source `source_id`
    /// with `parse`, built for the revision [`Self::next_tile_revision`]
    /// returns: the tile gets that revision, and the new parse replaces any
    /// earlier one of the tile. Returns the revision.
    pub fn update_tile<F: FnOnce() -> Result<MlTile<L>, String>>(
        &mut self,
        source_id: String,
        tile_id: CanonicalTileId,
        parse: F,
        pool: &mut TaskPool<Result<MlTile<L>, String>, F>,
    ) -> (revision: u64)
        requires
            old(self).wf(),
            old(pool).wf(),
            old(self).tasks_in(*old(pool)),
            old(pool).task_count() < usize::MAX,
            call_requires(parse, ()),
            parses_tile(parse, tile_id, next_revision(old(self).last_revision())),
        ensures
            final(self).wf(),
            final(pool).wf(),
            final(self).tasks_in(*final(pool)),
            revision == next_revision(old(self).last_revision()),
            final(self).last_revision() == revision,
            final(self).spec_sources() == old(self).spec_sources(),
            final(self).pending().dom() == old(self).pending().dom().insert((source_id@, tile_id)),
            final(self).pending()[(source_id@, tile_id)].0 == revision,
            final(self).pending()[(source_id@, tile_id)].1.spec_id() == old(pool).task_count(),
            forall|k: MlTileKeyView| #[trigger] old(self).pending().dom().contains(k) && k != (source_id@, tile_id)
                ==> final(self).pending()[k] == old(self).pending()[k],
            final(pool).task_count() == old(pool).task_count() + 1,
            final(pool).pending_tasks() == old(pool).pending_tasks().push(Some(old(pool).task_count())),
            final(pool).pending_jobs() == old(pool).pending_jobs().push(parse),
            final(pool).spawned_job(old(pool).task_count()) == parse,
            forall|t: nat|
                t < old(pool).task_count() ==> final(pool).finished(t) == old(pool).finished(t)
                    && final(pool).result(t) == old(pool).result(t) && final(pool).spawned_job(t)
                    == old(pool).spawned_job(t),
    {
        let task = pool.spawn(parse);
        let ghost key = (source_id@, tile_id);
        let revision = self.parses.update_tile(MlTileKey::new(source_id, tile_id), task);
        proof {
            let p = self.pending();
            assert forall|k: MlTileKeyView| #[trigger] p.dom().contains(k) implies pool.owns(p[k].1)
                && parses_tile(pool.spawned_job(p[k].1.spec_id()), k.1, p[k].0) by {
                if k != key {
                    assert(old(self).pending().dom().contains(k));
                }
            }
            assert forall|a: MlTileKeyView, b: MlTileKeyView|
                #[trigger] p.dom().contains(a) && #[trigger] p.dom().contains(b) && a != b
                    implies p[a].1.spec_id() != p[b].1.spec_id() by {
                if a != key {
                    assert(old(self).pending().dom().contains(a));
                }
                if b != key {
                    assert(old(self).pending().dom().contains(b));
                }
            }
            assert(p.dom() =~= old(self).pending().dom().insert(key));
        }
        revision
    }

    /// Forgets the tile `tile_id` of source `source_id`: its parse under way,
    /// if any, and its parsed tile.
    pub fn remove_tile(&mut self, source_id: &str, tile_id: CanonicalTileId)
        requires
            old(self).wf(),
        ensures
            final(self).wf(),
            final(self).pending() == old(self).pending().remove((source_id@, tile_id)),
            final(self).last_revision() == old(self).last_revision(),
            final(self).spec_sources().tiles() == old(self).spec_sources().tiles().remove((source_id@, tile_id)),
            final(self).spec_sources().renderable() == old(self).spec_sources().renderable(),
            final(self).spec_sources().source_ids() == old(self).spec_sources().source_ids(),
    {
        self.parses.remove_tile(source_id, tile_id);
        self.sources.remove_tile(source_id, tile_id);
    }

    /// Sets the tiles that source `source_id` renders, creating the source if
    /// need be.
    pub fn set_renderable_tiles(&mut self, source_id: String, tile_ids: Vec<CanonicalTileId>)
        requires
            old(self).wf(),
        ensures
            final(self).wf(),
            final(self).pending() == old(self).pending(),
            final(self).last_revision() == old(self).last_revision(),
            final(self).spec_sources().tiles() == old(self).spec_sources().tiles(),
            final(self).spec_sources().renderable() == old(self).spec_sources().renderable().insert(source_id@, tile_ids@.to_set()),
            final(self).spec_sources().source_ids() == old(self).spec_sources().source_ids().insert(source_id@),
    {
        self.sources.set_renderable_tiles(source_id, tile_ids);
    }
    /// Applies every parse whose result is waiting in `pool`: the parse stops
    /// being pending, its result is taken out of the pool, and its tile is
    /// stored (a tile with layers), left as it was (a tile without layers) or
    /// dropped (a failed parse). Parses still running stay pending.
    pub fn apply_pending_tile_parse_results<F: FnOnce() -> Result<MlTile<L>, String>>(
        &mut self,
        pool: &mut TaskPool<Result<MlTile<L>, String>, F>,
    )
        requires
            old(self).wf(),
            old(pool).wf(),
            old(self).tasks_in(*old(pool)),
        ensures
            final(self).wf(),
            final(self).tasks_in(*final(pool)),
            ({
                let finished = old(self).finished_parses(*old(pool));
                let before = old(self).spec_sources();
                let after = final(self).spec_sources();
                &&& final(self).pending() == old(self).pending().remove_keys(finished.dom())
                &&& final(self).last_revision() == old(self).last_revision()
                &&& after.tiles() == with_parses_applied(before.tiles(), finished)
                &&& forall|s: Seq<char>| #[trigger] after.source_ids().contains(s) <==> before.source_ids().contains(s)
                    || exists|k: MlTileKeyView| #[trigger] finished.dom().contains(k) && k.0 == s && adds_tile(finished[k])
                &&& forall|s: Seq<char>| #[trigger] after.source_ids().contains(s) ==> after.renderable()[s]
                    == (if before.source_ids().contains(s) { before.renderable()[s] } else { Set::<CanonicalTileId>::empty() })
                &&& forall|k: MlTileKeyView| #[trigger] finished.dom().contains(k)
                    ==> final(pool).result(old(self).pending()[k].1.spec_id()) is None
                &&& forall|k: MlTileKeyView| #[trigger] finished.dom().contains(k) && finished[k] is Ok
                    ==> finished[k]->Ok_0.id == k.1 && finished[k]->Ok_0.revision == old(self).pending()[k].0
            }),
            final(pool).wf(),
            final(pool).task_count() == old(pool).task_count(),
            final(pool).pending_tasks() == old(pool).pending_tasks(),
            final(pool).pending_jobs() == old(pool).pending_jobs(),
            forall|t: nat| #[trigger] final(pool).spawned_job(t) == old(pool).spawned_job(t),
            forall|t: nat| t < old(pool).task_count() ==> #[trigger] final(pool).finished(t) == old(pool).finished(t),
            forall|t: nat|
                t < old(pool).task_count() && !(exists|k: MlTileKeyView|
                    #[trigger] old(self).finished_parses(*old(pool)).dom().contains(k) && old(self).pending()[k].1.spec_id() == t)
                    ==> #[trigger] final(pool).result(t) == old(pool).result(t),
    {
        let ghost finished = self.finished_parses(*pool);
        let ghost pending0 = self.pending();
        let ghost pool0 = *pool;
        // The parses with a result waiting, with their revisions.
        let mut ready: Vec<(MlTileKey, u64)> = Vec::new();
        let entries = self.parses.entries();
        let mut i: usize = 0;
        while i < entries.len()
            invariant
                self.wf(),
                pool.wf(),
                self.tasks_in(*pool),
                i <= entries@.len(),
                forall|e: int| 0 <= e < entries@.len() ==> self.pending().dom().contains((#[trigger] entries@[e]).0@)
                    && self.pending()[entries@[e].0@] == entries@[e].1,
                forall|e: int, f: int| 0 <= e < f < entries@.len() ==> (#[trigger] entries@[e]).0@ != (#[trigger] entries@[f]).0@,
                forall|r: int| 0 <= r < ready@.len() ==> exists|e: int| 0 <= e < i && (#[trigger] ready@[r]).0@ == (#[trigger] entries@[e]).0@,
                forall|r: int| 0 <= r < ready@.len() ==> finished.dom().contains((#[trigger] ready@[r]).0@)
                    && ready@[r].1 == pending0[ready@[r].0@].0,
                forall|r: int, q: int| 0 <= r < q < ready@.len() ==> (#[trigger] ready@[r]).0@ != (#[trigger] ready@[q]).0@,
                forall|e: int| 0 <= e < i && finished.dom().contains((#[trigger] entries@[e]).0@)
                    ==> exists|r: int| 0 <= r < ready@.len() && (#[trigger] ready@[r]).0@ == entries@[e].0@,
                finished == self.finished_parses(*pool),
                pending0 == self.pending(),
            decreases entries@.len() - i,
        {
            let (key, (revision, task)) = &entries[i];
            if task.has_result(pool) {
                let ghost before = ready@;
                ready.push((MlTileKey::new(String::from_str(key.source_id().as_str()), key.tile_id()), *revision));
                proof {
                    assert(ready@[before.len() as int].0@ == key@);
                    assert forall|r: int| 0 <= r < ready@.len() implies exists|e: int| 0 <= e < i + 1 && (#[trigger] ready@[r]).0@ == (#[trigger] entries@[e]).0@ by {
                        if r < before.len() {
                            assert(ready@[r] == before[r]);
                        } else {
                            assert(ready@[r].0@ == entries@[i as int].0@);
                        }
                    }
                    assert forall|r: int, q: int| 0 <= r < q < ready@.len() implies (#[trigger] ready@[r]).0@ != (#[trigger] ready@[q]).0@ by {
                        if q == before.len() {
                            assert(ready@[r] == before[r]);
                            let e = choose|e: int| 0 <= e < i && (#[trigger] before[r]).0@ == (#[trigger] entries@[e]).0@;
                            assert(entries@[e].0@ != entries@[i as int].0@);
                        } else {
                            assert(ready@[r] == before[r]);
                            assert(ready@[q] == before[q]);
                        }
                    }
                    assert forall|e: int| 0 <= e < i + 1 && finished.dom().contains((#[trigger] entries@[e]).0@)
                        implies exists|r: int| 0 <= r < ready@.len() && (#[trigger] ready@[r]).0@ == entries@[e].0@ by {
                        if e < i {
                            let r = choose|r: int| 0 <= r < before.len() && (#[trigger] before[r]).0@ == entries@[e].0@;
                            assert(ready@[r] == before[r]);
                        } else {
                            assert(ready@[before.len() as int].0@ == entries@[e].0@);
                        }
                    }
                }
            } else {
                proof {
                    assert(!finished.dom().contains(entries@[i as int].0@));
                }
            }
            i = i + 1;
        }
        let ghost tiles0 = self.sources.tiles();
        let ghost ids0 = self.sources.source_ids();
        let ghost rend0 = self.sources.renderable();
        let ghost last0 = self.last_revision();
        let mut j: usize = 0;
        while j < ready.len()
            invariant
                self.wf(),
                pool.wf(),
                j <= ready@.len(),
                pool0.wf(),
                forall|k: MlTileKeyView| #[trigger] pending0.dom().contains(k) ==> pool0.owns(pending0[k].1)
                    && parses_tile(pool0.spawned_job(pending0[k].1.spec_id()), k.1, pending0[k].0),
                forall|a: MlTileKeyView, b: MlTileKeyView|
                    #[trigger] pending0.dom().contains(a) && #[trigger] pending0.dom().contains(b) && a != b
                        ==> pending0[a].1.spec_id() != pending0[b].1.spec_id(),
                finished == Map::new(
                    |k: MlTileKeyView| pending0.dom().contains(k) && pool0.result(pending0[k].1.spec_id()) is Some,
                    |k: MlTileKeyView| pool0.result(pending0[k].1.spec_id())->0,
                ),
                forall|r: int| 0 <= r < ready@.len() ==> finished.dom().contains((#[trigger] ready@[r]).0@)
                    && ready@[r].1 == pending0[ready@[r].0@].0,
                forall|r: int, q: int| 0 <= r < q < ready@.len() ==> (#[trigger] ready@[r]).0@ != (#[trigger] ready@[q]).0@,
                self.pending() == pending0.remove_keys(ready_keys(ready@, j as int)),
                self.last_revision() == last0,
                self.sources.tiles() == with_parses_applied(tiles0, finished.restrict(ready_keys(ready@, j as int))),
                forall|s: Seq<char>| #[trigger] self.sources.source_ids().contains(s) <==> ids0.contains(s)
                    || exists|k: MlTileKeyView| #[trigger] ready_keys(ready@, j as int).contains(k) && k.0 == s
                        && adds_tile(finished[k]),
                forall|s: Seq<char>| #[trigger] self.sources.source_ids().contains(s) ==> self.sources.renderable()[s]
                    == (if ids0.contains(s) { rend0[s] } else { Set::<CanonicalTileId>::empty() }),
                pool.task_count() == pool0.task_count(),
                pool.pending_tasks() == pool0.pending_tasks(),
                pool.pending_jobs() == pool0.pending_jobs(),
                forall|t: nat| #[trigger] pool.spawned_job(t) == pool0.spawned_job(t),
                forall|t: nat| t < pool0.task_count() ==> #[trigger] pool.finished(t) == pool0.finished(t),
                forall|t: nat| t < pool0.task_count() ==> #[trigger] pool.result(t) == (if exists|k: MlTileKeyView|
                    #[trigger] ready_keys(ready@, j as int).contains(k) && pending0[k].1.spec_id() == t {
                    None
                } else {
                    pool0.result(t)
                }),
            decreases ready@.len() - j,
        {
            let ghost done = ready_keys(ready@, j as int);
            let ghost pool_j = *pool;
            let ghost ids_j = self.sources.source_ids();
            let (key, revision) = &ready[j];
            let ghost k = key@;
            let ghost id = pending0[k].1.spec_id();
            proof {
                assert(!done.contains(k)) by {
                    if done.contains(k) {
                        let r = choose|r: int| 0 <= r < j && (#[trigger] ready@[r]).0@ == k;
                        assert(ready@[r].0@ != ready@[j as int].0@);
                    }
                }
                assert(ready_keys(ready@, j + 1) =~= done.insert(k)) by {
                    assert forall|q: MlTileKeyView| ready_keys(ready@, j + 1).contains(q) implies done.insert(q).contains(q) by {}
                    assert forall|q: MlTileKeyView| done.insert(k).contains(q) implies ready_keys(ready@, j + 1).contains(q) by {
                        if q == k {
                            assert(ready@[j as int].0@ == q);
                        } else {
                            let r = choose|r: int| 0 <= r < j && (#[trigger] ready@[r]).0@ == q;
                            assert(0 <= r < j + 1 && ready@[r].0@ == q);
                        }
                    }
                }
                assert(pending0.dom().contains(k));
                assert(self.pending().dom().contains(k));
                assert(!exists|q: MlTileKeyView| #[trigger] done.contains(q) && pending0[q].1.spec_id() == id) by {
                    if exists|q: MlTileKeyView| #[trigger] done.contains(q) && pending0[q].1.spec_id() == id {
                        let q = choose|q: MlTileKeyView| #[trigger] done.contains(q) && pending0[q].1.spec_id() == id;
                        let r = choose|r: int| 0 <= r < j && (#[trigger] ready@[r]).0@ == q;
                        assert(finished.dom().contains(q));
                        assert(q != k);
                    }
                }
                assert(pool.result(id) == pool0.result(id));
                pool0.lemma_result_comes_from_job(id);
            }
            let taken = self.parses.complete(key.source_id().as_str(), key.tile_id(), *revision);
            if let Some(mut task) = taken {
                let result = task.take_result(pool);
                proof {
                    assert(result == Some(finished[k]));
                    lemma_apply_one(tiles0, finished.restrict(done), k, finished[k]);
                    assert(finished.restrict(done.insert(k)) =~= finished.restrict(done).insert(k, finished[k]));
                }
                match result {
                    Some(Ok(tile)) => {
                        self.sources.apply_tile(String::from_str(key.source_id().as_str()), tile);
                    },
                    Some(Err(_)) => {
                        self.sources.remove_tile(key.source_id().as_str(), key.tile_id());
                    },
                    None => {},
                }
                proof {
                    let done2 = done.insert(k);
                    assert(self.pending() =~= pending0.remove_keys(done2));
                    if adds_tile(finished[k]) {
                        assert(self.sources.source_ids() == ids_j.insert(k.0));
                    } else {
                        assert(self.sources.source_ids() == ids_j);
                    }
                    assert forall|s: Seq<char>| #[trigger] self.sources.source_ids().contains(s) <==> ids0.contains(s)
                        || exists|q: MlTileKeyView| #[trigger] done2.contains(q) && q.0 == s && adds_tile(finished[q]) by {
                        if s == k.0 && adds_tile(finished[k]) {
                            assert(done2.contains(k));
                        }
                        if exists|q: MlTileKeyView| #[trigger] done.contains(q) && q.0 == s && adds_tile(finished[q]) {
                            let q = choose|q: MlTileKeyView| #[trigger] done.contains(q) && q.0 == s && adds_tile(finished[q]);
                            assert(done2.contains(q));
                        }
                        if exists|q: MlTileKeyView| #[trigger] done2.contains(q) && q.0 == s && adds_tile(finished[q]) {
                            let q = choose|q: MlTileKeyView| #[trigger] done2.contains(q) && q.0 == s && adds_tile(finished[q]);
                            if q != k {
                                assert(done.contains(q));
                            }
                        }
                    }
                    assert forall|t: nat| t < pool0.task_count() implies #[trigger] pool.result(t) == (if exists|q: MlTileKeyView|
                        #[trigger] done2.contains(q) && pending0[q].1.spec_id() == t {
                        None
                    } else {
                        pool0.result(t)
                    }) by {
                        if t != id {
                            assert(pool.result(t) == pool_j.result(t));
                            if exists|q: MlTileKeyView| #[trigger] done2.contains(q) && pending0[q].1.spec_id() == t {
                                let q = choose|q: MlTileKeyView| #[trigger] done2.contains(q) && pending0[q].1.spec_id() == t;
                                assert(done.contains(q));
                            }
                            if exists|q: MlTileKeyView| #[trigger] done.contains(q) && pending0[q].1.spec_id() == t {
                                let q = choose|q: MlTileKeyView| #[trigger] done.contains(q) && pending0[q].1.spec_id() == t;
                                assert(done2.contains(q));
                            }
                        } else {
                            assert(done2.contains(k) && pending0[k].1.spec_id() == t);
                        }
                    }
                }
            }
            j = j + 1;
        }
        proof {
            let done = ready_keys(ready@, ready@.len() as int);
            assert(done =~= finished.dom()) by {
                assert forall|k: MlTileKeyView| finished.dom().contains(k) implies done.contains(k) by {
                    assert(pending0.dom().contains(k));
                    let e = choose|e: int| 0 <= e < entries@.len() && (#[trigger] entries@[e]).0@ == k;
                    let r = choose|r: int| 0 <= r < ready@.len() && (#[trigger] ready@[r]).0@ == entries@[e].0@;
                }
                assert forall|k: MlTileKeyView| done.contains(k) implies finished.dom().contains(k) by {
                    let r = choose|r: int| 0 <= r < ready@.len() && (#[trigger] ready@[r]).0@ == k;
                }
            }
            assert(finished.restrict(done) =~= finished);
            assert forall|k: MlTileKeyView| #[trigger] finished.dom().contains(k) && finished[k] is Ok
                implies finished[k]->Ok_0.id == k.1 && finished[k]->Ok_0.revision == pending0[k].0 by {
                pool0.lemma_result_comes_from_job(pending0[k].1.spec_id());
            }
            assert forall|k: MlTileKeyView| #[trigger] finished.dom().contains(k)
                implies pool.result(pending0[k].1.spec_id()) is None by {
                assert(done.contains(k));
            }
        }
    }
}

impl<L> Default for MlData<L> {
    fn default() -> (data: Self)
        ensures
            data.wf(),
            data.spec_sources().source_ids() == Set::<Seq<char>>::empty(),
            data.spec_sources().tiles() == Map::<MlTileKeyView, MlTile<L>>::empty(),
            data.pending() == Map::<MlTileKeyView, (u64, Task<Result<MlTile<L>, String>>)>::empty(),
            data.last_revision() == 0,
    {
        MlData::new()
    }
}

/// A removed tile stays removed: with neither a parsed tile nor a parse
/// under way, applying the finished parses does not bring it back.
pub proof fn lemma_removed_tile_stays_removed<L, F: FnOnce() -> Result<MlTile<L>, String>>(
    data: MlData<L>,
    pool: TaskPool<Result<MlTile<L>, String>, F>,
    k: MlTileKeyView,
)
    requires
        !data.pending().dom().contains(k),
        !data.spec_sources().tiles().dom().contains(k),
    ensures
        !with_parses_applied(data.spec_sources().tiles(), data.finished_parses(pool)).dom().contains(k),
{
}

/// Only the parse of a tile's latest update reaches the map: a tile stored
/// for a finished parse is the tile its update was for, at the revision that
/// update handed out.
pub proof fn lemma_applied_tile_has_latest_revision<L, F: FnOnce() -> Result<MlTile<L>, String>>(
    data: MlData<L>,
    pool: TaskPool<Result<MlTile<L>, String>, F>,
    k: MlTileKeyView,
)
    requires
        pool.wf(),
        data.tasks_in(pool),
        data.finished_parses(pool).dom().contains(k),
        adds_tile(data.finished_parses(pool)[k]),
    ensures
        with_parses_applied(data.spec_sources().tiles(), data.finished_parses(pool)).dom().contains(k),
        with_parses_applied(data.spec_sources().tiles(), data.finished_parses(pool))[k].id == k.1,
        with_parses_applied(data.spec_sources().tiles(), data.finished_parses(pool))[k].revision == data.pending()[k].0,
{
    pool.lemma_result_comes_from_job(data.pending()[k].1.spec_id());
}

/// A failed parse drops its tile, and leaves every tile whose parse did not
/// finish as it was.
pub proof fn lemma_failed_parse_drops_tile<L, F: FnOnce() -> Result<MlTile<L>, String>>(
    data: MlData<L>,
    pool: TaskPool<Result<MlTile<L>, String>, F>,
    k: MlTileKeyView,
    other: MlTileKeyView,
)
    requires
        data.finished_parses(pool).dom().contains(k),
        data.finished_parses(pool)[k] is Err,
        !data.finished_parses(pool).dom().contains(other),
    ensures
        !with_parses_applied(data.spec_sources().tiles(), data.finished_parses(pool)).dom().contains(k),
        with_parses_applied(data.spec_sources().tiles(), data.finished_parses(pool)).dom().contains(other)
            == data.spec_sources().tiles().dom().contains(other),
        data.spec_sources().tiles().dom().contains(other) ==> with_parses_applied(
            data.spec_sources().tiles(),
            data.finished_parses(pool),
        )[other] == data.spec_sources().tiles()[other],
{
}

/// The keys of the first `n` entries of `ready`.
spec fn ready_keys(ready: Seq<(MlTileKey, u64)>, n: int) -> Set<MlTileKeyView> {
    Set::new(|k: MlTileKeyView| exists|r: int| 0 <= r < n && (#[trigger] ready[r]).0@ == k)
}

/// Applying one more finished parse, for a source tile not applied yet.
proof fn lemma_apply_one<L>(
    tiles: Map<MlTileKeyView, MlTile<L>>,
    results: Map<MlTileKeyView, Result<MlTile<L>, String>>,
    k: MlTileKeyView,
    r: Result<MlTile<L>, String>,
)
    requires
        !results.dom().contains(k),
    ensures
        adds_tile(r) ==> with_parses_applied(tiles, results.insert(k, r)) == with_parses_applied(tiles, results).insert(k, r->Ok_0),
        r is Ok && !has_layers(r->Ok_0) ==> with_parses_applied(tiles, results.insert(k, r)) == with_parses_applied(tiles, results),
        r is Err ==> with_parses_applied(tiles, results.insert(k, r)) == with_parses_applied(tiles, results).remove(k),
{
    let after = with_parses_applied(tiles, results.insert(k, r));
    let before = with_parses_applied(tiles, results);
    if adds_tile(r) {
        assert(after =~= before.insert(k, r->Ok_0));
    } else if r is Ok {
        assert(after =~= before);
    } else {
        assert(after =~= before.remove(k));
    }
}

} // verus!