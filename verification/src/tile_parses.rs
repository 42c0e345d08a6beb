//! Source tiles of the MapLibre bridge are parsed in background tasks. Each
//! update of a tile gets a fresh revision and replaces the tile's pending
//! parse; a finished parse is applied only while it is still the latest one
//! for its tile, so a stale result never overwrites a newer one.
use vstd::prelude::*;
use vstd::string::StringExecFns;
use crate::canonical::CanonicalTileId;
use crate::tile_table::{MlTileKey, MlTileKeyView, TileTable};

verus! {

/// The revision that follows `revision`: one more, saturating at
/// `u64::MAX`, and never 0.
pub open spec fn next_revision(revision: u64) -> u64 {
    if revision == u64::MAX {
        u64::MAX
    } else {
        (revision + 1) as u64
    }
}

/// The parses under way, one per source tile, each with its revision and
/// a payload of the caller's (the task handle).
pub struct TileParses<P> {
    next_revision: u64,
    pending: TileTable<MlTileKey, (u64, P)>,
}

impl<P> TileParses<P> {
    pub closed spec fn wf(&self) -> bool {
        self.pending.wf()
    }

    /// The revision last handed out, 0 before the first.
    pub closed spec fn spec_last_revision(&self) -> u64 {
        self.next_revision
    }

    /// The pending parses: each source tile with its revision and payload.
    pub closed spec fn pending(&self) -> Map<MlTileKeyView, (u64, P)> {
        self.pending.map()
    }

    /// Nothing pending and no revision handed out yet.
    pub fn new() -> (parses: Self)
        ensures
            parses.wf(),
            parses.spec_last_revision() == 0,
            parses.pending() == Map::<MlTileKeyView, (u64, P)>::empty(),
    {
        TileParses { next_revision: 0, pending: TileTable::new() }
    }

    /// The revision that the next update hands out.
    pub fn next_tile_revision(&self) -> (revision: u64)
        ensures
            revision == next_revision(self.spec_last_revision()),
    {
        if self.next_revision == u64::MAX {
            u64::MAX
        } else {
            self.next_revision + 1
        }
    }

    /// Starts tracking a parse of `key` with `payload`: hands out the next
    /// revision and makes it the tile's pending parse, replacing any older one.
    pub fn update_tile(&mut self, key: MlTileKey, payload: P) -> (revision: u64)
        requires
            old(self).wf(),
        ensures
            final(self).wf(),
            revision == next_revision(old(self).spec_last_revision()),
            final(self).spec_last_revision() == revision,
            final(self).pending() == old(self).pending().insert(key@, (revision, payload)),
    {
        let revision = self.next_tile_revision();
        self.next_revision = revision;
        self.pending.insert(key, (revision, payload));
        revision
    }

    /// Stops tracking the parse of `source_id`/`tile_id`, if there is one.
    pub fn remove_tile(&mut self, source_id: &str, tile_id: CanonicalTileId)
        requires
            old(self).wf(),
        ensures
            final(self).wf(),
            final(self).spec_last_revision() == old(self).spec_last_revision(),
            final(self).pending() == old(self).pending().remove((source_id@, tile_id)),
    {
        let key = MlTileKey::new(String::from_str(source_id), tile_id);
        let _dropped = self.pending.remove(&key);
    }

    /// Takes out the pending parse of `source_id`/`tile_id` when `revision`
    /// is still its revision: that parse's result may be applied. `None`, and
    /// nothing changes, when the tile has a newer parse or none.
    pub fn complete(&mut self, source_id: &str, tile_id: CanonicalTileId, revision: u64) -> (payload: Option<P>)
        requires
            old(self).wf(),
        ensures
            final(self).wf(),
            final(self).spec_last_revision() == old(self).spec_last_revision(),
            ({
                let k = (source_id@, tile_id);
                let current = old(self).pending().dom().contains(k) && old(self).pending()[k].0 == revision;
                &&& payload is Some <==> current
                &&& current ==> payload == Some(old(self).pending()[k].1)
                    && final(self).pending() == old(self).pending().remove(k)
                &&& !current ==> final(self).pending() == old(self).pending()
            }),
    {
        let key = MlTileKey::new(String::from_str(source_id), tile_id);
        let current = match self.pending.get(&key) {
            Some(entry) => entry.0 == revision,
            None => false,
        };
        if !current {
            return None;
        }
        match self.pending.remove(&key) {
            Some(entry) => Some(entry.1),
            None => None,
        }
    }

    /// The pending parses, in no particular order: key, then revision and
    /// payload.
    pub fn entries(&self) -> (entries: &Vec<(MlTileKey, (u64, P))>)
        requires
            self.wf(),
        ensures
            forall|i: int| 0 <= i < entries@.len() ==> self.pending().dom().contains((#[trigger] entries@[i]).0@)
                && self.pending()[entries@[i].0@] == entries@[i].1,
            forall|k: MlTileKeyView| #[trigger] self.pending().dom().contains(k) ==> exists|i: int| 0 <= i < entries@.len() && (#[trigger] entries@[i]).0@ == k,
            forall|i: int, j: int| 0 <= i < j < entries@.len() ==> (#[trigger] entries@[i]).0@ != (#[trigger] entries@[j]).0@,
    {
        self.pending.entries()
    }
}

/// Once a tile is updated again, the result of its earlier parse is stale:
/// `complete` with the earlier revision no longer finds it current (until
/// revisions saturate at `u64::MAX`).
pub proof fn lemma_newer_update_supersedes<P>(
    first: TileParses<P>,
    second: TileParses<P>,
    key: MlTileKeyView,
    payload: P,
)
    requires
        first.pending().dom().contains(key),
        first.pending()[key].0 == first.spec_last_revision(),
        first.spec_last_revision() < u64::MAX,
        second.spec_last_revision() == next_revision(first.spec_last_revision()),
        second.pending() == first.pending().insert(key, (second.spec_last_revision(), payload)),
    ensures
        second.pending()[key].0 != first.pending()[key].0,
{
}

/// A parse is completed at most once: after `complete` took it out, the same
/// key and revision are no longer current.
pub proof fn lemma_complete_once<P>(before: TileParses<P>, after: TileParses<P>, key: MlTileKeyView, revision: u64)
    requires
        before.pending().dom().contains(key),
        before.pending()[key].0 == revision,
        after.pending() == before.pending().remove(key),
    ensures
        !(after.pending().dom().contains(key) && after.pending()[key].0 == revision),
{
}

} // verus!
