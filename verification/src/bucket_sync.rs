//! Which tile buckets a bucket manager has spawned, per source tile, and how
//! it follows the tiles the map currently has: buckets are spawned for new
//! source tiles and despawned for source tiles that went away; and which
//! tile kinds it has enabled, with the kinds to spawn or despawn when the
//! settings change.
use vstd::prelude::*;
use vstd::string::StringExecFns;
use crate::canonical::CanonicalTileId;
use crate::tile_table::{key_set, MlTileKey, MlTileKeyView, TileTable};

verus! {

/// The buckets a manager has spawned, by source tile.
pub struct SpawnedBuckets<E> {
    buckets: TileTable<MlTileKey, E>,
}

impl<E> SpawnedBuckets<E> {
    pub closed spec fn wf(&self) -> bool {
        self.buckets.wf()
    }

    /// The spawned buckets, by source tile.
    pub closed spec fn spawned(&self) -> Map<MlTileKeyView, E> {
        self.buckets.map()
    }

    /// No bucket spawned yet.
    pub fn new() -> (buckets: Self)
        ensures
            buckets.wf(),
            buckets.spawned() == Map::<MlTileKeyView, E>::empty(),
    {
        SpawnedBuckets { buckets: TileTable::new() }
    }

    /// The positions in `wanted` of the source tiles that have no bucket yet.
    pub fn missing_buckets(&self, wanted: &[MlTileKey]) -> (missing: Vec<usize>)
        requires
            self.wf(),
        ensures
            forall|p: int, q: int| 0 <= p < q < missing@.len() ==> missing@[p] < missing@[q],
            forall|p: int| 0 <= p < missing@.len() ==> (#[trigger] missing@[p]) < wanted@.len(),
            forall|i: int|
                0 <= i < wanted@.len() ==> (!self.spawned().dom().contains((#[trigger] wanted@[i])@) <==> missing@.contains(i as usize)),
    {
        self.buckets.missing(wanted)
    }

    /// Records the bucket spawned for `key`.
    pub fn record_spawned(&mut self, key: MlTileKey, bucket: E)
        requires
            old(self).wf(),
        ensures
            final(self).wf(),
            final(self).spawned() == old(self).spawned().insert(key@, bucket),
    {
        self.buckets.insert(key, bucket);
    }

    /// The bucket of `source_id`/`tile_id`, if one was spawned.
    pub fn bucket(&self, source_id: &str, tile_id: CanonicalTileId) -> (bucket: Option<&E>)
        requires
            self.wf(),
        ensures
            bucket is Some <==> self.spawned().dom().contains((source_id@, tile_id)),
            bucket matches Some(b) ==> *b == self.spawned()[(source_id@, tile_id)],
    {
        let key = MlTileKey::new(String::from_str(source_id), tile_id);
        self.buckets.get(&key)
    }

    /// Forgets the buckets of source tiles that are not in `wanted` and hands
    /// them out to be despawned.
    pub fn despawn_absent(&mut self, wanted: &[MlTileKey]) -> (despawned: Vec<(MlTileKey, E)>)
        requires
            old(self).wf(),
        ensures
            final(self).wf(),
            final(self).spawned() == old(self).spawned().restrict(key_set(wanted@)),
            forall|p: int|
                0 <= p < despawned@.len() ==> old(self).spawned().dom().contains((#[trigger] despawned@[p]).0@)
                    && !key_set(wanted@).contains(despawned@[p].0@) && old(self).spawned()[despawned@[p].0@]
                    == despawned@[p].1,
            forall|k: MlTileKeyView|
                #[trigger] old(self).spawned().dom().contains(k) && !key_set(wanted@).contains(k) ==> exists|p: int|
                    0 <= p < despawned@.len() && (#[trigger] despawned@[p]).0@ == k,
    {
        self.buckets.retain_keys(wanted)
    }
}

/// After a bucket was recorded for every missing source tile and the absent
/// ones were despawned, the manager has a bucket for exactly the wanted
/// source tiles, and each bucket it had for a wanted tile is still the same.
pub proof fn lemma_sync_follows_tiles<E>(
    before: Map<MlTileKeyView, E>,
    spawned: Map<MlTileKeyView, E>,
    after: Map<MlTileKeyView, E>,
    wanted: Seq<MlTileKey>,
)
    requires
        before.submap_of(spawned),
        forall|k: MlTileKeyView| #[trigger] key_set(wanted).contains(k) ==> spawned.dom().contains(k),
        forall|k: MlTileKeyView| #[trigger] spawned.dom().contains(k) && !before.dom().contains(k) ==> key_set(wanted).contains(k),
        after == spawned.restrict(key_set(wanted)),
    ensures
        after.dom() == key_set(wanted),
        forall|k: MlTileKeyView| #[trigger] before.dom().contains(k) && key_set(wanted).contains(k) ==> after[k] == before[k],
{
    assert(after.dom() =~= key_set(wanted));
}

/// What a change of the enabled tile kinds asks of a bucket manager, for the
/// kind at a position of its kind list.
#[derive(Debug, Clone, Copy, PartialEq, Eq, Structural)]
pub enum KindChange {
    /// The kind was turned on: spawn its tile in every bucket.
    Enable(usize),
    /// The kind was turned off: despawn its tiles.
    Disable(usize),
}

/// The changes that turn the flags `before` into `now`, for the first `n`
/// kinds, in kind order.
pub open spec fn kind_changes(before: Seq<bool>, now: Seq<bool>, n: int) -> Seq<KindChange>
    decreases n,
{
    if n <= 0 {
        Seq::empty()
    } else {
        let earlier = kind_changes(before, now, n - 1);
        let k = (n - 1) as usize;
        if before[n - 1] == now[n - 1] {
            earlier
        } else if now[n - 1] {
            earlier.push(KindChange::Enable(k))
        } else {
            earlier.push(KindChange::Disable(k))
        }
    }
}

/// Which of a bucket manager's tile kinds are enabled, by position in its
/// kind list.
pub struct EnabledKinds {
    enabled: Vec<bool>,
}

impl EnabledKinds {
    /// The enabled flag of each kind.
    pub closed spec fn flags(&self) -> Seq<bool> {
        self.enabled@
    }

    /// `kind_count` kinds, none enabled yet.
    pub fn new(kind_count: usize) -> (kinds: Self)
        ensures
            kinds.flags() == Seq::new(kind_count as nat, |_i: int| false),
    {
        let mut enabled: Vec<bool> = Vec::new();
        let mut i: usize = 0;
        while i < kind_count
            invariant
                i <= kind_count,
                enabled@ == Seq::new(i as nat, |_i: int| false),
            decreases kind_count - i,
        {
            enabled.push(false);
            i = i + 1;
        }
        EnabledKinds { enabled }
    }

    /// Whether the kind at position `kind` is enabled.
    pub fn is_enabled(&self, kind: usize) -> (on: bool)
        requires
            kind < self.flags().len(),
        ensures
            on == self.flags()[kind as int],
    {
        self.enabled[kind]
    }

    /// Takes the kinds' current enabled flags and returns, in kind order, the
    /// kinds whose flag changed, each with what the change asks for.
    pub fn sync(&mut self, now: &[bool]) -> (changes: Vec<KindChange>)
        requires
            now@.len() == old(self).flags().len(),
        ensures
            final(self).flags() == now@,
            changes@ == kind_changes(old(self).flags(), now@, now@.len() as int),
    {
        let ghost before = self.enabled@;
        let mut changes: Vec<KindChange> = Vec::new();
        let mut k: usize = 0;
        while k < now.len()
            invariant
                k <= now@.len(),
                now@.len() == before.len(),
                self.enabled@.len() == before.len(),
                forall|i: int| 0 <= i < k ==> self.enabled@[i] == now@[i],
                forall|i: int| k <= i < before.len() ==> self.enabled@[i] == before[i],
                changes@ == kind_changes(before, now@, k as int),
            decreases now@.len() - k,
        {
            let is_enabled = now[k];
            let was_enabled = self.enabled[k];
            if is_enabled != was_enabled {
                if is_enabled {
                    changes.push(KindChange::Enable(k));
                } else {
                    changes.push(KindChange::Disable(k));
                }
                self.enabled.set(k, is_enabled);
            }
            k = k + 1;
        }
        proof {
            assert(self.enabled@ =~= now@);
        }
        changes
    }
}

/// Once the flags were taken, taking the same flags again changes nothing.
pub proof fn lemma_kinds_settle(flags: Seq<bool>, n: int)
    requires
        0 <= n <= flags.len(),
    ensures
        kind_changes(flags, flags, n) == Seq::<KindChange>::empty(),
    decreases n,
{
    if n > 0 {
        lemma_kinds_settle(flags, n - 1);
    }
}

/// A kind is named among the changes exactly when its flag changed, and then
/// with its new state.
pub proof fn lemma_kind_changes_exact(before: Seq<bool>, now: Seq<bool>, n: int, k: int)
    requires
        0 <= k < n <= before.len(),
        before.len() == now.len(),
        before.len() <= usize::MAX,
    ensures
        before[k] != now[k] <==> (kind_changes(before, now, n).contains(KindChange::Enable(k as usize))
            || kind_changes(before, now, n).contains(KindChange::Disable(k as usize))),
        kind_changes(before, now, n).contains(KindChange::Enable(k as usize)) ==> now[k],
        kind_changes(before, now, n).contains(KindChange::Disable(k as usize)) ==> !now[k],
    decreases n,
{
    lemma_kind_changes_below(before, now, n - 1);
    let c = kind_changes(before, now, n);
    if k < n - 1 {
        lemma_kind_changes_exact(before, now, n - 1, k);
        let e = kind_changes(before, now, n - 1);
        assert forall|ch: KindChange| c.contains(ch) && ch != KindChange::Enable((n - 1) as usize)
            && ch != KindChange::Disable((n - 1) as usize) implies e.contains(ch) by {
            let i = choose|i: int| 0 <= i < c.len() && c[i] == ch;
            if i < e.len() {
                assert(e[i] == ch);
            }
        }
        if e.contains(KindChange::Enable(k as usize)) {
            let i = choose|i: int| 0 <= i < e.len() && e[i] == KindChange::Enable(k as usize);
            assert(c[i] == e[i]);
        }
        if e.contains(KindChange::Disable(k as usize)) {
            let i = choose|i: int| 0 <= i < e.len() && e[i] == KindChange::Disable(k as usize);
            assert(c[i] == e[i]);
        }
    } else {
        // The earlier changes all name kinds below `k`.
        let e = kind_changes(before, now, n - 1);
        assert(!e.contains(KindChange::Enable(k as usize))) by {
            if e.contains(KindChange::Enable(k as usize)) {
                let i = choose|i: int| 0 <= i < e.len() && e[i] == KindChange::Enable(k as usize);
                assert(e[i] == KindChange::Enable(k as usize));
            }
        }
        assert(!e.contains(KindChange::Disable(k as usize))) by {
            if e.contains(KindChange::Disable(k as usize)) {
                let i = choose|i: int| 0 <= i < e.len() && e[i] == KindChange::Disable(k as usize);
                assert(e[i] == KindChange::Disable(k as usize));
            }
        }
        if before[k] != now[k] {
            assert(c[c.len() - 1] == (if now[k] { KindChange::Enable(k as usize) } else { KindChange::Disable(k as usize) }));
        } else {
            assert(c == e);
        }
        assert forall|i: int| 0 <= i < c.len() - 1 implies c[i] == e[i] by {}
    }
}

/// Every change of the first `n` kinds names a kind below `n`.
proof fn lemma_kind_changes_below(before: Seq<bool>, now: Seq<bool>, n: int)
    requires
        0 <= n <= before.len(),
        before.len() == now.len(),
        before.len() <= usize::MAX,
    ensures
        forall|i: int| 0 <= i < kind_changes(before, now, n).len() ==> match #[trigger] kind_changes(before, now, n)[i] {
            KindChange::Enable(k) => k < n,
            KindChange::Disable(k) => k < n,
        },
    decreases n,
{
    if n > 0 {
        lemma_kind_changes_below(before, now, n - 1);
        let e = kind_changes(before, now, n - 1);
        let c = kind_changes(before, now, n);
        assert forall|i: int| 0 <= i < c.len() implies match #[trigger] c[i] {
            KindChange::Enable(k) => k < n,
            KindChange::Disable(k) => k < n,
        } by {
            if i < e.len() {
                assert(c[i] == e[i]);
            }
        }
    }
}

/// The kinds of tiles a map bucket holds.
#[derive(Debug, Clone, Copy, PartialEq, Eq, Structural, Hash)]
pub enum MapTileKind {
    Water,
    Building,
}

/// The map's tile kinds, in the order their flags are given to
/// [`EnabledKinds::sync`].
pub fn map_tile_kinds() -> (kinds: Vec<MapTileKind>)
    ensures
        kinds@ == seq![MapTileKind::Water, MapTileKind::Building],
{
    vec![MapTileKind::Water, MapTileKind::Building]
}

/// Whether the view settings enable `kind`.
pub fn is_map_tile_kind_enabled(kind: MapTileKind, enable_waters: bool, enable_buildings: bool) -> (enabled: bool)
    ensures
        enabled == match kind {
            MapTileKind::Water => enable_waters,
            MapTileKind::Building => enable_buildings,
        },
{
    match kind {
        MapTileKind::Water => enable_waters,
        MapTileKind::Building => enable_buildings,
    }
}

/// The enabled flag of each of [`map_tile_kinds`], in that order.
pub fn map_tile_kind_flags(enable_waters: bool, enable_buildings: bool) -> (flags: Vec<bool>)
    ensures
        flags@ == seq![enable_waters, enable_buildings],
{
    let kinds = map_tile_kinds();
    let mut flags: Vec<bool> = Vec::new();
    let mut i: usize = 0;
    while i < kinds.len()
        invariant
            kinds@ == seq![MapTileKind::Water, MapTileKind::Building],
            i <= kinds@.len(),
            flags@.len() == i,
            forall|j: int| 0 <= j < i ==> flags@[j] == (if kinds@[j] == MapTileKind::Water { enable_waters } else { enable_buildings }),
        decreases kinds@.len() - i,
    {
        flags.push(is_map_tile_kind_enabled(kinds[i], enable_waters, enable_buildings));
        i = i + 1;
    }
    proof {
        assert(flags@ =~= seq![enable_waters, enable_buildings]);
    }
    flags
}

} // verus!