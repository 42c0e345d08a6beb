//! A table with one value per key, as the map client keeps them per source
//! tile (a source id and a tile id) or per tile: parses under way, spawned
//! buckets, spawned terrain tiles.
use vstd::prelude::*;
use crate::canonical::CanonicalTileId;

verus! {

/// A source tile: the id of the source and the tile.
#[derive(Debug)]
pub struct MlTileKey {
    source_id: String,
    tile_id: CanonicalTileId,
}

/// What a key stands for: the source id's characters and the tile.
pub type MlTileKeyView = (Seq<char>, CanonicalTileId);

impl View for MlTileKey {
    type V = MlTileKeyView;

    closed spec fn view(&self) -> MlTileKeyView {
        (self.source_id@, self.tile_id)
    }
}

impl MlTileKey {
    pub fn new(source_id: String, tile_id: CanonicalTileId) -> (key: Self)
        ensures
            key@ == (source_id@, tile_id),
    {
        MlTileKey { source_id, tile_id }
    }

    pub fn source_id(&self) -> (source_id: &String)
        ensures
            source_id@ == self@.0,
    {
        &self.source_id
    }

    pub fn tile_id(&self) -> (tile_id: CanonicalTileId)
        ensures
            tile_id == self@.1,
    {
        self.tile_id
    }

}

/// A key of a table, compared by what it stands for.
pub trait TableKey: View + Sized {
    fn same_key(&self, other: &Self) -> (same: bool)
        ensures
            same == (self@ == other@),
    ;
}

impl TableKey for MlTileKey {
    fn same_key(&self, other: &Self) -> (same: bool) {
        self.tile_id == other.tile_id && self.source_id == other.source_id
    }
}

impl TableKey for CanonicalTileId {
    fn same_key(&self, other: &Self) -> (same: bool) {
        *self == *other
    }
}

/// The keys of `keys`, as a set.
pub open spec fn key_set<K: View>(keys: Seq<K>) -> Set<K::V> {
    Set::new(|k: K::V| exists|i: int| 0 <= i < keys.len() && (#[trigger] keys[i])@ == k)
}

/// One value per key.
pub struct TileTable<K, V> {
    entries: Vec<(K, V)>,
}

impl<K: TableKey, V> TileTable<K, V> {
    /// No key occurs twice.
    pub closed spec fn wf(&self) -> bool {
        forall|i: int, j: int|
            0 <= i < j < self.entries@.len() ==> (#[trigger] self.entries@[i]).0@ != (#[trigger] self.entries@[j]).0@
    }

    /// The table's contents.
    pub closed spec fn map(&self) -> Map<K::V, V> {
        Map::new(
            |k: K::V| exists|i: int| 0 <= i < self.entries@.len() && (#[trigger] self.entries@[i]).0@ == k,
            |k: K::V|
                {
                    let i = choose|i: int| 0 <= i < self.entries@.len() && (#[trigger] self.entries@[i]).0@ == k;
                    self.entries@[i].1
                },
        )
    }

    /// An empty table.
    pub fn new() -> (table: Self)
        ensures
            table.wf(),
            table.map() == Map::<K::V, V>::empty(),
    {
        let table = TileTable { entries: Vec::new() };
        proof {
            assert(table.map() =~= Map::<K::V, V>::empty());
        }
        table
    }

    proof fn lemma_entry(&self, i: int)
        requires
            self.wf(),
            0 <= i < self.entries@.len(),
        ensures
            self.map().dom().contains(self.entries@[i].0@),
            self.map()[self.entries@[i].0@] == self.entries@[i].1,
    {
        let k = self.entries@[i].0@;
        assert(self.map().dom().contains(k));
        let j = choose|j: int| 0 <= j < self.entries@.len() && (#[trigger] self.entries@[j]).0@ == k;
        if j != i {
            if j < i {
                assert(self.entries@[j].0@ != self.entries@[i].0@);
            } else {
                assert(self.entries@[i].0@ != self.entries@[j].0@);
            }
        }
    }

    /// Index of the entry of `key`.
    fn find(&self, key: &K) -> (index: Option<usize>)
        requires
            self.wf(),
        ensures
            index is None ==> !self.map().dom().contains(key@),
            index matches Some(i) ==> i < self.entries@.len() && self.entries@[i as int].0@ == key@,
    {
        let mut i: usize = 0;
        while i < self.entries.len()
            invariant
                i <= self.entries@.len(),
                forall|k: int| 0 <= k < i ==> (#[trigger] self.entries@[k]).0@ != key@,
            decreases self.entries@.len() - i,
        {
            if self.entries[i].0.same_key(key) {
                return Some(i);
            }
            i = i + 1;
        }
        None
    }

    /// The value of `key`, if the table has one.
    pub fn get(&self, key: &K) -> (value: Option<&V>)
        requires
            self.wf(),
        ensures
            value is Some <==> self.map().dom().contains(key@),
            value matches Some(v) ==> *v == self.map()[key@],
    {
        match self.find(key) {
            Some(i) => {
                proof {
                    self.lemma_entry(i as int);
                }
                Some(&self.entries[i].1)
            },
            None => None,
        }
    }

    /// Whether the table has a value for `key`.
    pub fn contains(&self, key: &K) -> (found: bool)
        requires
            self.wf(),
        ensures
            found == self.map().dom().contains(key@),
    {
        self.find(key).is_some()
    }

    /// Number of entries.
    pub fn len(&self) -> (len: usize)
        requires
            self.wf(),
        ensures
            len == self.map().dom().len(),
    {
        proof {
            self.lemma_len();
        }
        self.entries.len()
    }

    proof fn lemma_len(&self)
        requires
            self.wf(),
        ensures
            self.map().dom().finite(),
            self.map().dom().len() == self.entries@.len(),
        decreases self.entries@.len(),
    {
        let keys = self.entries@.map_values(|e: (K, V)| e.0@);
        assert forall|i: int, j: int| 0 <= i < j < keys.len() implies keys[i] != keys[j] by {
            assert(self.entries@[i].0@ != self.entries@[j].0@);
        }
        assert(keys.no_duplicates());
        keys.unique_seq_to_set();
        assert forall|k: K::V| #[trigger] self.map().dom().contains(k) <==> keys.to_set().contains(k) by {
            if self.map().dom().contains(k) {
                let i = choose|i: int| 0 <= i < self.entries@.len() && (#[trigger] self.entries@[i]).0@ == k;
                assert(keys[i] == k);
            }
            if keys.to_set().contains(k) {
                let i = choose|i: int| 0 <= i < keys.len() && keys[i] == k;
                assert(self.entries@[i].0@ == k);
            }
        }
        assert(self.map().dom() =~= keys.to_set());
    }

    /// Sets the value of `key`, replacing the one it had.
    pub fn insert(&mut self, key: K, value: V)
        requires
            old(self).wf(),
        ensures
            final(self).wf(),
            final(self).map() == old(self).map().insert(key@, value),
    {
        let ghost k = key@;
        let found = self.find(&key);
        let ghost before = self.entries@;
        match found {
            Some(i) => {
                self.entries.set(i, (key, value));
                proof {
                    assert forall|a: int, b: int|
                        0 <= a < b < self.entries@.len() implies (#[trigger] self.entries@[a]).0@ != (#[trigger] self.entries@[b]).0@ by {
                        assert(before[a].0@ != before[b].0@);
                    }
                }
            },
            None => {
                self.entries.push((key, value));
                proof {
                    assert forall|a: int, b: int|
                        0 <= a < b < self.entries@.len() implies (#[trigger] self.entries@[a]).0@ != (#[trigger] self.entries@[b]).0@ by {
                        if b == before.len() {
                            assert(old(self).entries@[a] == before[a]);
                            assert(old(self).map().dom().contains(before[a].0@));
                        } else {
                            assert(before[a].0@ != before[b].0@);
                        }
                    }
                }
            },
        }
        proof {
            let m = self.map();
            let expected = old(self).map().insert(k, value);
            assert forall|q: K::V| #[trigger] m.dom().contains(q) <==> expected.dom().contains(q) by {
                if m.dom().contains(q) {
                    let j = choose|j: int| 0 <= j < self.entries@.len() && (#[trigger] self.entries@[j]).0@ == q;
                    if q != k {
                        assert(j < before.len() && before[j] == self.entries@[j]);
                        assert(old(self).entries@[j].0@ == q);
                    }
                }
                if expected.dom().contains(q) && q != k {
                    let j = choose|j: int| 0 <= j < old(self).entries@.len() && (#[trigger] old(self).entries@[j]).0@ == q;
                    assert(self.entries@[j].0@ == q);
                }
                if q == k {
                    let j: int = match found {
                        Some(i) => i as int,
                        None => before.len() as int,
                    };
                    assert(self.entries@[j].0@ == q);
                }
            }
            assert forall|q: K::V| #[trigger] m.dom().contains(q) implies m[q] == expected[q] by {
                let j = choose|j: int| 0 <= j < self.entries@.len() && (#[trigger] self.entries@[j]).0@ == q;
                self.lemma_entry(j);
                if q != k {
                    assert(before[j] == self.entries@[j]);
                    old(self).lemma_entry(j);
                }
            }
            assert(m =~= expected);
        }
    }

    /// Removes entry `i`.
    fn remove_at(&mut self, i: usize) -> (entry: (K, V))
        requires
            old(self).wf(),
            i < old(self).entries@.len(),
        ensures
            final(self).wf(),
            entry == old(self).entries@[i as int],
            final(self).entries@ == old(self).entries@.remove(i as int),
            old(self).map().dom().contains(entry.0@),
            old(self).map()[entry.0@] == entry.1,
            final(self).map() == old(self).map().remove(entry.0@),
    {
        proof {
            self.lemma_entry(i as int);
        }
        let ghost before = self.entries@;
        let ghost k = before[i as int].0@;
        let entry = self.entries.remove(i);
        proof {
            assert forall|a: int, b: int|
                0 <= a < b < self.entries@.len() implies (#[trigger] self.entries@[a]).0@ != (#[trigger] self.entries@[b]).0@ by {
                let a2 = if a < i { a } else { a + 1 };
                let b2 = if b < i { b } else { b + 1 };
                assert(self.entries@[a] == before[a2]);
                assert(self.entries@[b] == before[b2]);
                assert(before[a2].0@ != before[b2].0@);
            }
            let m = self.map();
            let expected = old(self).map().remove(k);
            assert forall|q: K::V| #[trigger] m.dom().contains(q) <==> expected.dom().contains(q) by {
                if m.dom().contains(q) {
                    let j = choose|j: int| 0 <= j < self.entries@.len() && (#[trigger] self.entries@[j]).0@ == q;
                    let j2 = if j < i { j } else { j + 1 };
                    assert(self.entries@[j] == before[j2]);
                    assert(old(self).entries@[j2].0@ == q);
                    if q == k {
                        if j2 < i {
                            assert(before[j2].0@ != before[i as int].0@);
                        } else {
                            assert(before[i as int].0@ != before[j2].0@);
                        }
                    }
                }
                if expected.dom().contains(q) {
                    let j = choose|j: int| 0 <= j < old(self).entries@.len() && (#[trigger] old(self).entries@[j]).0@ == q;
                    assert(j != i);
                    let j2 = if j < i { j } else { j - 1 };
                    assert(self.entries@[j2] == before[j]);
                    assert(self.entries@[j2].0@ == q);
                }
            }
            assert forall|q: K::V| #[trigger] m.dom().contains(q) implies m[q] == expected[q] by {
                let j = choose|j: int| 0 <= j < self.entries@.len() && (#[trigger] self.entries@[j]).0@ == q;
                self.lemma_entry(j);
                let j2 = if j < i { j } else { j + 1 };
                assert(self.entries@[j] == before[j2]);
                old(self).lemma_entry(j2);
            }
            assert(m =~= expected);
        }
        entry
    }

    /// Takes out the value of `key`, if the table has one.
    pub fn remove(&mut self, key: &K) -> (value: Option<V>)
        requires
            old(self).wf(),
        ensures
            final(self).wf(),
            value is Some <==> old(self).map().dom().contains(key@),
            value matches Some(v) ==> v == old(self).map()[key@],
            final(self).map() == old(self).map().remove(key@),
    {
        match self.find(key) {
            Some(i) => {
                let entry = self.remove_at(i);
                Some(entry.1)
            },
            None => {
                proof {
                    assert(self.map() =~= old(self).map().remove(key@));
                }
                None
            },
        }
    }

    /// The entries, in no particular order.
    pub fn entries(&self) -> (entries: &Vec<(K, V)>)
        requires
            self.wf(),
        ensures
            forall|i: int| 0 <= i < entries@.len() ==> self.map().dom().contains((#[trigger] entries@[i]).0@)
                && self.map()[entries@[i].0@] == entries@[i].1,
            forall|k: K::V| #[trigger] self.map().dom().contains(k) ==> exists|i: int| 0 <= i < entries@.len() && (#[trigger] entries@[i]).0@ == k,
            forall|i: int, j: int| 0 <= i < j < entries@.len() ==> (#[trigger] entries@[i]).0@ != (#[trigger] entries@[j]).0@,
    {
        proof {
            assert forall|i: int| 0 <= i < self.entries@.len() implies self.map().dom().contains((#[trigger] self.entries@[i]).0@)
                && self.map()[self.entries@[i].0@] == self.entries@[i].1 by {
                self.lemma_entry(i);
            }
        }
        &self.entries
    }

    /// The positions in `wanted` of the keys the table has no value for.
    pub fn missing(&self, wanted: &[K]) -> (missing: Vec<usize>)
        requires
            self.wf(),
        ensures
            forall|p: int, q: int| 0 <= p < q < missing@.len() ==> missing@[p] < missing@[q],
            forall|p: int| 0 <= p < missing@.len() ==> (#[trigger] missing@[p]) < wanted@.len(),
            forall|i: int|
                0 <= i < wanted@.len() ==> (!self.map().dom().contains((#[trigger] wanted@[i])@) <==> missing@.contains(i as usize)),
    {
        let mut missing: Vec<usize> = Vec::new();
        let mut i: usize = 0;
        while i < wanted.len()
            invariant
                self.wf(),
                i <= wanted@.len(),
                forall|p: int, q: int| 0 <= p < q < missing@.len() ==> missing@[p] < missing@[q],
                forall|p: int| 0 <= p < missing@.len() ==> (#[trigger] missing@[p]) < i,
                forall|k: int|
                    0 <= k < i ==> (!self.map().dom().contains((#[trigger] wanted@[k])@) <==> missing@.contains(k as usize)),
            decreases wanted@.len() - i,
        {
            let key = &wanted[i];
            let ghost before = missing@;
            if !self.contains(key) {
                missing.push(i);
                proof {
                    assert(missing@[missing@.len() - 1] == i);
                    assert forall|k: int| 0 <= k < i implies (!self.map().dom().contains((#[trigger] wanted@[k])@) <==> missing@.contains(k as usize)) by {
                        if before.contains(k as usize) {
                            let p = choose|p: int| 0 <= p < before.len() && before[p] == k as usize;
                            assert(missing@[p] == k as usize);
                        }
                        if missing@.contains(k as usize) {
                            let p = choose|p: int| 0 <= p < missing@.len() && missing@[p] == k as usize;
                            assert(p < before.len());
                            assert(before[p] == k as usize);
                        }
                    }
                }
            } else {
                proof {
                    assert(!missing@.contains(i));
                }
            }
            i = i + 1;
        }
        missing
    }

    /// Keeps the entries whose keys occur in `wanted` and hands out the
    /// others.
    pub fn retain_keys(&mut self, wanted: &[K]) -> (removed: Vec<(K, V)>)
        requires
            old(self).wf(),
        ensures
            final(self).wf(),
            final(self).map() == old(self).map().restrict(key_set(wanted@)),
            forall|p: int|
                0 <= p < removed@.len() ==> old(self).map().dom().contains((#[trigger] removed@[p]).0@)
                    && !key_set(wanted@).contains(removed@[p].0@) && old(self).map()[removed@[p].0@] == removed@[p].1,
            forall|k: K::V|
                #[trigger] old(self).map().dom().contains(k) && !key_set(wanted@).contains(k) ==> exists|p: int|
                    0 <= p < removed@.len() && (#[trigger] removed@[p]).0@ == k,
    {
        let mut removed: Vec<(K, V)> = Vec::new();
        let mut i: usize = 0;
        let ghost wanted_keys = key_set(wanted@);
        while i < self.entries.len()
            invariant
                self.wf(),
                wanted_keys == key_set(wanted@),
                i <= self.entries@.len(),
                forall|k: int| 0 <= k < i ==> wanted_keys.contains((#[trigger] self.entries@[k]).0@),
                self.map().dom().subset_of(old(self).map().dom()),
                forall|k: K::V| #[trigger] self.map().dom().contains(k) ==> self.map()[k] == old(self).map()[k],
                forall|k: K::V| #[trigger] old(self).map().dom().contains(k) && wanted_keys.contains(k) ==> self.map().dom().contains(k),
                forall|p: int|
                    0 <= p < removed@.len() ==> old(self).map().dom().contains((#[trigger] removed@[p]).0@)
                        && !wanted_keys.contains(removed@[p].0@) && old(self).map()[removed@[p].0@] == removed@[p].1,
                forall|k: K::V|
                    #[trigger] old(self).map().dom().contains(k) && !self.map().dom().contains(k) ==> exists|p: int|
                        0 <= p < removed@.len() && (#[trigger] removed@[p]).0@ == k,
            decreases self.entries@.len() - i,
        {
            let keep = {
                let key = &self.entries[i].0;
                let mut found = false;
                let mut j: usize = 0;
                while j < wanted.len()
                    invariant
                        j <= wanted@.len(),
                        found <==> exists|w: int| 0 <= w < j && (#[trigger] wanted@[w])@ == key@,
                    decreases wanted@.len() - j,
                {
                    if wanted[j].same_key(key) {
                        found = true;
                    }
                    j = j + 1;
                }
                found
            };
            proof {
                assert(keep == wanted_keys.contains(self.entries@[i as int].0@));
            }
            if keep {
                i = i + 1;
            } else {
                let ghost before = *self;
                let ghost before_removed = removed@;
                let entry = self.remove_at(i);
                removed.push(entry);
                proof {
                    assert forall|k: int| 0 <= k < i implies wanted_keys.contains((#[trigger] self.entries@[k]).0@) by {
                        assert(self.entries@[k] == before.entries@[k]);
                    }
                    assert forall|p: int|
                        0 <= p < removed@.len() implies old(self).map().dom().contains((#[trigger] removed@[p]).0@)
                            && !wanted_keys.contains(removed@[p].0@) && old(self).map()[removed@[p].0@] == removed@[p].1 by {
                        if p < before_removed.len() {
                            assert(removed@[p] == before_removed[p]);
                        }
                    }
                    assert forall|k: K::V|
                        #[trigger] old(self).map().dom().contains(k) && !self.map().dom().contains(k) implies exists|p: int|
                            0 <= p < removed@.len() && (#[trigger] removed@[p]).0@ == k by {
                        if before.map().dom().contains(k) {
                            assert(removed@[removed@.len() - 1].0@ == k);
                        } else {
                            let p = choose|p: int| 0 <= p < before_removed.len() && (#[trigger] before_removed[p]).0@ == k;
                            assert(removed@[p] == before_removed[p]);
                        }
                    }
                }
            }
        }
        proof {
            let m = self.map();
            let expected = old(self).map().restrict(wanted_keys);
            assert forall|q: K::V| #[trigger] m.dom().contains(q) <==> expected.dom().contains(q) by {
                if m.dom().contains(q) {
                    let j = choose|j: int| 0 <= j < self.entries@.len() && (#[trigger] self.entries@[j]).0@ == q;
                    assert(wanted_keys.contains(self.entries@[j].0@));
                }
            }
            assert(m =~= expected);
        }
        removed
    }
}

} // verus!
