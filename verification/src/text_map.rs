//! Maps keyed by text that keep their keys in `String` order (byte order
//! of the UTF-8 encoding), as an ordered map of strings iterates.
use vstd::prelude::*;
use vstd::utf8::{encode_utf8, encode_utf8_decode_utf8};

verus! {

/// `a` comes before `b` in lexicographic byte order.
pub open spec fn bytes_lt(a: Seq<u8>, b: Seq<u8>) -> bool
    decreases a.len(),
{
    if b.len() == 0 {
        false
    } else if a.len() == 0 {
        true
    } else if a[0] != b[0] {
        a[0] < b[0]
    } else {
        bytes_lt(a.drop_first(), b.drop_first())
    }
}

/// `a` comes before `b` as `String`s compare: by the bytes of their UTF-8
/// encodings.
pub open spec fn text_lt(a: Seq<char>, b: Seq<char>) -> bool {
    bytes_lt(encode_utf8(a), encode_utf8(b))
}

/// No byte string comes before itself.
pub proof fn lemma_bytes_lt_irreflexive(a: Seq<u8>)
    ensures
        !bytes_lt(a, a),
    decreases a.len(),
{
    if a.len() > 0 {
        lemma_bytes_lt_irreflexive(a.drop_first());
    }
}

/// Byte order is transitive.
pub proof fn lemma_bytes_lt_transitive(a: Seq<u8>, b: Seq<u8>, c: Seq<u8>)
    requires
        bytes_lt(a, b),
        bytes_lt(b, c),
    ensures
        bytes_lt(a, c),
    decreases a.len(),
{
    if a.len() > 0 && b.len() > 0 && c.len() > 0 && a[0] == b[0] && b[0] == c[0] {
        lemma_bytes_lt_transitive(a.drop_first(), b.drop_first(), c.drop_first());
    }
}

/// Different byte strings are ordered one way or the other.
pub proof fn lemma_bytes_lt_total(a: Seq<u8>, b: Seq<u8>)
    requires
        a != b,
    ensures
        bytes_lt(a, b) || bytes_lt(b, a),
    decreases a.len(),
{
    if a.len() > 0 && b.len() > 0 && a[0] == b[0] {
        if a.drop_first() == b.drop_first() {
            assert(a =~= seq![a[0]] + a.drop_first());
            assert(b =~= seq![b[0]] + b.drop_first());
        }
        lemma_bytes_lt_total(a.drop_first(), b.drop_first());
    } else if a.len() == 0 && b.len() == 0 {
        assert(a =~= b);
    }
}

/// Two byte strings are not each before the other.
pub proof fn lemma_bytes_lt_asymmetric(a: Seq<u8>, b: Seq<u8>)
    requires
        bytes_lt(a, b),
    ensures
        !bytes_lt(b, a),
{
    if bytes_lt(b, a) {
        lemma_bytes_lt_transitive(a, b, a);
        lemma_bytes_lt_irreflexive(a);
    }
}

/// Different texts are ordered one way or the other.
pub proof fn lemma_text_lt_total(a: Seq<char>, b: Seq<char>)
    requires
        a != b,
    ensures
        text_lt(a, b) || text_lt(b, a),
{
    encode_utf8_decode_utf8(a);
    encode_utf8_decode_utf8(b);
    lemma_bytes_lt_total(encode_utf8(a), encode_utf8(b));
}

/// No text comes before itself.
pub proof fn lemma_text_lt_irreflexive(a: Seq<char>)
    ensures
        !text_lt(a, a),
{
    lemma_bytes_lt_irreflexive(encode_utf8(a));
}

/// Text order is transitive.
pub proof fn lemma_text_lt_transitive(a: Seq<char>, b: Seq<char>, c: Seq<char>)
    requires
        text_lt(a, b),
        text_lt(b, c),
    ensures
        text_lt(a, c),
{
    lemma_bytes_lt_transitive(encode_utf8(a), encode_utf8(b), encode_utf8(c));
}

/// How two texts compare.
#[derive(Debug, Clone, Copy, PartialEq, Eq, Structural)]
pub enum TextOrder {
    Less,
    Equal,
    Greater,
}

/// Compares two byte strings lexicographically.
fn compare_bytes(a: &[u8], b: &[u8]) -> (order: TextOrder)
    ensures
        order == TextOrder::Less <==> bytes_lt(a@, b@),
        order == TextOrder::Equal <==> a@ == b@,
        order == TextOrder::Greater <==> bytes_lt(b@, a@),
{
    let mut i: usize = 0;
    proof {
        assert(a@.skip(0) == a@);
        assert(b@.skip(0) == b@);
    }
    while i < a.len() && i < b.len()
        invariant
            i <= a@.len(),
            i <= b@.len(),
            a@.take(i as int) == b@.take(i as int),
            bytes_lt(a@, b@) == bytes_lt(a@.skip(i as int), b@.skip(i as int)),
            bytes_lt(b@, a@) == bytes_lt(b@.skip(i as int), a@.skip(i as int)),
        decreases a@.len() - i,
    {
        if a[i] != b[i] {
            proof {
                assert(a@.skip(i as int)[0] == a@[i as int]);
                assert(b@.skip(i as int)[0] == b@[i as int]);
                if a@ == b@ {
                    assert(a@[i as int] == b@[i as int]);
                }
            }
            if a[i] < b[i] {
                return TextOrder::Less;
            } else {
                return TextOrder::Greater;
            }
        }
        proof {
            assert(a@.skip(i as int).drop_first() == a@.skip(i + 1));
            assert(b@.skip(i as int).drop_first() == b@.skip(i + 1));
            assert(a@.take(i + 1) == a@.take(i as int).push(a@[i as int]));
            assert(b@.take(i + 1) == b@.take(i as int).push(b@[i as int]));
        }
        i = i + 1;
    }
    proof {
        if i == a@.len() {
            assert(a@.take(i as int) == a@);
        }
        if i == b@.len() {
            assert(b@.take(i as int) == b@);
        }
        if a@ == b@ {
            assert(a@.len() == b@.len());
        }
    }
    if a.len() == b.len() {
        proof {
            assert(a@ == a@.take(i as int));
            assert(b@ == b@.take(i as int));
            lemma_bytes_lt_irreflexive(a@);
        }
        TextOrder::Equal
    } else if a.len() < b.len() {
        proof {
            assert(a@.skip(i as int).len() == 0);
        }
        TextOrder::Less
    } else {
        proof {
            assert(b@.skip(i as int).len() == 0);
        }
        TextOrder::Greater
    }
}

/// Compares two texts as `String`s compare.
pub fn compare_text(a: &str, b: &str) -> (order: TextOrder)
    ensures
        order == TextOrder::Less <==> text_lt(a@, b@),
        order == TextOrder::Equal <==> a@ == b@,
        order == TextOrder::Greater <==> text_lt(b@, a@),
{
    let order = compare_bytes(a.as_bytes(), b.as_bytes());
    proof {
        encode_utf8_decode_utf8(a@);
        encode_utf8_decode_utf8(b@);
    }
    order
}

/// Entry `i` of `entries` has key `k`.
spec fn key_at<V>(entries: Seq<(String, V)>, i: int, k: Seq<char>) -> bool {
    0 <= i < entries.len() && entries[i].0@ == k
}

/// A map from texts to values, its entries in ascending text order.
pub struct TextMap<V> {
    entries: Vec<(String, V)>,
}

impl<V> TextMap<V> {
    /// The keys ascend strictly.
    pub closed spec fn wf(&self) -> bool {
        forall|i: int, j: int| 0 <= i < j < self.entries@.len() ==> text_lt((#[trigger] self.entries@[i]).0@, (#[trigger] self.entries@[j]).0@)
    }

    /// The map's contents.
    pub closed spec fn map(&self) -> Map<Seq<char>, V> {
        Map::new(
            |k: Seq<char>| exists|i: int| #[trigger] key_at(self.entries@, i, k),
            |k: Seq<char>| self.entries@[choose|i: int| #[trigger] key_at(self.entries@, i, k)].1,
        )
    }

    /// The entries in ascending key order.
    pub closed spec fn spec_entries(&self) -> Seq<(String, V)> {
        self.entries@
    }

    proof fn lemma_keys_distinct(&self, i: int, j: int)
        requires
            self.wf(),
            0 <= i < self.entries@.len(),
            0 <= j < self.entries@.len(),
            i != j,
        ensures
            self.entries@[i].0@ != self.entries@[j].0@,
    {
        if i < j {
            assert(text_lt(self.entries@[i].0@, self.entries@[j].0@));
            lemma_text_lt_irreflexive(self.entries@[i].0@);
        } else {
            assert(text_lt(self.entries@[j].0@, self.entries@[i].0@));
            lemma_text_lt_irreflexive(self.entries@[j].0@);
        }
    }

    proof fn lemma_entry(&self, i: int)
        requires
            self.wf(),
            0 <= i < self.entries@.len(),
        ensures
            self.map().dom().contains(self.entries@[i].0@),
            self.map()[self.entries@[i].0@] == self.entries@[i].1,
    {
        let k = self.entries@[i].0@;
        assert(key_at(self.entries@, i, k));
        let j = choose|j: int| #[trigger] key_at(self.entries@, j, k);
        if j != i {
            self.lemma_keys_distinct(i, j);
        }
    }

    /// An empty map.
    pub fn new() -> (map: Self)
        ensures
            map.wf(),
            map.map() == Map::<Seq<char>, V>::empty(),
    {
        let map = TextMap { entries: Vec::new() };
        proof {
            assert(map.map() =~= Map::<Seq<char>, V>::empty());
        }
        map
    }

    /// The first position whose key is not before `key`, and whether that
    /// key is `key`.
    fn position(&self, key: &str) -> (found: (bool, usize))
        requires
            self.wf(),
        ensures
            found.1 <= self.entries@.len(),
            forall|i: int| 0 <= i < found.1 ==> text_lt((#[trigger] self.entries@[i]).0@, key@),
            found.1 < self.entries@.len() ==> !text_lt(self.entries@[found.1 as int].0@, key@),
            found.0 <==> found.1 < self.entries@.len() && self.entries@[found.1 as int].0@ == key@,
            !found.0 ==> !self.map().dom().contains(key@),
    {
        let mut i: usize = 0;
        while i < self.entries.len()
            invariant
                self.wf(),
                i <= self.entries@.len(),
                forall|k: int| 0 <= k < i ==> text_lt((#[trigger] self.entries@[k]).0@, key@),
            decreases self.entries@.len() - i,
        {
            match compare_text(self.entries[i].0.as_str(), key) {
                TextOrder::Less => {
                    i = i + 1;
                },
                TextOrder::Equal => {
                    return (true, i);
                },
                TextOrder::Greater => {
                    proof {
                        lemma_bytes_lt_asymmetric(encode_utf8(key@), encode_utf8(self.entries@[i as int].0@));
                        lemma_text_lt_irreflexive(key@);
                        assert forall|q: Seq<char>| self.map().dom().contains(q) implies q != key@ by {
                            let j = choose|j: int| #[trigger] key_at(self.entries@, j, q);
                            if j >= i && q == key@ {
                                if j > i {
                                    assert(text_lt(self.entries@[i as int].0@, self.entries@[j].0@));
                                    lemma_text_lt_transitive(key@, self.entries@[i as int].0@, key@);
                                }
                            }
                            if j < i && q == key@ {
                                assert(text_lt(self.entries@[j].0@, key@));
                            }
                        }
                    }
                    return (false, i);
                },
            }
        }
        proof {
            assert forall|q: Seq<char>| self.map().dom().contains(q) implies q != key@ by {
                let j = choose|j: int| #[trigger] key_at(self.entries@, j, q);
                if q == key@ {
                    assert(text_lt(self.entries@[j].0@, key@));
                    lemma_text_lt_irreflexive(key@);
                }
            }
        }
        (false, i)
    }

    /// The value of `key`, if the map has one.
    pub fn get(&self, key: &str) -> (value: Option<&V>)
        requires
            self.wf(),
        ensures
            value is Some <==> self.map().dom().contains(key@),
            value matches Some(v) ==> *v == self.map()[key@],
    {
        let (found, i) = self.position(key);
        if found {
            proof {
                self.lemma_entry(i as int);
            }
            Some(&self.entries[i].1)
        } else {
            None
        }
    }

    /// Takes out the value of `key`, if the map has one.
    pub fn remove(&mut self, key: &str) -> (value: Option<V>)
        requires
            old(self).wf(),
        ensures
            final(self).wf(),
            value is Some <==> old(self).map().dom().contains(key@),
            value matches Some(v) ==> v == old(self).map()[key@],
            final(self).map() == old(self).map().remove(key@),
    {
        let (found, i) = self.position(key);
        if !found {
            proof {
                assert(self.map() =~= old(self).map().remove(key@));
            }
            return None;
        }
        proof {
            self.lemma_entry(i as int);
        }
        let ghost before = self.entries@;
        let (_, value) = self.entries.remove(i);
        proof {
            assert forall|a: int, b: int| 0 <= a < b < self.entries@.len() implies text_lt((#[trigger] self.entries@[a]).0@, (#[trigger] self.entries@[b]).0@) by {
                let a2 = if a < i { a } else { a + 1 };
                let b2 = if b < i { b } else { b + 1 };
                assert(self.entries@[a] == before[a2]);
                assert(self.entries@[b] == before[b2]);
                assert(text_lt(before[a2].0@, before[b2].0@));
            }
            let m = self.map();
            let expected = old(self).map().remove(key@);
            assert forall|q: Seq<char>| #[trigger] m.dom().contains(q) <==> expected.dom().contains(q) by {
                if m.dom().contains(q) {
                    let j = choose|j: int| #[trigger] key_at(self.entries@, j, q);
                    let j2 = if j < i { j } else { j + 1 };
                    assert(self.entries@[j] == before[j2]);
                    assert(key_at(old(self).entries@, j2, q));
                    if q == key@ {
                        old(self).lemma_keys_distinct(i as int, j2);
                    }
                }
                if expected.dom().contains(q) {
                    let j = choose|j: int| #[trigger] key_at(old(self).entries@, j, q);
                    assert(j != i);
                    let j2 = if j < i { j } else { j - 1 };
                    assert(self.entries@[j2] == before[j]);
                    assert(key_at(self.entries@, j2, q));
                }
            }
            assert forall|q: Seq<char>| #[trigger] m.dom().contains(q) implies m[q] == expected[q] by {
                let j = choose|j: int| #[trigger] key_at(self.entries@, j, q);
                self.lemma_entry(j);
                let j2 = if j < i { j } else { j + 1 };
                assert(self.entries@[j] == before[j2]);
                old(self).lemma_entry(j2);
            }
            assert(m =~= expected);
        }
        Some(value)
    }

    /// Sets the value of `key`, replacing the one it had.
    pub fn insert(&mut self, key: String, value: V)
        requires
            old(self).wf(),
        ensures
            final(self).wf(),
            final(self).map() == old(self).map().insert(key@, value),
    {
        let ghost k = key@;
        let (found, i) = self.position(key.as_str());
        let ghost before = self.entries@;
        if found {
            self.entries.set(i, (key, value));
            proof {
                assert forall|a: int, b: int| 0 <= a < b < self.entries@.len() implies text_lt((#[trigger] self.entries@[a]).0@, (#[trigger] self.entries@[b]).0@) by {
                    assert(self.entries@[a].0@ == before[a].0@);
                    assert(self.entries@[b].0@ == before[b].0@);
                    assert(text_lt(before[a].0@, before[b].0@));
                }
            }
        } else {
            self.entries.insert(i, (key, value));
            proof {
                if i < before.len() {
                    lemma_text_lt_total(k, before[i as int].0@);
                }
                assert forall|a: int, b: int| 0 <= a < b < self.entries@.len() implies text_lt((#[trigger] self.entries@[a]).0@, (#[trigger] self.entries@[b]).0@) by {
                    if a < i && b < i {
                        assert(text_lt(before[a].0@, before[b].0@));
                    } else if a < i && b == i {
                        assert(text_lt(before[a].0@, k));
                    } else if a < i {
                        assert(self.entries@[b] == before[b - 1]);
                        if b - 1 > i {
                            assert(text_lt(before[i as int].0@, before[b - 1].0@));
                            lemma_text_lt_transitive(k, before[i as int].0@, before[b - 1].0@);
                        }
                        lemma_text_lt_transitive(before[a].0@, k, before[b - 1].0@);
                    } else if a == i {
                        assert(self.entries@[b] == before[b - 1]);
                        if b - 1 > i {
                            assert(text_lt(before[i as int].0@, before[b - 1].0@));
                            lemma_text_lt_transitive(k, before[i as int].0@, before[b - 1].0@);
                        }
                    } else {
                        assert(self.entries@[a] == before[a - 1]);
                        assert(self.entries@[b] == before[b - 1]);
                        assert(text_lt(before[a - 1].0@, before[b - 1].0@));
                    }
                }
            }
        }
        proof {
            let m = self.map();
            let expected = old(self).map().insert(k, value);
            assert forall|q: Seq<char>| #[trigger] m.dom().contains(q) <==> expected.dom().contains(q) by {
                if m.dom().contains(q) && q != k {
                    let j = choose|j: int| #[trigger] key_at(self.entries@, j, q);
                    let j2 = if found || j < i { j } else { j - 1 };
                    assert(self.entries@[j] == before[j2]);
                    assert(key_at(old(self).entries@, j2, q));
                }
                if expected.dom().contains(q) && q != k {
                    let j = choose|j: int| #[trigger] key_at(old(self).entries@, j, q);
                    let j2 = if found || j < i { j } else { j + 1 };
                    assert(self.entries@[j2] == before[j] || (found && j == i));
                    if found && j == i {
                        assert(before[j].0@ == k);
                    }
                    assert(key_at(self.entries@, j2, q));
                }
                if q == k {
                    assert(key_at(self.entries@, i as int, q));
                }
            }
            assert forall|q: Seq<char>| #[trigger] m.dom().contains(q) implies m[q] == expected[q] by {
                let j = choose|j: int| #[trigger] key_at(self.entries@, j, q);
                self.lemma_entry(j);
                if q != k {
                    let j2 = if found || j < i { j } else { j - 1 };
                    if found {
                        assert(j != i);
                    }
                    assert(self.entries@[j] == before[j2]);
                    old(self).lemma_entry(j2);
                } else {
                    self.lemma_entry(i as int);
                }
            }
            assert(m =~= expected);
        }
    }

    /// Whether the map has no key.
    pub fn is_empty(&self) -> (empty: bool)
        ensures
            empty <==> !(exists|k: Seq<char>| self.map().dom().contains(k)),
    {
        if self.entries.len() == 0 {
            true
        } else {
            proof {
                assert(key_at(self.entries@, 0, self.entries@[0].0@));
                assert(self.map().dom().contains(self.entries@[0].0@));
            }
            false
        }
    }

    /// The entries, in ascending key order.
    pub fn into_entries(self) -> (entries: Vec<(String, V)>)
        requires
            self.wf(),
        ensures
            entries@ == self.spec_entries(),
            forall|i: int, j: int| 0 <= i < j < entries@.len() ==> text_lt((#[trigger] entries@[i]).0@, (#[trigger] entries@[j]).0@),
            forall|i: int| 0 <= i < entries@.len() ==> self.map().dom().contains((#[trigger] entries@[i]).0@)
                && self.map()[entries@[i].0@] == entries@[i].1,
            forall|k: Seq<char>| #[trigger] self.map().dom().contains(k) ==> exists|i: int| 0 <= i < entries@.len() && (#[trigger] entries@[i]).0@ == k,
    {
        proof {
            assert forall|i: int| 0 <= i < self.entries@.len() implies self.map().dom().contains((#[trigger] self.entries@[i]).0@)
                && self.map()[self.entries@[i].0@] == self.entries@[i].1 by {
                self.lemma_entry(i);
            }
        }
        self.entries
    }
}

} // verus!
