//! Sorting keys made of a number and a position, with a merge sort. The
//! positions make every key distinct, so the order is total and ties in the
//! number keep their input order.
use vstd::prelude::*;

verus! {

/// A sort key: a number to order by and the position of its item in the input.
pub type SortKey = (u64, usize);

/// `a` comes before `b`: a smaller number, or the same number and an earlier position.
pub open spec fn key_lt(a: SortKey, b: SortKey) -> bool {
    a.0 < b.0 || (a.0 == b.0 && a.1 < b.1)
}

/// The keys ascend strictly.
pub open spec fn keys_sorted(s: Seq<SortKey>) -> bool {
    forall|i: int, j: int| 0 <= i < j < s.len() ==> key_lt(#[trigger] s[i], #[trigger] s[j])
}

/// Merges two sorted runs whose positions lie in `[lo, mid)` and `[mid, hi)`.
fn merge_keys(a: Vec<SortKey>, b: Vec<SortKey>, Ghost(lo): Ghost<int>, Ghost(mid): Ghost<int>, Ghost(hi): Ghost<int>) -> (merged: Vec<SortKey>)
    requires
        lo <= mid <= hi,
        keys_sorted(a@),
        keys_sorted(b@),
        forall|i: int| 0 <= i < a@.len() ==> lo <= #[trigger] a@[i].1 < mid,
        forall|i: int| 0 <= i < b@.len() ==> mid <= #[trigger] b@[i].1 < hi,
    ensures
        keys_sorted(merged@),
        merged@.to_multiset() == a@.to_multiset().add(b@.to_multiset()),
        forall|i: int| 0 <= i < merged@.len() ==> lo <= #[trigger] merged@[i].1 < hi,
{
    broadcast use vstd::seq_lib::group_to_multiset_ensures;
    broadcast use vstd::multiset::group_multiset_axioms;

    let mut merged: Vec<SortKey> = Vec::new();
    let mut i: usize = 0;
    let mut j: usize = 0;
    while i < a.len() || j < b.len()
        invariant
            lo <= mid <= hi,
            keys_sorted(a@),
            keys_sorted(b@),
            forall|k: int| 0 <= k < a@.len() ==> lo <= #[trigger] a@[k].1 < mid,
            forall|k: int| 0 <= k < b@.len() ==> mid <= #[trigger] b@[k].1 < hi,
            i <= a@.len(),
            j <= b@.len(),
            merged@.len() == i + j,
            keys_sorted(merged@),
            merged@.to_multiset() == a@.take(i as int).to_multiset().add(b@.take(j as int).to_multiset()),
            forall|k: int| 0 <= k < merged@.len() ==> lo <= #[trigger] merged@[k].1 < hi,
            merged@.len() > 0 && i < a@.len() ==> key_lt(merged@.last(), a@[i as int]),
            merged@.len() > 0 && j < b@.len() ==> key_lt(merged@.last(), b@[j as int]),
        decreases a@.len() + b@.len() - i - j,
    {
        let take_a = if i < a.len() && j < b.len() {
            let x = a[i];
            let y = b[j];
            x.0 < y.0 || (x.0 == y.0 && x.1 < y.1)
        } else {
            i < a.len()
        };
        let ghost before = merged@;
        if take_a {
            let x = a[i];
            merged.push(x);
            proof {
                assert(a@.take(i + 1) == a@.take(i as int).push(x));
                assert(merged@ == before.push(x));
                vstd::seq_lib::to_multiset_build(before, x);
                vstd::seq_lib::to_multiset_build(a@.take(i as int), x);
                assert(merged@.to_multiset() =~= a@.take(i + 1).to_multiset().add(b@.take(j as int).to_multiset()));
                assert(forall|k: int| 0 <= k < before.len() ==> merged@[k] == before[k]);
                if j < b@.len() {
                    assert(x.1 != b@[j as int].1);
                }
            }
            i = i + 1;
        } else {
            let y = b[j];
            merged.push(y);
            proof {
                assert(b@.take(j + 1) == b@.take(j as int).push(y));
                assert(merged@ == before.push(y));
                vstd::seq_lib::to_multiset_build(before, y);
                vstd::seq_lib::to_multiset_build(b@.take(j as int), y);
                assert(merged@.to_multiset() =~= a@.take(i as int).to_multiset().add(b@.take(j + 1).to_multiset()));
                assert(forall|k: int| 0 <= k < before.len() ==> merged@[k] == before[k]);
                if i < a@.len() {
                    assert(y.1 != a@[i as int].1);
                }
            }
            j = j + 1;
        }
        proof {
            assert forall|p: int, q: int| 0 <= p < q < merged@.len() implies key_lt(#[trigger] merged@[p], #[trigger] merged@[q]) by {
                if q == merged@.len() - 1 && p < before.len() {
                    assert(key_lt(before[p], before.last()) || p == before.len() - 1);
                }
            }
        }
    }
    proof {
        assert(a@.take(a@.len() as int) == a@);
        assert(b@.take(b@.len() as int) == b@);
    }
    merged
}

/// `keys[lo..hi]` sorted, where each key's second part is its position.
pub fn sort_keys(keys: &Vec<SortKey>, lo: usize, hi: usize) -> (sorted: Vec<SortKey>)
    requires
        lo <= hi <= keys@.len(),
        forall|k: int| lo <= k < hi ==> (#[trigger] keys@[k]).1 == k,
    ensures
        keys_sorted(sorted@),
        sorted@.to_multiset() == keys@.subrange(lo as int, hi as int).to_multiset(),
        forall|i: int| 0 <= i < sorted@.len() ==> lo <= #[trigger] sorted@[i].1 < hi,
    decreases hi - lo,
{
    broadcast use vstd::seq_lib::group_to_multiset_ensures;

    if hi - lo <= 1 {
        let mut sorted: Vec<SortKey> = Vec::new();
        if hi - lo == 1 {
            sorted.push(keys[lo]);
            proof {
                assert(keys@.subrange(lo as int, hi as int) == Seq::<SortKey>::empty().push(keys@[lo as int]));
                assert(sorted@ == Seq::<SortKey>::empty().push(keys@[lo as int]));
            }
        } else {
            proof {
                assert(keys@.subrange(lo as int, hi as int) == sorted@);
            }
        }
        return sorted;
    }
    let mid = lo + (hi - lo) / 2;
    let left = sort_keys(keys, lo, mid);
    let right = sort_keys(keys, mid, hi);
    proof {
        assert(keys@.subrange(lo as int, hi as int) == keys@.subrange(lo as int, mid as int) + keys@.subrange(mid as int, hi as int));
        vstd::seq_lib::lemma_multiset_commutative(keys@.subrange(lo as int, mid as int), keys@.subrange(mid as int, hi as int));
    }
    merge_keys(left, right, Ghost(lo as int), Ghost(mid as int), Ghost(hi as int))
}

} // verus!
