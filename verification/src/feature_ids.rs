//! Ids of the features of one vector-tile layer: the tile's own id where it
//! is present and not yet taken, else a generated id with the top bit set.
use std::collections::HashSet;
use vstd::prelude::*;

verus! {

broadcast use vstd::std_specs::hash::group_hash_axioms;

/// Marks ids that were generated rather than read from the tile.
pub const GENERATED_FEATURE_ID_BIT: u64 = 0x8000_0000_0000_0000;

/// Number of generated ids: one for each value of the low 63 bits.
pub open spec fn generated_id_count() -> nat {
    0x8000_0000_0000_0000nat
}

/// The `j`-th generated id tried for the feature whose index has low 63
/// bits `start`: indices are tried upwards from `start`, wrapping to 0.
pub open spec fn generated_candidate(start: nat, j: nat) -> u64 {
    (0x8000_0000_0000_0000nat + (start + j) % generated_id_count()) as u64
}

/// The first `j` generated ids tried.
pub open spec fn tried_candidates(start: nat, j: nat) -> Set<u64>
    decreases j,
{
    if j == 0 {
        Set::empty()
    } else {
        tried_candidates(start, (j - 1) as nat).insert(generated_candidate(start, (j - 1) as nat))
    }
}

proof fn lemma_candidates_distinct(start: nat, j1: nat, j2: nat)
    requires
        j1 < j2 < generated_id_count(),
    ensures
        generated_candidate(start, j1) != generated_candidate(start, j2),
{
    let m = generated_id_count() as int;
    let a = (start + j1) as int;
    let b = (start + j2) as int;
    vstd::arithmetic::div_mod::lemma_fundamental_div_mod(a, m);
    vstd::arithmetic::div_mod::lemma_fundamental_div_mod(b, m);
    vstd::arithmetic::div_mod::lemma_mod_bound(a, m);
    vstd::arithmetic::div_mod::lemma_mod_bound(b, m);
    if a % m == b % m {
        let q = b / m - a / m;
        assert(b - a == m * q) by (nonlinear_arith)
            requires
                a == m * (a / m) + a % m,
                b == m * (b / m) + b % m,
                a % m == b % m,
                q == b / m - a / m,
        ;
        assert(false) by (nonlinear_arith)
            requires
                0 < m * q < m,
                m > 0,
        ;
    }
}

proof fn lemma_tried_candidates_len(start: nat, j: nat)
    requires
        j <= generated_id_count(),
    ensures
        tried_candidates(start, j).finite(),
        tried_candidates(start, j).len() == j,
        forall|k: nat| k < j ==> tried_candidates(start, j).contains(#[trigger] generated_candidate(start, k)),
    decreases j,
{
    if j > 0 {
        let prev = (j - 1) as nat;
        lemma_tried_candidates_len(start, prev);
        if tried_candidates(start, prev).contains(generated_candidate(start, prev)) {
            lemma_tried_candidates_members(start, prev, generated_candidate(start, prev));
            let k = choose|k: nat| k < prev && generated_candidate(start, k) == generated_candidate(start, prev);
            lemma_candidates_distinct(start, k, prev);
        }
    }
}

proof fn lemma_tried_candidates_members(start: nat, j: nat, v: u64)
    requires
        tried_candidates(start, j).contains(v),
    ensures
        exists|k: nat| k < j && generated_candidate(start, k) == v,
    decreases j,
{
    if j > 0 {
        let prev = (j - 1) as nat;
        if v != generated_candidate(start, prev) {
            lemma_tried_candidates_members(start, prev, v);
        }
    }
}

/// The id of the feature at position `feature_index` of its layer, given
/// the id the tile stores for it (if any) and the ids the layer has used so
/// far; the chosen id is added to `used_feature_ids`.
pub fn feature_id(raw_feature_id: Option<u64>, feature_index: usize, used_feature_ids: &mut HashSet<u64>) -> (id: u64)
    requires
        old(used_feature_ids)@.finite(),
        old(used_feature_ids)@.len() < generated_id_count(),
    ensures
        final(used_feature_ids)@ == old(used_feature_ids)@.insert(id),
        !old(used_feature_ids)@.contains(id),
        raw_feature_id is Some && !old(used_feature_ids)@.contains(raw_feature_id->0) ==> id == raw_feature_id->0,
        !(raw_feature_id is Some && !old(used_feature_ids)@.contains(raw_feature_id->0)) ==> exists|j: nat|
            #![trigger generated_candidate((feature_index as nat) % generated_id_count(), j)]
            id == generated_candidate((feature_index as nat) % generated_id_count(), j) && forall|k: nat|
                k < j ==> old(used_feature_ids)@.contains(
                    #[trigger] generated_candidate((feature_index as nat) % generated_id_count(), k),
                ),
{
    if let Some(raw) = raw_feature_id {
        if used_feature_ids.insert(raw) {
            return raw;
        }
        assert(used_feature_ids@ =~= old(used_feature_ids)@);
    }
    let index = feature_index as u64;
    let start = index & 0x7fff_ffff_ffff_ffff;
    assert(index & 0x7fff_ffff_ffff_ffffu64 == index % 0x8000_0000_0000_0000u64) by (bit_vector);
    let ghost s = start as nat;
    let ghost used = used_feature_ids@;
    let mut generated = start;
    let ghost mut j: nat = 0;
    loop
        invariant
            used_feature_ids@ == used,
            used == old(used_feature_ids)@,
            used.finite(),
            used.len() < generated_id_count(),
            s == (feature_index as nat) % generated_id_count(),
            j < generated_id_count(),
            generated as nat == (s + j) % generated_id_count(),
            generated < 0x8000_0000_0000_0000u64,
            tried_candidates(s, j).subset_of(used),
            forall|k: nat| k < j ==> used.contains(#[trigger] generated_candidate(s, k)),
            !(raw_feature_id is Some && !used.contains(raw_feature_id->0)),
        decreases generated_id_count() - j,
    {
        let id = 0x8000_0000_0000_0000u64 | generated;
        assert(0x8000_0000_0000_0000u64 | generated == 0x8000_0000_0000_0000u64 + generated) by (bit_vector)
            requires
                generated < 0x8000_0000_0000_0000u64,
        ;
        if used_feature_ids.insert(id) {
            assert(id == generated_candidate(s, j));
            return id;
        }
        proof {
            assert(tried_candidates(s, j + 1).subset_of(used));
            lemma_tried_candidates_len(s, j + 1);
            vstd::set_lib::lemma_len_subset(tried_candidates(s, j + 1), used);
        }
        let next = generated.saturating_add(1);
        generated = next & 0x7fff_ffff_ffff_ffff;
        assert(next & 0x7fff_ffff_ffff_ffffu64 == next % 0x8000_0000_0000_0000u64) by (bit_vector);
        proof {
            let m = generated_id_count() as int;
            vstd::arithmetic::div_mod::lemma_add_mod_noop((s + j) as int, 1, m);
            vstd::arithmetic::div_mod::lemma_small_mod(1, m as nat);
            j = j + 1;
        }
    }
}

} // verus!
