//! Sets of protocol object IDs, held as vectors.

use vstd::prelude::*;

verus! {

broadcast use vstd::seq_lib::group_seq_properties;

/// Whether `id` occurs in `v`.
pub fn ids_contains(v: &Vec<u32>, id: u32) -> (r: bool)
    ensures
        r == v@.contains(id),
        r == v@.to_set().contains(id),
{
    let mut i: usize = 0;
    while i < v.len()
        invariant
            0 <= i <= v@.len(),
            forall|j: int| 0 <= j < i ==> v@[j] != id,
        decreases v@.len() - i,
    {
        if v[i] == id {
            return true;
        }
        i = i + 1;
    }
    false
}

/// Adds `id` to the set held by `v`, keeping it free of repeats.
pub fn ids_insert(v: &mut Vec<u32>, id: u32)
    ensures
        final(v)@.to_set() == old(v)@.to_set().insert(id),
{
    if !ids_contains(v, id) {
        v.push(id);
        assert(final(v)@.to_set() =~= old(v)@.to_set().insert(id)) by {
            assert forall|x: u32| final(v)@.contains(x) <==> (old(v)@.contains(x) || x == id) by {
                if final(v)@.contains(x) {
                    let k = choose|k: int| 0 <= k < final(v)@.len() && final(v)@[k] == x;
                    if k < old(v)@.len() {
                        assert(old(v)@[k] == x);
                    }
                }
                if old(v)@.contains(x) {
                    let k = choose|k: int| 0 <= k < old(v)@.len() && old(v)@[k] == x;
                    assert(final(v)@[k] == x);
                }
                if x == id {
                    assert(final(v)@[old(v)@.len() as int] == x);
                }
            }
        }
    } else {
        assert(old(v)@.to_set().insert(id) =~= old(v)@.to_set());
    }
}

/// Removes `id` from the set held by `v`.
pub fn ids_remove(v: &mut Vec<u32>, id: u32)
    ensures
        final(v)@.to_set() == old(v)@.to_set().remove(id),
{
    let mut kept: Vec<u32> = Vec::new();
    let mut i: usize = 0;
    while i < v.len()
        invariant
            0 <= i <= v@.len(),
            forall|x: u32|
                kept@.contains(x) <==> (x != id && exists|j: int| 0 <= j < i && #[trigger] v@[j] == x),
        decreases v@.len() - i,
    {
        let x = v[i];
        let ghost before = kept@;
        if x != id {
            kept.push(x);
        }
        proof {
            assert forall|y: u32|
                kept@.contains(y) <==> (y != id && exists|j: int| 0 <= j < i + 1 && #[trigger] v@[j] == y) by {
                if kept@.contains(y) {
                    let k = choose|k: int| 0 <= k < kept@.len() && kept@[k] == y;
                    if k < before.len() {
                        assert(before[k] == y);
                        assert(before.contains(y));
                    } else {
                        assert(v@[i as int] == y);
                    }
                }
                if y != id && exists|j: int| 0 <= j < i + 1 && #[trigger] v@[j] == y {
                    let j = choose|j: int| 0 <= j < i + 1 && #[trigger] v@[j] == y;
                    if j < i {
                        assert(before.contains(y));
                        let k = choose|k: int| 0 <= k < before.len() && before[k] == y;
                        assert(kept@[k] == y);
                    } else {
                        assert(kept@[before.len() as int] == y);
                    }
                }
            }
        }
        i = i + 1;
    }
    assert(kept@.to_set() =~= v@.to_set().remove(id));
    *v = kept;
}

/// Whether `a` and `b` hold the same set of IDs.
pub fn ids_same(a: &Vec<u32>, b: &Vec<u32>) -> (r: bool)
    ensures
        r == (a@.to_set() == b@.to_set()),
{
    let mut i: usize = 0;
    while i < a.len()
        invariant
            0 <= i <= a@.len(),
            forall|j: int| 0 <= j < i ==> b@.contains(#[trigger] a@[j]),
        decreases a@.len() - i,
    {
        if !ids_contains(b, a[i]) {
            assert(!b@.to_set().contains(a@[i as int]));
            assert(a@.to_set().contains(a@[i as int]));
            return false;
        }
        i = i + 1;
    }
    let mut k: usize = 0;
    while k < b.len()
        invariant
            0 <= k <= b@.len(),
            forall|j: int| 0 <= j < a@.len() ==> b@.contains(#[trigger] a@[j]),
            forall|j: int| 0 <= j < k ==> a@.contains(#[trigger] b@[j]),
        decreases b@.len() - k,
    {
        if !ids_contains(a, b[k]) {
            assert(!a@.to_set().contains(b@[k as int]));
            assert(b@.to_set().contains(b@[k as int]));
            return false;
        }
        k = k + 1;
    }
    assert(a@.to_set() =~= b@.to_set()) by {
        assert forall|x: u32| a@.contains(x) <==> b@.contains(x) by {
            if a@.contains(x) {
                let j = choose|j: int| 0 <= j < a@.len() && a@[j] == x;
                assert(b@.contains(a@[j]));
            }
            if b@.contains(x) {
                let j = choose|j: int| 0 <= j < b@.len() && b@[j] == x;
                assert(a@.contains(b@[j]));
            }
        }
    }
    true
}

/// Adds every ID of `src` to the set held by `v`.
pub fn ids_union_into(v: &mut Vec<u32>, src: &Vec<u32>)
    ensures
        final(v)@.to_set() == old(v)@.to_set().union(src@.to_set()),
{
    let ghost start = v@.to_set();
    let mut k: usize = 0;
    while k < src.len()
        invariant
            0 <= k <= src@.len(),
            v@.to_set() == start.union(src@.subrange(0, k as int).to_set()),
        decreases src@.len() - k,
    {
        let x = src[k];
        ids_insert(v, x);
        proof {
            assert(src@.subrange(0, k + 1) == src@.subrange(0, k as int).push(x));
            assert(src@.subrange(0, k + 1).to_set() =~= src@.subrange(0, k as int).to_set().insert(x)) by {
                src@.subrange(0, k as int).lemma_push_to_set_commute(x);
            }
            assert(v@.to_set() =~= start.union(src@.subrange(0, k + 1).to_set()));
        }
        k = k + 1;
    }
    assert(src@.subrange(0, src@.len() as int) == src@);
}

/// A copy of the IDs in `v`, in the same order.
pub fn ids_copy(v: &Vec<u32>) -> (r: Vec<u32>)
    ensures
        r@ == v@,
{
    let mut r: Vec<u32> = Vec::new();
    let mut i: usize = 0;
    while i < v.len()
        invariant
            0 <= i <= v@.len(),
            r@ == v@.subrange(0, i as int),
        decreases v@.len() - i,
    {
        r.push(v[i]);
        i = i + 1;
        assert(r@ =~= v@.subrange(0, i as int));
    }
    assert(v@.subrange(0, v@.len() as int) =~= v@);
    r
}

} // verus!
