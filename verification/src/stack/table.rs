//! Small keyed tables kept as lists of pairs, in insertion order, each key
//! at most once.
use vstd::prelude::*;

use crate::stack::addr::BacnetAddr;

verus! {

/// Some entry has key `k`.
pub open spec fn has_key<K, V>(s: Seq<(K, V)>, k: K) -> bool {
    exists|i: int| 0 <= i < s.len() && (#[trigger] s[i]).0 == k
}

/// The position of the entry with key `k` (meaningful when there is one).
pub open spec fn key_index<K, V>(s: Seq<(K, V)>, k: K) -> int {
    choose|i: int| 0 <= i < s.len() && (#[trigger] s[i]).0 == k
}

/// The value under `k`, if any.
pub open spec fn lookup<K, V>(s: Seq<(K, V)>, k: K) -> Option<V> {
    if has_key(s, k) {
        Some(s[key_index(s, k)].1)
    } else {
        None
    }
}

/// The table with `k` bound to `v`: in place when `k` is present, at the
/// end otherwise.
pub open spec fn assign<K, V>(s: Seq<(K, V)>, k: K, v: V) -> Seq<(K, V)> {
    if has_key(s, k) {
        s.update(key_index(s, k), (k, v))
    } else {
        s.push((k, v))
    }
}

/// The table without the entry under `k`, the others keeping their order.
pub open spec fn unassign<K, V>(s: Seq<(K, V)>, k: K) -> Seq<(K, V)> {
    if has_key(s, k) {
        s.remove(key_index(s, k))
    } else {
        s
    }
}

/// No key occurs twice.
pub open spec fn keys_unique<K, V>(s: Seq<(K, V)>) -> bool {
    forall|i: int, j: int| 0 <= i < s.len() && 0 <= j < s.len() && i != j ==> (#[trigger] s[i]).0 != (
    #[trigger] s[j]).0
}

/// The table with each value replaced by its view.
pub open spec fn entries_view<K, V: View>(s: Seq<(K, V)>) -> Seq<(K, V::V)> {
    s.map_values(|e: (K, V)| (e.0, e.1@))
}

/// In a table without repeated keys, an entry with key `k` is the one
/// `key_index` names.
pub proof fn lemma_key_at<K, V>(s: Seq<(K, V)>, k: K, i: int)
    requires
        keys_unique(s),
        0 <= i < s.len(),
        s[i].0 == k,
    ensures
        has_key(s, k),
        key_index(s, k) == i,
        lookup(s, k) == Some(s[i].1),
{
    assert(has_key(s, k));
    let j = key_index(s, k);
    assert(s[j].0 == k);
}

/// Binding a key keeps keys unique, and reads back as bound.
pub proof fn lemma_assign<K, V>(s: Seq<(K, V)>, k: K, v: V)
    requires
        keys_unique(s),
    ensures
        keys_unique(assign(s, k, v)),
        forall|k2: K| #[trigger] lookup(assign(s, k, v), k2) == if k2 == k {
            Some(v)
        } else {
            lookup(s, k2)
        },
        forall|k2: K| #[trigger] has_key(assign(s, k, v), k2) == (k2 == k || has_key(s, k2)),
{
    let t = assign(s, k, v);
    if has_key(s, k) {
        let i = key_index(s, k);
        assert(s[i].0 == k);
    }
    assert forall|k2: K| #[trigger] lookup(t, k2) == (if k2 == k { Some(v) } else { lookup(s, k2) }) by {
        if has_key(s, k) {
            let i = key_index(s, k);
            lemma_key_at(t, k, i);
            if k2 != k && has_key(s, k2) {
                let j = key_index(s, k2);
                assert(s[j].0 == k2);
                assert(j != i);
                lemma_key_at(t, k2, j);
            }
            if k2 != k && has_key(t, k2) {
                let j = key_index(t, k2);
                assert(t[j].0 == k2);
                assert(s[j].0 == k2);
            }
        } else {
            lemma_key_at(t, k, s.len() as int);
            if k2 != k && has_key(s, k2) {
                let j = key_index(s, k2);
                assert(s[j].0 == k2);
                lemma_key_at(t, k2, j);
            }
            if k2 != k && has_key(t, k2) {
                let j = key_index(t, k2);
                assert(t[j].0 == k2);
                assert(j < s.len());
                assert(s[j].0 == k2);
            }
        }
    }
    assert forall|k2: K| #[trigger] has_key(t, k2) == (k2 == k || has_key(s, k2)) by {
        assert(lookup(t, k2) == if k2 == k { Some(v) } else { lookup(s, k2) });
    }
}

/// Removing a key keeps keys unique and leaves the other bindings.
pub proof fn lemma_unassign<K, V>(s: Seq<(K, V)>, k: K)
    requires
        keys_unique(s),
    ensures
        keys_unique(unassign(s, k)),
        forall|k2: K| #[trigger] lookup(unassign(s, k), k2) == if k2 == k {
            None
        } else {
            lookup(s, k2)
        },
        forall|k2: K| #[trigger] has_key(unassign(s, k), k2) == (k2 != k && has_key(s, k2)),
{
    let t = unassign(s, k);
    if has_key(s, k) {
        let i = key_index(s, k);
        assert(s[i].0 == k);
        assert forall|a: int, b: int|
            0 <= a < t.len() && 0 <= b < t.len() && a != b implies (#[trigger] t[a]).0 != (
            #[trigger] t[b]).0 by {
            let a2 = if a < i { a } else { a + 1 };
            let b2 = if b < i { b } else { b + 1 };
            assert(t[a] == s[a2]);
            assert(t[b] == s[b2]);
        }
        assert forall|k2: K| #[trigger] lookup(t, k2) == (if k2 == k { None } else { lookup(s, k2) }) by {
            if has_key(t, k2) {
                let j = key_index(t, k2);
                assert(t[j].0 == k2);
                let j2 = if j < i { j } else { j + 1 };
                assert(s[j2] == t[j]);
                assert(j2 != i);
                lemma_key_at(s, k2, j2);
            } else if k2 != k && has_key(s, k2) {
                let j = key_index(s, k2);
                assert(s[j].0 == k2);
                assert(j != i);
                let j2 = if j < i { j } else { j - 1 };
                assert(t[j2] == s[j]);
            }
        }
    }
    assert forall|k2: K| #[trigger] has_key(t, k2) == (k2 != k && has_key(s, k2)) by {
        assert(lookup(t, k2) == if k2 == k { None } else { lookup(s, k2) });
    }
}

/// The position of the entry with key `k`, if any.
pub(crate) fn find_key<V>(t: &Vec<((BacnetAddr, u8), V)>, k: (BacnetAddr, u8)) -> (r: Option<usize>)
    ensures
        match r {
            Some(i) => i < t@.len() && t@[i as int].0 == k,
            None => forall|i: int| 0 <= i < t@.len() ==> (#[trigger] t@[i]).0 != k,
        },
{
    let mut i: usize = 0;
    while i < t.len()
        invariant
            i <= t@.len(),
            forall|j: int| 0 <= j < i ==> (#[trigger] t@[j]).0 != k,
        decreases t@.len() - i,
    {
        let e = &t[i];
        if e.0.0 == k.0 && e.0.1 == k.1 {
            return Some(i);
        }
        i = i + 1;
    }
    None
}

/// The position of the entry for address `a`, if any.
pub(crate) fn find_addr<V>(t: &Vec<(BacnetAddr, V)>, a: BacnetAddr) -> (r: Option<usize>)
    ensures
        match r {
            Some(i) => i < t@.len() && t@[i as int].0 == a,
            None => forall|i: int| 0 <= i < t@.len() ==> (#[trigger] t@[i]).0 != a,
        },
{
    let mut i: usize = 0;
    while i < t.len()
        invariant
            i <= t@.len(),
            forall|j: int| 0 <= j < i ==> (#[trigger] t@[j]).0 != a,
        decreases t@.len() - i,
    {
        if t[i].0 == a {
            return Some(i);
        }
        i = i + 1;
    }
    None
}

/// Where `find_key` or `find_addr` left `k`: at `idx`, or nowhere.
pub open spec fn found_at<K, V>(s: Seq<(K, V)>, k: K, idx: Option<usize>) -> bool {
    match idx {
        Some(i) => i < s.len() && s[i as int].0 == k,
        None => forall|i: int| 0 <= i < s.len() ==> (#[trigger] s[i]).0 != k,
    }
}

/// In a table without repeated keys, what a search found agrees with
/// `lookup`, `assign` and `unassign`.
pub proof fn lemma_found<K, V: View>(s: Seq<(K, V)>, k: K, idx: Option<usize>)
    requires
        found_at(s, k, idx),
        keys_unique(entries_view(s)),
    ensures
        match idx {
            Some(i) => has_key(entries_view(s), k) && key_index(entries_view(s), k) == i && lookup(
                entries_view(s),
                k,
            ) == Some(s[i as int].1@),
            None => !has_key(entries_view(s), k) && lookup(entries_view(s), k) is None,
        },
{
    let v = entries_view(s);
    match idx {
        Some(i) => {
            assert(v[i as int].0 == k);
            lemma_key_at(v, k, i as int);
        },
        None => {
            if has_key(v, k) {
                let j = key_index(v, k);
                assert(v[j].0 == k);
                assert(s[j].0 == k);
            }
        },
    }
}

/// Binds `k` to `v` where a search left it.
pub(crate) fn put_entry<K, V: View>(t: &mut Vec<(K, V)>, idx: Option<usize>, k: K, v: V)
    requires
        found_at(old(t)@, k, idx),
        keys_unique(entries_view(old(t)@)),
    ensures
        entries_view(final(t)@) == assign(entries_view(old(t)@), k, v@),
        keys_unique(entries_view(final(t)@)),
{
    let ghost vv = v@;
    proof {
        lemma_found(t@, k, idx);
        lemma_assign(entries_view(t@), k, vv);
    }
    match idx {
        Some(i) => {
            t.set(i, (k, v));
        },
        None => {
            t.push((k, v));
        },
    }
    assert(entries_view(t@) =~= assign(entries_view(old(t)@), k, vv));
}

/// Removes the entry at `i`, which holds key `k`.
pub(crate) fn remove_entry<K, V: View>(t: &mut Vec<(K, V)>, i: usize, k: Ghost<K>) -> (r: (K, V))
    requires
        i < old(t)@.len(),
        old(t)@[i as int].0 == k@,
        keys_unique(entries_view(old(t)@)),
    ensures
        r == old(t)@[i as int],
        entries_view(final(t)@) == unassign(entries_view(old(t)@), k@),
        keys_unique(entries_view(final(t)@)),
{
    proof {
        lemma_found(t@, k@, Some(i));
        lemma_unassign(entries_view(t@), k@);
    }
    let r = t.remove(i);
    assert(entries_view(t@) =~= unassign(entries_view(old(t)@), k@));
    r
}

/// Takes out the entry at `i`.
pub(crate) fn take_entry<K, V>(t: &mut Vec<(K, V)>, i: usize) -> (r: (K, V))
    requires
        i < old(t)@.len(),
    ensures
        r == old(t)@[i as int],
        final(t)@ == old(t)@.remove(i as int),
{
    t.remove(i)
}

/// Puts an entry back at `i`.
pub(crate) fn return_entry<K, V>(t: &mut Vec<(K, V)>, i: usize, e: (K, V))
    requires
        i <= old(t)@.len(),
    ensures
        final(t)@ == old(t)@.insert(i as int, e),
{
    t.insert(i, e);
}

/// Taking out the entry at `i` and putting back one with the same key
/// rebinds that key.
pub proof fn lemma_replace_at<K, V: View>(s: Seq<(K, V)>, i: int, e: (K, V))
    requires
        keys_unique(entries_view(s)),
        0 <= i < s.len(),
        s[i].0 == e.0,
    ensures
        entries_view(s.remove(i).insert(i, e)) == assign(entries_view(s), e.0, e.1@),
        keys_unique(entries_view(s.remove(i).insert(i, e))),
{
    let v = entries_view(s);
    assert(v[i].0 == e.0);
    lemma_key_at(v, e.0, i);
    lemma_assign(v, e.0, e.1@);
    assert(entries_view(s.remove(i).insert(i, e)) =~= v.update(i, (e.0, e.1@)));
}

/// Binding a key twice keeps the second binding, in the first one's place.
pub proof fn lemma_assign_twice<K, V>(s: Seq<(K, V)>, k: K, v1: V, v2: V)
    requires
        keys_unique(s),
    ensures
        assign(assign(s, k, v1), k, v2) == assign(s, k, v2),
{
    let t = assign(s, k, v1);
    if has_key(s, k) {
        let i = key_index(s, k);
        assert(s[i].0 == k);
        lemma_assign(s, k, v1);
        lemma_key_at(t, k, i);
        assert(t.update(i, (k, v2)) =~= s.update(i, (k, v2)));
    } else {
        lemma_assign(s, k, v1);
        lemma_key_at(t, k, s.len() as int);
        assert(t.update(s.len() as int, (k, v2)) =~= s.push((k, v2)));
    }
}

} // verus!
