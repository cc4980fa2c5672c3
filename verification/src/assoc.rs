//! Association lists in insertion order.
//!
//! Every map in the registry (projects by name, packages by name, files by
//! path and checksum, counters by version) is kept as a vector of key/value
//! pairs, with lookups resolving to the first pair whose key's view matches.

use vstd::prelude::*;

verus! {

/// First-match lookup over a sequence of key/value pairs, by the key's view.
pub open spec fn assoc_get<K: View, V>(m: Seq<(K, V)>, k: K::V) -> Option<V>
    decreases m.len(),
{
    if m.len() == 0 {
        None
    } else if m[0].0@ == k {
        Some(m[0].1)
    } else {
        assoc_get(m.skip(1), k)
    }
}

/// Whether some pair of the sequence carries the key.
pub open spec fn assoc_has<K: View, V>(m: Seq<(K, V)>, k: K::V) -> bool {
    exists|i: int| 0 <= i < m.len() && (#[trigger] m[i]).0@ == k
}

/// The first-match lookup resolves to the pair at `i` when the pairs before
/// `i` all carry other keys.
pub proof fn lemma_assoc_get_at<K: View, V>(m: Seq<(K, V)>, k: K::V, i: int)
    requires
        0 <= i < m.len(),
        m[i].0@ == k,
        forall|j: int| 0 <= j < i ==> (#[trigger] m[j]).0@ != k,
    ensures
        assoc_get(m, k) == Some(m[i].1),
    decreases i,
{
    if i > 0 {
        assert(forall|j: int| 0 <= j < i - 1 ==> (#[trigger] m.skip(1)[j]).0@ != k) by {
            assert(forall|j: int|
                0 <= j < i - 1 ==> m.skip(1)[j] == (#[trigger] m[j + 1]));
        }
        assert(m.skip(1)[i - 1] == m[i]);
        lemma_assoc_get_at(m.skip(1), k, i - 1);
    }
}

/// The first-match lookup fails when no pair carries the key.
pub proof fn lemma_assoc_get_none<K: View, V>(m: Seq<(K, V)>, k: K::V)
    requires
        forall|j: int| 0 <= j < m.len() ==> (#[trigger] m[j]).0@ != k,
    ensures
        assoc_get(m, k) is None,
    decreases m.len(),
{
    if m.len() > 0 {
        assert(forall|j: int|
            0 <= j < m.len() - 1 ==> (#[trigger] m.skip(1)[j]) == m[j + 1]);
        lemma_assoc_get_none(m.skip(1), k);
    }
}

/// A successful first-match lookup names a pair of the sequence.
pub proof fn lemma_assoc_get_some_has<K: View, V>(m: Seq<(K, V)>, k: K::V)
    requires
        assoc_get(m, k) is Some,
    ensures
        assoc_has(m, k),
    decreases m.len(),
{
    if m.len() > 0 {
        if m[0].0@ == k {
            assert((#[trigger] m[0]).0@ == k);
        } else {
            lemma_assoc_get_some_has(m.skip(1), k);
            let i = choose|i: int|
                0 <= i < m.skip(1).len() && (#[trigger] m.skip(1)[i]).0@ == k;
            assert(m[i + 1] == m.skip(1)[i]);
        }
    }
}

/// Replacing the value at a position leaves every other key's lookup alone.
pub proof fn lemma_assoc_get_update_other<K: View, V>(m: Seq<(K, V)>, i: int, kv: (K, V), k: K::V)
    requires
        0 <= i < m.len(),
        kv.0@ == m[i].0@,
        k != m[i].0@,
    ensures
        assoc_get(m.update(i, kv), k) == assoc_get(m, k),
    decreases m.len(),
{
    if m.len() > 0 {
        if i == 0 {
            assert(m.update(0, kv)[0] == kv);
            assert(m.update(0, kv).skip(1) =~= m.skip(1));
        } else {
            assert(m.update(i, kv)[0] == m[0]);
            assert(m.update(i, kv).skip(1) =~= m.skip(1).update(i - 1, kv));
            assert(m.skip(1)[i - 1] == m[i]);
            lemma_assoc_get_update_other(m.skip(1), i - 1, kv, k);
        }
    }
}

/// Appending a pair only adds a binding for a key that had none.
pub proof fn lemma_assoc_get_push<K: View, V>(m: Seq<(K, V)>, kv: (K, V), k: K::V)
    ensures
        assoc_get(m.push(kv), k) == if assoc_get(m, k) is Some {
            assoc_get(m, k)
        } else if kv.0@ == k {
            Some(kv.1)
        } else {
            None::<V>
        },
    decreases m.len(),
{
    if m.len() == 0 {
        assert(m.push(kv)[0] == kv);
        assert(m.push(kv).skip(1) =~= Seq::<(K, V)>::empty());
        assert(assoc_get(m.push(kv).skip(1), k) is None);
        if kv.0@ == k {
            assert(assoc_get(m.push(kv), k) == Some(kv.1));
        } else {
            assert(assoc_get(m.push(kv), k) is None);
        }
    } else {
        assert(m.push(kv)[0] == m[0]);
        assert(m.push(kv).skip(1) =~= m.skip(1).push(kv));
        lemma_assoc_get_push(m.skip(1), kv, k);
        if m[0].0@ == k {
            assert(assoc_get(m.push(kv), k) == Some(m[0].1));
            assert(assoc_get(m, k) == Some(m[0].1));
        } else {
            assert(assoc_get(m.push(kv), k) == assoc_get(m.skip(1).push(kv), k));
            assert(assoc_get(m, k) == assoc_get(m.skip(1), k));
        }
    }
}

/// String comparison, stated over the character views.
pub fn str_eq(a: &str, b: &str) -> (r: bool)
    ensures
        r == (a@ == b@),
{
    let sa: String = a.to_owned();
    let sb: String = b.to_owned();
    sa == sb
}

/// Index of the first pair carrying the key, if any.
pub fn assoc_index<V>(m: &Vec<(String, V)>, k: &str) -> (r: Option<usize>)
    ensures
        match r {
            Some(i) => i < m@.len() && m@[i as int].0@ == k@ && forall|j: int|
                0 <= j < i ==> (#[trigger] m@[j]).0@ != k@,
            None => forall|j: int| 0 <= j < m@.len() ==> (#[trigger] m@[j]).0@ != k@,
        },
        r is Some <==> assoc_has(m@, k@),
{
    let mut i: usize = 0;
    while i < m.len()
        invariant
            i <= m@.len(),
            forall|j: int| 0 <= j < i ==> (#[trigger] m@[j]).0@ != k@,
        decreases m@.len() - i,
    {
        if str_eq(m[i].0.as_str(), k) {
            return Some(i);
        }
        i = i + 1;
    }
    None
}

} // verus!
