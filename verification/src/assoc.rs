//! Association lists with unique keys: the spec-level lookup, the lemmas that
//! push and in-place update obey map semantics, and the executable key search.

use vstd::prelude::*;

verus! {

/// Some entry of `s` has key `k`.
pub open spec fn assoc_has<K, V>(s: Seq<(K, V)>, k: K) -> bool {
    exists|i: int| 0 <= i < s.len() && (#[trigger] s[i]).0 == k
}

/// The index of the entry with key `k`; meaningful only when one exists.
pub open spec fn assoc_idx<K, V>(s: Seq<(K, V)>, k: K) -> int {
    choose|i: int| 0 <= i < s.len() && (#[trigger] s[i]).0 == k
}

/// The value stored under key `k`, if any.
pub open spec fn assoc_val<K, V>(s: Seq<(K, V)>, k: K) -> Option<V> {
    if assoc_has(s, k) {
        Some(s[assoc_idx(s, k)].1)
    } else {
        None
    }
}

/// No two entries share a key.
pub open spec fn assoc_unique<K, V>(s: Seq<(K, V)>) -> bool {
    forall|i: int, j: int|
        0 <= i < j < s.len() ==> (#[trigger] s[i]).0 != (#[trigger] s[j]).0
}

/// With unique keys, an entry with key `k` at index `i` is the lookup result.
pub proof fn lemma_assoc_at<K, V>(s: Seq<(K, V)>, k: K, i: int)
    requires
        assoc_unique(s),
        0 <= i < s.len(),
        s[i].0 == k,
    ensures
        assoc_has(s, k),
        assoc_idx(s, k) == i,
        assoc_val(s, k) == Some(s[i].1),
{
    assert(assoc_has(s, k));
    let j = assoc_idx(s, k);
    assert(0 <= j < s.len() && s[j].0 == k);
    if i < j {
        assert(s[i].0 != s[j].0);
    } else if j < i {
        assert(s[j].0 != s[i].0);
    }
}

/// Updating the entry that holds key `k` changes that key's value and no other.
pub proof fn lemma_assoc_update<K, V>(s: Seq<(K, V)>, i: int, k: K, v: V, k2: K)
    requires
        assoc_unique(s),
        0 <= i < s.len(),
        s[i].0 == k,
    ensures
        assoc_unique(s.update(i, (k, v))),
        assoc_val(s.update(i, (k, v)), k2) == (if k2 == k {
            Some(v)
        } else {
            assoc_val(s, k2)
        }),
{
    let t = s.update(i, (k, v));
    assert forall|a: int, b: int| 0 <= a < b < t.len() implies (#[trigger] t[a]).0 != (
    #[trigger] t[b]).0 by {
        assert(s[a].0 != s[b].0);
        assert(t[a].0 == s[a].0 && t[b].0 == s[b].0);
    }
    if k2 == k {
        lemma_assoc_at(t, k, i);
    } else {
        if assoc_has(s, k2) {
            let j = assoc_idx(s, k2);
            assert(0 <= j < s.len() && s[j].0 == k2);
            assert(j != i);
            lemma_assoc_at(t, k2, j);
            lemma_assoc_at(s, k2, j);
        } else {
            assert(!assoc_has(t, k2)) by {
                if assoc_has(t, k2) {
                    let m = assoc_idx(t, k2);
                    assert(0 <= m < t.len() && t[m].0 == k2);
                    assert(m != i);
                    assert(s[m].0 == k2);
                }
            }
        }
    }
}

/// Pushing a fresh key binds it and leaves every other key's value unchanged.
pub proof fn lemma_assoc_push<K, V>(s: Seq<(K, V)>, k: K, v: V, k2: K)
    requires
        assoc_unique(s),
        !assoc_has(s, k),
    ensures
        assoc_unique(s.push((k, v))),
        assoc_val(s.push((k, v)), k2) == (if k2 == k {
            Some(v)
        } else {
            assoc_val(s, k2)
        }),
{
    let t = s.push((k, v));
    assert forall|a: int, b: int| 0 <= a < b < t.len() implies (#[trigger] t[a]).0 != (
    #[trigger] t[b]).0 by {
        if b < s.len() {
            assert(s[a].0 != s[b].0);
        } else {
            assert(t[b] == (k, v));
            assert(t[a].0 == s[a].0);
            assert(s[a].0 != k);
        }
    }
    if k2 == k {
        lemma_assoc_at(t, k, s.len() as int);
    } else {
        if assoc_has(s, k2) {
            let j = assoc_idx(s, k2);
            assert(0 <= j < s.len() && s[j].0 == k2);
            lemma_assoc_at(t, k2, j);
            lemma_assoc_at(s, k2, j);
        } else {
            assert(!assoc_has(t, k2)) by {
                if assoc_has(t, k2) {
                    let m = assoc_idx(t, k2);
                    assert(0 <= m < t.len() && t[m].0 == k2);
                    if m < s.len() {
                        assert(s[m].0 == k2);
                    } else {
                        assert(t[m].0 == k);
                    }
                }
            }
        }
    }
}

/// Find the index of the entry keyed by `k` in a list keyed by `u64`.
pub fn assoc_find_u64<V>(s: &Vec<(u64, V)>, k: u64) -> (r: Option<usize>)
    ensures
        match r {
            Some(i) => i < s@.len() && s@[i as int].0 == k,
            None => !assoc_has(s@, k),
        },
{
    let mut j: usize = 0;
    while j < s.len()
        invariant
            j <= s@.len(),
            forall|m: int| 0 <= m < j ==> (#[trigger] s@[m]).0 != k,
        decreases s@.len() - j,
    {
        if s[j].0 == k {
            return Some(j);
        }
        j = j + 1;
    }
    None
}

/// Find the index of the entry keyed by `k` in a list keyed by `u32`.
pub fn assoc_find_u32<V>(s: &Vec<(u32, V)>, k: u32) -> (r: Option<usize>)
    ensures
        match r {
            Some(i) => i < s@.len() && s@[i as int].0 == k,
            None => !assoc_has(s@, k),
        },
{
    let mut j: usize = 0;
    while j < s.len()
        invariant
            j <= s@.len(),
            forall|m: int| 0 <= m < j ==> (#[trigger] s@[m]).0 != k,
        decreases s@.len() - j,
    {
        if s[j].0 == k {
            return Some(j);
        }
        j = j + 1;
    }
    None
}

/// Find the index of the entry keyed by the ordered pair `k`.
pub fn assoc_find_pair<V>(s: &Vec<((u32, u32), V)>, k: (u32, u32)) -> (r: Option<usize>)
    ensures
        match r {
            Some(i) => i < s@.len() && s@[i as int].0 == k,
            None => !assoc_has(s@, k),
        },
{
    let mut j: usize = 0;
    while j < s.len()
        invariant
            j <= s@.len(),
            forall|m: int| 0 <= m < j ==> (#[trigger] s@[m]).0 != k,
        decreases s@.len() - j,
    {
        if s[j].0.0 == k.0 && s[j].0.1 == k.1 {
            assert(s@[j as int].0 == k);
            return Some(j);
        }
        j = j + 1;
    }
    None
}

} // verus!
