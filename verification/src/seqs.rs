//! Exact-value removal from an ordered id list, with the facts the ownership
//! and genealogy indices need about it.

use vstd::prelude::*;

verus! {

/// `s` with every occurrence of `x` removed, order preserved.
pub open spec fn remove_value(s: Seq<u32>, x: u32) -> Seq<u32>
    decreases s.len(),
{
    if s.len() == 0 {
        Seq::empty()
    } else if s.last() == x {
        remove_value(s.drop_last(), x)
    } else {
        remove_value(s.drop_last(), x).push(s.last())
    }
}

/// A pushed list contains exactly the old elements and the new one.
pub proof fn lemma_push_contains<T>(s: Seq<T>, x: T, y: T)
    ensures
        s.push(x).contains(y) <==> (s.contains(y) || y == x),
{
    if s.contains(y) {
        let i = choose|i: int| 0 <= i < s.len() && s[i] == y;
        assert(s.push(x)[i] == y);
    }
    if y == x {
        assert(s.push(x)[s.len() as int] == y);
    }
    if s.push(x).contains(y) {
        let i = choose|i: int| 0 <= i < s.push(x).len() && s.push(x)[i] == y;
        if i < s.len() {
            assert(s[i] == y);
        }
    }
}

/// Removal keeps exactly the elements other than `x`.
pub proof fn lemma_remove_value_contains(s: Seq<u32>, x: u32, y: u32)
    ensures
        remove_value(s, x).contains(y) <==> (s.contains(y) && y != x),
    decreases s.len(),
{
    if s.len() == 0 {
    } else {
        lemma_remove_value_contains(s.drop_last(), x, y);
        lemma_push_contains(s.drop_last(), s.last(), y);
        assert(s.drop_last().push(s.last()) =~= s);
        if s.last() != x {
            lemma_push_contains(remove_value(s.drop_last(), x), s.last(), y);
        }
    }
}

/// Removal never introduces a duplicate.
pub proof fn lemma_remove_value_nodup(s: Seq<u32>, x: u32)
    requires
        s.no_duplicates(),
    ensures
        remove_value(s, x).no_duplicates(),
    decreases s.len(),
{
    if s.len() == 0 {
    } else {
        assert(s.drop_last().no_duplicates());
        lemma_remove_value_nodup(s.drop_last(), x);
        if s.last() != x {
            let r = remove_value(s.drop_last(), x);
            assert(!s.drop_last().contains(s.last())) by {
                if s.drop_last().contains(s.last()) {
                    let i = choose|i: int|
                        0 <= i < s.drop_last().len() && s.drop_last()[i] == s.last();
                    assert(s[i] == s[s.len() - 1]);
                }
            }
            lemma_remove_value_contains(s.drop_last(), x, s.last());
            assert(!r.contains(s.last()));
            assert forall|i: int, j: int| 0 <= i < j < r.push(s.last()).len() implies r.push(
                s.last(),
            )[i] != r.push(s.last())[j] by {
                if j < r.len() {
                } else {
                    assert(r.push(s.last())[j] == s.last());
                    assert(r.push(s.last())[i] == r[i]);
                    assert(r.contains(r[i])) by {
                        assert(r[i] == r[i]);
                    }
                }
            }
        }
    }
}

/// Removing an absent value changes nothing.
pub proof fn lemma_remove_value_absent(s: Seq<u32>, x: u32)
    requires
        !s.contains(x),
    ensures
        remove_value(s, x) == s,
    decreases s.len(),
{
    if s.len() == 0 {
        assert(remove_value(s, x) =~= s);
    } else {
        assert(s.last() != x) by {
            assert(s[s.len() - 1] == s.last());
        }
        assert(!s.drop_last().contains(x)) by {
            if s.drop_last().contains(x) {
                let i = choose|i: int| 0 <= i < s.drop_last().len() && s.drop_last()[i] == x;
                assert(s[i] == x);
            }
        }
        lemma_remove_value_absent(s.drop_last(), x);
        assert(remove_value(s, x) =~= s.drop_last().push(s.last()));
        assert(s.drop_last().push(s.last()) =~= s);
    }
}

/// Exact-value removal, executed front to back.
pub fn remove_u32(v: &Vec<u32>, x: u32) -> (r: Vec<u32>)
    ensures
        r@ == remove_value(v@, x),
{
    let mut r: Vec<u32> = Vec::new();
    let mut i: usize = 0;
    while i < v.len()
        invariant
            i <= v@.len(),
            r@ == remove_value(v@.subrange(0, i as int), x),
        decreases v@.len() - i,
    {
        let ghost pre = v@.subrange(0, i as int);
        let ghost cur = v@.subrange(0, i as int + 1);
        proof {
            assert(cur.drop_last() =~= pre);
            assert(cur.last() == v@[i as int]);
        }
        if v[i] != x {
            r.push(v[i]);
        }
        i = i + 1;
    }
    proof {
        assert(v@.subrange(0, v@.len() as int) =~= v@);
    }
    r
}

} // verus!
