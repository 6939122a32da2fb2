//! The ledger core: the asset store, the ownership index and the genealogy
//! index, kept mutually consistent by every operation.

use vstd::prelude::*;

use crate::assoc::assoc_find_pair;
use crate::assoc::assoc_find_u32;
use crate::assoc::assoc_find_u64;
use crate::assoc::assoc_has;
use crate::assoc::assoc_unique;
use crate::assoc::assoc_val;
use crate::assoc::lemma_assoc_at;
use crate::assoc::lemma_assoc_push;
use crate::assoc::lemma_assoc_update;
use crate::balances::Balances;
use crate::dna::combine_dna_bytes;
use crate::dna::combine_dna_spec;
use crate::kitty::Kitty;
use crate::seqs::lemma_push_contains;
use crate::seqs::lemma_remove_value_absent;
use crate::seqs::lemma_remove_value_contains;
use crate::seqs::lemma_remove_value_nodup;
use crate::seqs::remove_u32;
use crate::seqs::remove_value;

verus! {

/// The id list stored under key `k`, or the empty list when none is stored.
pub open spec fn list_of<K>(s: Seq<(K, Vec<u32>)>, k: K) -> Seq<u32> {
    match assoc_val(s, k) {
        Some(l) => l@,
        None => Seq::empty(),
    }
}

/// The ways an operation can fail. Every operation that fails leaves the
/// whole state unchanged.
#[derive(Clone, Copy, PartialEq, Eq, Structural, Debug)]
pub enum Error {
    /// The identifier space is exhausted.
    KittiesCountOverflow,
    /// A referenced kitty does not exist.
    InvalidKittyId,
    /// Both breeding parents are the same kitty.
    RequireDifferentParent,
    /// A transfer was attempted by an account that does not own the kitty.
    NotKittyOwner,
    /// The reservation gateway declined the stake.
    MoneyNotEnough,
}

/// The ledger state. Identifiers are dense: the kitty with id `i` is held at
/// index `i` of `kitties_store`, and `owner_store[i]` is its owner, so the
/// next id to allocate is the store's length.
pub struct Module {
    /// One kitty per allocated id, in allocation order.
    pub kitties_store: Vec<Kitty<u32>>,
    /// The owner of each allocated id.
    pub owner_store: Vec<u64>,
    /// For each account, the ids it owns, in insertion order.
    pub owned_store: Vec<(u64, Vec<u32>)>,
    /// For each ordered parent pair, its children, in birth order.
    pub children_store: Vec<((u32, u32), Vec<u32>)>,
    /// For each bred kitty, the sibling snapshot taken at its birth.
    pub brother_store: Vec<(u32, Vec<u32>)>,
    /// The largest id the allocator may hand out; allocation fails once the
    /// count reaches it.
    pub max_kitty_index: u32,
}

impl Module {
    /// The number of kitties created so far, which is also the next id.
    pub open spec fn spec_count(self) -> int {
        self.kitties_store@.len() as int
    }

    /// The stored kitty with id `id`, if any.
    pub open spec fn spec_kitty(self, id: u32) -> Option<Kitty<u32>> {
        if (id as int) < self.spec_count() {
            Some(self.kitties_store@[id as int])
        } else {
            None
        }
    }

    /// The owner of id `id`, if the kitty exists.
    pub open spec fn spec_owner(self, id: u32) -> Option<u64> {
        if (id as int) < self.spec_count() {
            Some(self.owner_store@[id as int])
        } else {
            None
        }
    }

    /// The ids owned by `who`, in insertion order.
    pub open spec fn spec_owned(self, who: u64) -> Seq<u32> {
        list_of(self.owned_store@, who)
    }

    /// The children of the ordered pair `(father, mother)`, in birth order.
    pub open spec fn spec_children(self, father: u32, mother: u32) -> Seq<u32> {
        list_of(self.children_store@, (father, mother))
    }

    /// The sibling snapshot stored for `id`.
    pub open spec fn spec_brother(self, id: u32) -> Seq<u32> {
        list_of(self.brother_store@, id)
    }

    /// Every id listed under an account is a stored kitty owned by it.
    pub open spec fn owned_entries_valid(self) -> bool {
        forall|j: int, m: int|
            0 <= j < self.owned_store@.len() && 0 <= m < self.owned_store@[j].1@.len()
                ==> ((#[trigger] self.owned_store@[j].1@[m]) as int) < self.spec_count()
                && self.owner_store@[self.owned_store@[j].1@[m] as int] == self.owned_store@[j].0
    }

    /// No account's list holds the same id twice.
    pub open spec fn owned_lists_nodup(self) -> bool {
        forall|j: int|
            0 <= j < self.owned_store@.len() ==> (#[trigger] self.owned_store@[j]).1@.no_duplicates()
    }

    /// Every stored kitty appears in its owner's list.
    pub open spec fn owners_complete(self) -> bool {
        forall|i: int|
            0 <= i < self.spec_count() ==> self.spec_owned(
                #[trigger] self.owner_store@[i],
            ).contains(i as u32)
    }

    /// Every recorded child is a stored kitty.
    pub open spec fn children_entries_valid(self) -> bool {
        forall|j: int, m: int|
            0 <= j < self.children_store@.len() && 0 <= m < self.children_store@[j].1@.len()
                ==> ((#[trigger] self.children_store@[j].1@[m]) as int) < self.spec_count()
    }

    /// Each stored kitty carries its own id.
    pub open spec fn kitties_ids_assigned(self) -> bool {
        forall|i: int|
            0 <= i < self.spec_count() ==> (#[trigger] self.kitties_store@[i]).kitty_id == Some(
                i as u32,
            )
    }

    /// The well-formedness invariant that every operation preserves.
    pub open spec fn wf(self) -> bool {
        &&& self.owner_store@.len() == self.kitties_store@.len()
        &&& self.spec_count() <= self.max_kitty_index as int
        &&& self.kitties_ids_assigned()
        &&& assoc_unique(self.owned_store@)
        &&& assoc_unique(self.children_store@)
        &&& assoc_unique(self.brother_store@)
        &&& self.owned_entries_valid()
        &&& self.owned_lists_nodup()
        &&& self.owners_complete()
        &&& self.children_entries_valid()
    }

    /// An empty ledger whose allocator may hand out ids below `max_kitty_index`.
    pub fn new(max_kitty_index: u32) -> (m: Module)
        ensures
            m.wf(),
            m.spec_count() == 0,
            m.max_kitty_index == max_kitty_index,
            forall|w: u64| m.spec_owned(w) == Seq::<u32>::empty(),
            forall|a: u32, b: u32| m.spec_children(a, b) == Seq::<u32>::empty(),
            forall|id: u32| m.spec_brother(id) == Seq::<u32>::empty(),
    {
        Module {
            kitties_store: Vec::new(),
            owner_store: Vec::new(),
            owned_store: Vec::new(),
            children_store: Vec::new(),
            brother_store: Vec::new(),
            max_kitty_index,
        }
    }

    pub fn kitties_count(&self) -> (r: u32)
        requires
            self.wf(),
        ensures
            r as int == self.spec_count(),
    {
        self.kitties_store.len() as u32
    }

    /// Look a kitty up by id.
    pub fn kitties(&self, kitty_id: u32) -> (r: Option<Kitty<u32>>)
        ensures
            r == self.spec_kitty(kitty_id),
    {
        if (kitty_id as usize) < self.kitties_store.len() {
            Some(self.kitties_store[kitty_id as usize])
        } else {
            None
        }
    }

    /// Look an owner up by kitty id.
    pub fn kitty_owner(&self, kitty_id: u32) -> (r: Option<u64>)
        requires
            self.wf(),
        ensures
            r == self.spec_owner(kitty_id),
    {
        if (kitty_id as usize) < self.owner_store.len() {
            Some(self.owner_store[kitty_id as usize])
        } else {
            None
        }
    }

    /// The ids owned by `who`, in insertion order.
    pub fn owned_kitties(&self, who: u64) -> (r: Vec<u32>)
        requires
            self.wf(),
        ensures
            r@ == self.spec_owned(who),
    {
        match assoc_find_u64(&self.owned_store, who) {
            Some(i) => {
                proof {
                    lemma_assoc_at(self.owned_store@, who, i as int);
                }
                clone_ids(&self.owned_store[i].1)
            },
            None => Vec::new(),
        }
    }

    /// The children recorded for the ordered pair `(father, mother)`.
    pub fn kitty_children(&self, father: u32, mother: u32) -> (r: Vec<u32>)
        requires
            self.wf(),
        ensures
            r@ == self.spec_children(father, mother),
    {
        match assoc_find_pair(&self.children_store, (father, mother)) {
            Some(i) => {
                proof {
                    lemma_assoc_at(self.children_store@, (father, mother), i as int);
                }
                clone_ids(&self.children_store[i].1)
            },
            None => Vec::new(),
        }
    }

    /// The sibling snapshot recorded for `kitty_id`.
    pub fn kitty_brother(&self, kitty_id: u32) -> (r: Vec<u32>)
        requires
            self.wf(),
        ensures
            r@ == self.spec_brother(kitty_id),
    {
        match assoc_find_u32(&self.brother_store, kitty_id) {
            Some(i) => {
                proof {
                    lemma_assoc_at(self.brother_store@, kitty_id, i as int);
                }
                clone_ids(&self.brother_store[i].1)
            },
            None => Vec::new(),
        }
    }

    /// The next id to allocate; fails once the configured maximum is reached.
    pub fn next_kitty_id(&self) -> (r: Result<u32, Error>)
        requires
            self.wf(),
        ensures
            self.spec_count() < self.max_kitty_index as int ==> r == Ok::<u32, Error>(
                self.spec_count() as u32,
            ),
            self.spec_count() == self.max_kitty_index as int ==> r == Err::<u32, Error>(
                Error::KittiesCountOverflow,
            ),
    {
        let kitty_id = self.kitties_count();
        if kitty_id == self.max_kitty_index {
            return Err(Error::KittiesCountOverflow);
        }
        Ok(kitty_id)
    }

    /// Persist a freshly allocated kitty and assign its ownership. Only the
    /// allocator's current id may be inserted, so no overwrite can happen.
    pub fn insert_kitty(&mut self, owner: u64, kitty_id: u32, kitty: Kitty<u32>)
        requires
            old(self).wf(),
            kitty_id as int == old(self).spec_count(),
            old(self).spec_count() < old(self).max_kitty_index as int,
            kitty.kitty_id == Some(kitty_id),
        ensures
            final(self).wf(),
            final(self).max_kitty_index == old(self).max_kitty_index,
            final(self).kitties_store@ == old(self).kitties_store@.push(kitty),
            final(self).owner_store@ == old(self).owner_store@.push(owner),
            final(self).spec_owned(owner) == old(self).spec_owned(owner).push(kitty_id),
            forall|w: u64| w != owner ==> final(self).spec_owned(w) == old(self).spec_owned(w),
            final(self).children_store == old(self).children_store,
            final(self).brother_store == old(self).brother_store,
    {
        self.kitties_store.push(kitty);
        self.owner_store.push(owner);
        match assoc_find_u64(&self.owned_store, owner) {
            Some(i) => {
                proof {
                    lemma_assoc_at(old(self).owned_store@, owner, i as int);
                }
                let ghost l = old(self).owned_store@[i as int].1@;
                let mut nl = clone_ids(&self.owned_store[i].1);
                nl.push(kitty_id);
                let ghost nls = nl@;
                self.owned_store[i] = (owner, nl);
                proof {
                    let pre = old(self).owned_store@;
                    let cur = self.owned_store@;
                    let nv = cur[i as int].1;
                    assert(cur == pre.update(i as int, (owner, nv)));
                    assert(nv@ == l.push(kitty_id));
                    assert forall|w: u64| true implies self.spec_owned(w) == (if w == owner {
                        old(self).spec_owned(owner).push(kitty_id)
                    } else {
                        old(self).spec_owned(w)
                    }) by {
                        lemma_assoc_update(pre, i as int, owner, nv, w);
                    }
                    lemma_assoc_update(pre, i as int, owner, nv, owner);
                    // no id of the old list can be the fresh id
                    assert forall|m: int| 0 <= m < l.len() implies l[m] != kitty_id by {
                        assert((old(self).owned_store@[i as int].1@[m] as int) < old(
                            self,
                        ).spec_count());
                    }
                    assert(nls.no_duplicates()) by {
                        assert forall|a: int, b: int| 0 <= a < b < nls.len() implies nls[a]
                            != nls[b] by {
                            if b < l.len() {
                                assert(old(self).owned_store@[i as int].1@.no_duplicates());
                            } else {
                                assert(nls[b] == kitty_id);
                                assert(nls[a] == l[a]);
                            }
                        }
                    }
                    assert forall|j: int|
                        0 <= j < cur.len() implies (#[trigger] cur[j]).1@.no_duplicates() by {
                        if j == i {
                            assert(cur[j].1@ == nls);
                        } else {
                            assert(cur[j] == pre[j]);
                            assert(pre[j].1@.no_duplicates());
                        }
                    }
                    assert forall|j: int, m: int|
                        0 <= j < cur.len() && 0 <= m < cur[j].1@.len() implies ((
                        #[trigger] cur[j].1@[m]) as int) < self.spec_count()
                        && self.owner_store@[cur[j].1@[m] as int] == cur[j].0 by {
                        if j == i {
                            if m < l.len() {
                                assert(cur[j].1@[m] == l[m]);
                                assert((old(self).owned_store@[i as int].1@[m] as int) < old(
                                    self,
                                ).spec_count());
                                assert(self.owner_store@[l[m] as int] == old(
                                    self,
                                ).owner_store@[l[m] as int]);
                            } else {
                                assert(cur[j].1@[m] == kitty_id);
                                assert(self.owner_store@[kitty_id as int] == owner);
                            }
                        } else {
                            assert(cur[j] == pre[j]);
                            assert((old(self).owned_store@[j].1@[m] as int) < old(
                                self,
                            ).spec_count());
                            let e = pre[j].1@[m];
                            assert(self.owner_store@[e as int] == old(self).owner_store@[e as int]);
                        }
                    }
                }
            },
            None => {
                let nl = vec![kitty_id];
                let ghost nls = nl@;
                self.owned_store.push((owner, nl));
                proof {
                    let pre = old(self).owned_store@;
                    let cur = self.owned_store@;
                    let nv = cur.last().1;
                    assert(cur == pre.push((owner, nv)));
                    assert(nv@ == nls);
                    assert(nls =~= Seq::<u32>::empty().push(kitty_id));
                    assert forall|w: u64| true implies self.spec_owned(w) == (if w == owner {
                        old(self).spec_owned(owner).push(kitty_id)
                    } else {
                        old(self).spec_owned(w)
                    }) by {
                        lemma_assoc_push(pre, owner, nv, w);
                    }
                    lemma_assoc_push(pre, owner, nv, owner);
                    assert forall|j: int|
                        0 <= j < cur.len() implies (#[trigger] cur[j]).1@.no_duplicates() by {
                        if j < pre.len() {
                            assert(cur[j] == pre[j]);
                            assert(pre[j].1@.no_duplicates());
                        } else {
                            assert(cur[j].1@ == nls);
                        }
                    }
                    assert forall|j: int, m: int|
                        0 <= j < cur.len() && 0 <= m < cur[j].1@.len() implies ((
                        #[trigger] cur[j].1@[m]) as int) < self.spec_count()
                        && self.owner_store@[cur[j].1@[m] as int] == cur[j].0 by {
                        if j < pre.len() {
                            assert(cur[j] == pre[j]);
                            assert((old(self).owned_store@[j].1@[m] as int) < old(
                                self,
                            ).spec_count());
                            let e = pre[j].1@[m];
                            assert(self.owner_store@[e as int] == old(self).owner_store@[e as int]);
                        } else {
                            assert(cur[j].1@[m] == kitty_id);
                            assert(self.owner_store@[kitty_id as int] == owner);
                        }
                    }
                }
            },
        }
        proof {
            assert forall|idx: int|
                0 <= idx < self.spec_count() implies (#[trigger] self.kitties_store@[idx]).kitty_id
                == Some(idx as u32) by {
                if idx < old(self).spec_count() {
                    assert(self.kitties_store@[idx] == old(self).kitties_store@[idx]);
                    assert(old(self).kitties_store@[idx].kitty_id == Some(idx as u32));
                } else {
                    assert(self.kitties_store@[idx] == kitty);
                }
            }
            assert forall|idx: int|
                0 <= idx < self.spec_count() implies self.spec_owned(
                #[trigger] self.owner_store@[idx],
            ).contains(idx as u32) by {
                let w = self.owner_store@[idx];
                if idx < old(self).spec_count() {
                    assert(w == old(self).owner_store@[idx]);
                    assert(old(self).spec_owned(old(self).owner_store@[idx]).contains(idx as u32));
                    if w == owner {
                        lemma_push_contains(old(self).spec_owned(owner), kitty_id, idx as u32);
                    }
                } else {
                    assert(w == owner);
                    lemma_push_contains(old(self).spec_owned(owner), kitty_id, kitty_id);
                }
            }
            assert forall|j: int, m: int|
                0 <= j < self.children_store@.len() && 0 <= m < self.children_store@[j].1@.len()
                implies ((#[trigger] self.children_store@[j].1@[m]) as int) < self.spec_count() by {
                assert((old(self).children_store@[j].1@[m] as int) < old(self).spec_count());
            }
        }
    }
    /// Append a newly bred child to the children list of the exact ordered
    /// parent pair, creating the list when the pair had none.
    pub fn update_kitties_children(&mut self, children: u32, father: u32, mother: u32)
        requires
            old(self).wf(),
            (children as int) < old(self).spec_count(),
        ensures
            final(self).wf(),
            final(self).spec_children(father, mother) == old(self).spec_children(
                father,
                mother,
            ).push(children),
            forall|a: u32, b: u32|
                !(a == father && b == mother) ==> final(self).spec_children(a, b) == old(
                    self,
                ).spec_children(a, b),
            final(self).kitties_store == old(self).kitties_store,
            final(self).owner_store == old(self).owner_store,
            final(self).owned_store == old(self).owned_store,
            final(self).brother_store == old(self).brother_store,
            final(self).max_kitty_index == old(self).max_kitty_index,
    {
        match assoc_find_pair(&self.children_store, (father, mother)) {
            Some(i) => {
                proof {
                    lemma_assoc_at(old(self).children_store@, (father, mother), i as int);
                }
                let ghost l = old(self).children_store@[i as int].1@;
                let mut nl = clone_ids(&self.children_store[i].1);
                nl.push(children);
                self.children_store[i] = ((father, mother), nl);
                proof {
                    let pre = old(self).children_store@;
                    let cur = self.children_store@;
                    let nv = cur[i as int].1;
                    assert(cur == pre.update(i as int, ((father, mother), nv)));
                    assert(nv@ == l.push(children));
                    assert forall|a: u32, b: u32| true implies self.spec_children(a, b) == (if a
                        == father && b == mother {
                        old(self).spec_children(father, mother).push(children)
                    } else {
                        old(self).spec_children(a, b)
                    }) by {
                        lemma_assoc_update(pre, i as int, (father, mother), nv, (a, b));
                        if !(a == father && b == mother) {
                            assert((a, b) != (father, mother));
                        }
                    }
                    assert forall|j: int, m: int|
                        0 <= j < cur.len() && 0 <= m < cur[j].1@.len() implies ((
                        #[trigger] cur[j].1@[m]) as int) < self.spec_count() by {
                        if j == i {
                            if m < l.len() {
                                assert(cur[j].1@[m] == l[m]);
                                assert((old(self).children_store@[i as int].1@[m] as int) < old(
                                    self,
                                ).spec_count());
                            } else {
                                assert(cur[j].1@[m] == children);
                            }
                        } else {
                            assert(cur[j] == pre[j]);
                            assert((old(self).children_store@[j].1@[m] as int) < old(
                                self,
                            ).spec_count());
                        }
                    }
                }
            },
            None => {
                let nl = vec![children];
                self.children_store.push(((father, mother), nl));
                proof {
                    let pre = old(self).children_store@;
                    let cur = self.children_store@;
                    let nv = cur.last().1;
                    assert(cur == pre.push(((father, mother), nv)));
                    assert(nv@ =~= Seq::<u32>::empty().push(children));
                    assert forall|a: u32, b: u32| true implies self.spec_children(a, b) == (if a
                        == father && b == mother {
                        old(self).spec_children(father, mother).push(children)
                    } else {
                        old(self).spec_children(a, b)
                    }) by {
                        lemma_assoc_push(pre, (father, mother), nv, (a, b));
                        if !(a == father && b == mother) {
                            assert((a, b) != (father, mother));
                        }
                    }
                    assert forall|j: int, m: int|
                        0 <= j < cur.len() && 0 <= m < cur[j].1@.len() implies ((
                        #[trigger] cur[j].1@[m]) as int) < self.spec_count() by {
                        if j < pre.len() {
                            assert(cur[j] == pre[j]);
                            assert((old(self).children_store@[j].1@[m] as int) < old(
                                self,
                            ).spec_count());
                        } else {
                            assert(cur[j].1@[m] == children);
                        }
                    }
                }
            },
        }
    }

    /// Store the sibling snapshot of a just-bred kitty: the children of its
    /// parent pair as recorded now, with its own id removed. Does nothing
    /// when the record carries no parent pair or no id.
    pub fn update_kitties_brother(&mut self, new_kitty: &Kitty<u32>)
        requires
            old(self).wf(),
        ensures
            final(self).wf(),
            (new_kitty.parents_ids.0 is Some && new_kitty.parents_ids.1 is Some
                && new_kitty.kitty_id is Some) ==> final(self).spec_brother(
                new_kitty.kitty_id->Some_0,
            ) == remove_value(
                old(self).spec_children(
                    new_kitty.parents_ids.0->Some_0,
                    new_kitty.parents_ids.1->Some_0,
                ),
                new_kitty.kitty_id->Some_0,
            ) && (forall|x: u32|
                x != new_kitty.kitty_id->Some_0 ==> final(self).spec_brother(x) == old(
                    self,
                ).spec_brother(x)),
            !(new_kitty.parents_ids.0 is Some && new_kitty.parents_ids.1 is Some
                && new_kitty.kitty_id is Some) ==> *final(self) == *old(self),
            final(self).kitties_store == old(self).kitties_store,
            final(self).owner_store == old(self).owner_store,
            final(self).owned_store == old(self).owned_store,
            final(self).children_store == old(self).children_store,
            final(self).max_kitty_index == old(self).max_kitty_index,
    {
        if let (Some(father), Some(mother)) = new_kitty.parents_ids {
            match new_kitty.kitty_id {
                Some(kitty_id) => {
                    let filtered = match assoc_find_pair(&self.children_store, (father, mother)) {
                        Some(i) => {
                            proof {
                                lemma_assoc_at(self.children_store@, (father, mother), i as int);
                            }
                            remove_u32(&self.children_store[i].1, kitty_id)
                        },
                        None => {
                            proof {
                                assert(remove_value(Seq::<u32>::empty(), kitty_id)
                                    =~= Seq::<u32>::empty());
                            }
                            Vec::new()
                        },
                    };
                    assert(filtered@ == remove_value(
                        old(self).spec_children(father, mother),
                        kitty_id,
                    ));
                    match assoc_find_u32(&self.brother_store, kitty_id) {
                        Some(j) => {
                            proof {
                                lemma_assoc_at(old(self).brother_store@, kitty_id, j as int);
                            }
                            self.brother_store[j] = (kitty_id, filtered);
                            proof {
                                let pre = old(self).brother_store@;
                                let cur = self.brother_store@;
                                let nv = cur[j as int].1;
                                assert(cur == pre.update(j as int, (kitty_id, nv)));
                                assert forall|x: u32| true implies self.spec_brother(x) == (if x
                                    == kitty_id {
                                    nv@
                                } else {
                                    old(self).spec_brother(x)
                                }) by {
                                    lemma_assoc_update(pre, j as int, kitty_id, nv, x);
                                }
                            }
                        },
                        None => {
                            self.brother_store.push((kitty_id, filtered));
                            proof {
                                let pre = old(self).brother_store@;
                                let cur = self.brother_store@;
                                let nv = cur.last().1;
                                assert(cur == pre.push((kitty_id, nv)));
                                assert forall|x: u32| true implies self.spec_brother(x) == (if x
                                    == kitty_id {
                                    nv@
                                } else {
                                    old(self).spec_brother(x)
                                }) by {
                                    lemma_assoc_push(pre, kitty_id, nv, x);
                                }
                            }
                        },
                    }
                },
                None => {},
            }
        }
    }
    /// Move `kitty_id` from `sender` to `to`. Fails with `InvalidKittyId`
    /// when the kitty does not exist, and with `NotKittyOwner` when it exists
    /// but `sender` does not own it; on failure nothing changes.
    pub fn transfer(&mut self, sender: u64, to: u64, kitty_id: u32) -> (r: Result<(), Error>)
        requires
            old(self).wf(),
        ensures
            final(self).wf(),
            r == Err::<(), Error>(Error::InvalidKittyId) <==> old(self).spec_owner(kitty_id) is None,
            r == Err::<(), Error>(Error::NotKittyOwner) <==> (old(self).spec_owner(kitty_id) is Some
                && old(self).spec_owner(kitty_id) != Some(sender)),
            r == Ok::<(), Error>(()) <==> old(self).spec_owner(kitty_id) == Some(sender),
            r is Err ==> *final(self) == *old(self),
            r is Ok ==> ({
                &&& final(self).spec_owner(kitty_id) == Some(to)
                &&& forall|x: u32|
                    x != kitty_id ==> final(self).spec_owner(x) == old(self).spec_owner(x)
                &&& final(self).spec_owned(to) == (if to == sender {
                    remove_value(old(self).spec_owned(sender), kitty_id)
                } else {
                    old(self).spec_owned(to)
                }).push(kitty_id)
                &&& to != sender ==> final(self).spec_owned(sender) == remove_value(
                    old(self).spec_owned(sender),
                    kitty_id,
                )
                &&& forall|w: u64|
                    w != sender && w != to ==> final(self).spec_owned(w) == old(self).spec_owned(w)
                &&& final(self).kitties_store == old(self).kitties_store
                &&& final(self).children_store == old(self).children_store
                &&& final(self).brother_store == old(self).brother_store
            }),
            final(self).max_kitty_index == old(self).max_kitty_index,
    {
        let owner = match self.kitty_owner(kitty_id) {
            None => {
                return Err(Error::InvalidKittyId);
            },
            Some(o) => o,
        };
        if owner != sender {
            return Err(Error::NotKittyOwner);
        }
        let ghost sl = old(self).spec_owned(sender);
        let ghost fl = remove_value(sl, kitty_id);
        let i = match assoc_find_u64(&self.owned_store, sender) {
            Some(i) => i,
            None => {
                proof {
                    assert(old(self).spec_owned(old(self).owner_store@[kitty_id as int]).contains(
                        kitty_id,
                    ));
                    assert(false);
                }
                return Err(Error::NotKittyOwner);
            },
        };
        proof {
            lemma_assoc_at(old(self).owned_store@, sender, i as int);
            assert(old(self).owned_store@[i as int].1@ == sl);
            lemma_owned_nodup(*old(self), sender);
            lemma_remove_value_nodup(sl, kitty_id);
            assert forall|x: u32| true implies (fl.contains(x) <==> (sl.contains(x) && x
                != kitty_id)) by {
                lemma_remove_value_contains(sl, kitty_id, x);
            }
        }
        let filtered = remove_u32(&self.owned_store[i].1, kitty_id);
        self.owned_store[i] = (sender, filtered);
        let ghost midm = *self;
        proof {
            let pre = old(self).owned_store@;
            let mv = midm.owned_store@[i as int].1;
            assert(midm.owned_store@ == pre.update(i as int, (sender, mv)));
            assert(mv@ == fl);
            assert forall|w: u64| true implies list_of(midm.owned_store@, w) == (if w == sender {
                fl
            } else {
                list_of(pre, w)
            }) by {
                lemma_assoc_update(pre, i as int, sender, mv, w);
            }
            lemma_assoc_update(pre, i as int, sender, mv, sender);
            assert(assoc_unique(midm.owned_store@));
        }
        let ghost base = if to == sender {
            fl
        } else {
            old(self).spec_owned(to)
        };
        match assoc_find_u64(&self.owned_store, to) {
            Some(j) => {
                proof {
                    lemma_assoc_at(midm.owned_store@, to, j as int);
                    assert(midm.owned_store@[j as int].1@ == base);
                }
                let mut nl = clone_ids(&self.owned_store[j].1);
                nl.push(kitty_id);
                self.owned_store[j] = (to, nl);
                proof {
                    let cur = self.owned_store@;
                    let nv = cur[j as int].1;
                    assert(cur == midm.owned_store@.update(j as int, (to, nv)));
                    assert(nv@ == base.push(kitty_id));
                    assert forall|w: u64| true implies list_of(cur, w) == (if w == to {
                        base.push(kitty_id)
                    } else {
                        list_of(midm.owned_store@, w)
                    }) by {
                        lemma_assoc_update(midm.owned_store@, j as int, to, nv, w);
                    }
                    lemma_assoc_update(midm.owned_store@, j as int, to, nv, to);
                }
            },
            None => {
                proof {
                    if to == sender {
                        assert(midm.owned_store@[i as int].0 == to);
                        assert(assoc_has(midm.owned_store@, to));
                        assert(false);
                    }
                    assert(!assoc_has(old(self).owned_store@, to)) by {
                        if assoc_has(old(self).owned_store@, to) {
                            let j = crate::assoc::assoc_idx(old(self).owned_store@, to);
                            assert(0 <= j < old(self).owned_store@.len());
                            assert(old(self).owned_store@[j].0 == to);
                            if j == i as int {
                                assert(old(self).owned_store@[j].0 == sender);
                            } else {
                                assert(midm.owned_store@[j].0 == to);
                                assert(assoc_has(midm.owned_store@, to));
                            }
                        }
                    }
                    assert(base =~= Seq::<u32>::empty());
                }
                self.owned_store.push((to, vec![kitty_id]));
                proof {
                    let cur = self.owned_store@;
                    let nv = cur.last().1;
                    assert(cur == midm.owned_store@.push((to, nv)));
                    assert(nv@ =~= base.push(kitty_id));
                    assert forall|w: u64| true implies list_of(cur, w) == (if w == to {
                        base.push(kitty_id)
                    } else {
                        list_of(midm.owned_store@, w)
                    }) by {
                        lemma_assoc_push(midm.owned_store@, to, nv, w);
                    }
                    lemma_assoc_push(midm.owned_store@, to, nv, to);
                }
            },
        }
        self.owner_store[kitty_id as usize] = to;
        proof {
            lemma_transfer_restores_wf(
                *old(self),
                *self,
                sender,
                to,
                kitty_id,
                sl,
                fl,
                base,
            );
        }
        Ok(())
    }
    /// Create a founder kitty for `sender` with the given DNA, reserving
    /// `stake` from `sender`'s balance first; on any failure nothing changes.
    pub fn create(&mut self, sender: u64, dna: [u8; 16], balances: &mut Balances, stake: u64) -> (r:
        Result<u32, Error>)
        requires
            old(self).wf(),
            old(balances).wf(),
        ensures
            final(self).wf(),
            final(balances).wf(),
            final(self).max_kitty_index == old(self).max_kitty_index,
            r == Err::<u32, Error>(Error::KittiesCountOverflow) <==> old(self).spec_count() == old(
                self,
            ).max_kitty_index as int,
            r == Err::<u32, Error>(Error::MoneyNotEnough) <==> (old(self).spec_count() < old(
                self,
            ).max_kitty_index as int && old(balances).free_of(sender) < stake),
            r is Ok <==> (old(self).spec_count() < old(self).max_kitty_index as int && stake <= old(
                balances,
            ).free_of(sender)),
            r is Err ==> *final(self) == *old(self) && *final(balances) == *old(balances),
            r is Ok ==> ({
                let nid = old(self).spec_count() as u32;
                &&& r == Ok::<u32, Error>(nid)
                &&& alloc_step(*old(self), *final(self), nid)
                &&& final(self).kitties_store@ == old(self).kitties_store@.push(
                    (Kitty {
                        kitty_id: Some(nid),
                        parents_ids: (None, None),
                        spouse_id: None,
                        dna_data: dna,
                    }),
                )
                &&& final(self).owner_store@ == old(self).owner_store@.push(sender)
                &&& final(self).spec_owned(sender) == old(self).spec_owned(sender).push(nid)
                &&& (forall|w: u64|
                    w != sender ==> final(self).spec_owned(w) == old(self).spec_owned(w))
                &&& final(self).children_store == old(self).children_store
                &&& final(self).brother_store == old(self).brother_store
                &&& final(balances).free_of(sender) == old(balances).free_of(sender) - stake
                &&& final(balances).reserved_of(sender) == old(balances).reserved_of(sender)
                    + stake
                &&& (forall|w: u64|
                    w != sender ==> final(balances).free_of(w) == old(balances).free_of(w)
                        && final(balances).reserved_of(w) == old(balances).reserved_of(w))
            }),
    {
        let kitty_id = match self.next_kitty_id() {
            Ok(id) => id,
            Err(e) => {
                return Err(e);
            },
        };
        if !balances.reserve(sender, stake) {
            return Err(Error::MoneyNotEnough);
        }
        let mut new_kitty = Kitty::new();
        new_kitty.set_dna_data(dna);
        new_kitty.set_kitty_id(kitty_id);
        proof {
            assert(new_kitty =~= (Kitty {
                kitty_id: Some(kitty_id),
                parents_ids: (None, None),
                spouse_id: None,
                dna_data: dna,
            }));
        }
        self.insert_kitty(sender, kitty_id, new_kitty);
        Ok(kitty_id)
    }

    /// Breed a new kitty from two distinct existing parents: combine their
    /// DNA under `selector`, record genealogy and spouse links, reserve the
    /// stake, and persist the child; on any failure nothing changes.
    pub fn do_breed(
        &mut self,
        sender: u64,
        kitty_id_1: u32,
        kitty_id_2: u32,
        selector: &[u8; 16],
        balances: &mut Balances,
        stake: u64,
    ) -> (r: Result<u32, Error>)
        requires
            old(self).wf(),
            old(balances).wf(),
        ensures
            final(self).wf(),
            final(balances).wf(),
            final(self).max_kitty_index == old(self).max_kitty_index,
            r == Err::<u32, Error>(Error::InvalidKittyId) <==> (old(self).spec_kitty(kitty_id_1)
                is None || old(self).spec_kitty(kitty_id_2) is None),
            r == Err::<u32, Error>(Error::RequireDifferentParent) <==> (old(self).spec_kitty(
                kitty_id_1,
            ) is Some && old(self).spec_kitty(kitty_id_2) is Some && kitty_id_1 == kitty_id_2),
            r == Err::<u32, Error>(Error::KittiesCountOverflow) <==> (old(self).spec_kitty(
                kitty_id_1,
            ) is Some && old(self).spec_kitty(kitty_id_2) is Some && kitty_id_1 != kitty_id_2
                && old(self).spec_count() == old(self).max_kitty_index as int),
            r == Err::<u32, Error>(Error::MoneyNotEnough) <==> (old(self).spec_kitty(kitty_id_1)
                is Some && old(self).spec_kitty(kitty_id_2) is Some && kitty_id_1 != kitty_id_2
                && old(self).spec_count() < old(self).max_kitty_index as int && old(
                balances,
            ).free_of(sender) < stake),
            r is Ok <==> (old(self).spec_kitty(kitty_id_1) is Some && old(self).spec_kitty(
                kitty_id_2,
            ) is Some && kitty_id_1 != kitty_id_2 && old(self).spec_count() < old(
                self,
            ).max_kitty_index as int && stake <= old(balances).free_of(sender)),
            r is Err ==> *final(self) == *old(self) && *final(balances) == *old(balances),
            r is Ok ==> ({
                let nid = old(self).spec_count() as u32;
                &&& r == Ok::<u32, Error>(nid)
                &&& alloc_step(*old(self), *final(self), nid)
                &&& breed_step(*old(self), *final(self), kitty_id_1, kitty_id_2, nid)
                &&& final(self).spec_kitty(nid) is Some
                &&& final(self).spec_kitty(nid)->Some_0.kitty_id == Some(nid)
                &&& final(self).spec_kitty(nid)->Some_0.parents_ids == (
                    Some(kitty_id_1),
                    Some(kitty_id_2),
                )
                &&& final(self).spec_kitty(nid)->Some_0.spouse_id is None
                &&& (forall|b: int|
                    0 <= b < 16 ==> final(self).spec_kitty(nid)->Some_0.dna_data@[b]
                        == combine_dna_spec(
                        old(self).spec_kitty(kitty_id_1)->Some_0.dna_data@[b],
                        old(self).spec_kitty(kitty_id_2)->Some_0.dna_data@[b],
                        selector@[b],
                    ))
                &&& final(self).spec_kitty(kitty_id_1) == Some(
                    (Kitty { spouse_id: Some(kitty_id_2), ..old(self).spec_kitty(kitty_id_1)->Some_0 }),
                )
                &&& final(self).spec_kitty(kitty_id_2) == Some(
                    (Kitty { spouse_id: Some(kitty_id_1), ..old(self).spec_kitty(kitty_id_2)->Some_0 }),
                )
                &&& (forall|x: u32|
                    (x as int) < old(self).spec_count() && x != kitty_id_1 && x != kitty_id_2
                        ==> final(self).spec_kitty(x) == old(self).spec_kitty(x))
                &&& final(self).spec_owner(nid) == Some(sender)
                &&& (forall|x: u32|
                    x != nid ==> final(self).spec_owner(x) == old(self).spec_owner(x))
                &&& final(self).spec_owned(sender) == old(self).spec_owned(sender).push(nid)
                &&& (forall|w: u64|
                    w != sender ==> final(self).spec_owned(w) == old(self).spec_owned(w))
                &&& final(balances).free_of(sender) == old(balances).free_of(sender) - stake
                &&& final(balances).reserved_of(sender) == old(balances).reserved_of(sender)
                    + stake
                &&& (forall|w: u64|
                    w != sender ==> final(balances).free_of(w) == old(balances).free_of(w)
                        && final(balances).reserved_of(w) == old(balances).reserved_of(w))
            }),
    {
        let kitty1 = match self.kitties(kitty_id_1) {
            Some(k) => k,
            None => {
                return Err(Error::InvalidKittyId);
            },
        };
        let kitty2 = match self.kitties(kitty_id_2) {
            Some(k) => k,
            None => {
                return Err(Error::InvalidKittyId);
            },
        };
        if kitty_id_1 == kitty_id_2 {
            return Err(Error::RequireDifferentParent);
        }
        let new_kitty_id = match self.next_kitty_id() {
            Ok(id) => id,
            Err(e) => {
                return Err(e);
            },
        };
        let new_dna = combine_dna_bytes(&kitty1.dna_data, &kitty2.dna_data, selector);
        let mut new_kitty = Kitty::new();
        new_kitty.set_dna_data(new_dna);
        new_kitty.set_parents_ids(Some(kitty_id_1), Some(kitty_id_2));
        new_kitty.set_kitty_id(new_kitty_id);
        if !balances.reserve(sender, stake) {
            return Err(Error::MoneyNotEnough);
        }
        self.insert_kitty(sender, new_kitty_id, new_kitty);
        let mut k1 = self.kitties_store[kitty_id_1 as usize];
        k1.set_spouse_id(kitty_id_2);
        self.kitties_store[kitty_id_1 as usize] = k1;
        let mut k2 = self.kitties_store[kitty_id_2 as usize];
        k2.set_spouse_id(kitty_id_1);
        self.kitties_store[kitty_id_2 as usize] = k2;
        proof {
            assert forall|idx: int|
                0 <= idx < self.spec_count() implies (#[trigger] self.kitties_store@[idx]).kitty_id
                == Some(idx as u32) by {
                if idx == kitty_id_1 as int {
                } else if idx == kitty_id_2 as int {
                } else if idx < old(self).spec_count() {
                    assert(self.kitties_store@[idx] == old(self).kitties_store@[idx]);
                    assert(old(self).kitties_store@[idx].kitty_id == Some(idx as u32));
                } else {
                    assert(self.kitties_store@[idx] == new_kitty);
                }
            }
            assert(self.wf());
        }
        let ghost sp = *self;
        self.update_kitties_children(new_kitty_id, kitty_id_1, kitty_id_2);
        let ghost mid = *self;
        self.update_kitties_brother(&new_kitty);
        proof {
            let nid = new_kitty_id;
            assert forall|a: u32, b: u32| !(a == kitty_id_1 && b == kitty_id_2) implies self.spec_children(a, b) == old(self).spec_children(a, b) by {
                assert(mid.spec_children(a, b) == sp.spec_children(a, b));
                assert(self.spec_children(a, b) == mid.spec_children(a, b));
                assert(sp.spec_children(a, b) == old(self).spec_children(a, b));
            }
            // the sibling snapshot equals the children recorded before this birth
            assert(mid.spec_children(kitty_id_1, kitty_id_2) == old(self).spec_children(
                kitty_id_1,
                kitty_id_2,
            ).push(nid));
            let oldch = old(self).spec_children(kitty_id_1, kitty_id_2);
            assert(oldch.push(nid).drop_last() =~= oldch);
            assert(remove_value(oldch.push(nid), nid) == remove_value(oldch, nid));
            assert(!oldch.contains(nid)) by {
                if oldch.contains(nid) {
                    lemma_children_elem(*old(self), kitty_id_1, kitty_id_2, nid);
                }
            }
            lemma_remove_value_absent(oldch, nid);
            assert(self.spec_brother(nid) == oldch);
        }
        Ok(new_kitty_id)
    }
}

/// The genealogy effect of one successful breeding: the child's id is the
/// count before the birth, the child is appended to its parent pair's
/// children, and its sibling snapshot is the pair's children from before the
/// birth; no other genealogy entry moves.
pub open spec fn breed_step(pre: Module, post: Module, father: u32, mother: u32, child: u32) -> bool {
    &&& pre.wf()
    &&& post.wf()
    &&& child as int == pre.spec_count()
    &&& post.spec_count() == pre.spec_count() + 1
    &&& post.spec_children(father, mother) == pre.spec_children(father, mother).push(child)
    &&& (forall|a: u32, b: u32|
        !(a == father && b == mother) ==> post.spec_children(a, b) == pre.spec_children(a, b))
    &&& post.spec_brother(child) == pre.spec_children(father, mother)
    &&& (forall|x: u32| x != child ==> post.spec_brother(x) == pre.spec_brother(x))
}

/// The identity-allocation effect of one successful creation or breeding:
/// the new unit takes the current counter value, and the counter advances by
/// exactly one.
pub open spec fn alloc_step(pre: Module, post: Module, id: u32) -> bool {
    &&& id as int == pre.spec_count()
    &&& post.spec_count() == pre.spec_count() + 1
}

/// Monotonic ids: two successive successful creations or breedings assign
/// exactly the successive counter values, so a run of N of them yields the
/// ids `c, c + 1, ..., c + N - 1` in call order.
pub proof fn lemma_ids_monotonic(s0: Module, s1: Module, s2: Module, id1: u32, id2: u32)
    requires
        alloc_step(s0, s1, id1),
        alloc_step(s1, s2, id2),
    ensures
        id2 as int == id1 as int + 1,
{
}

/// Ownership consistency: every stored kitty has an owner, that owner's list
/// holds its id exactly once, and no other account's list holds it at all.
pub proof fn lemma_ownership_consistent(m: Module, id: u32)
    requires
        m.wf(),
        m.spec_kitty(id) is Some,
    ensures
        m.spec_owner(id) is Some,
        m.spec_owned(m.spec_owner(id)->Some_0).contains(id),
        m.spec_owned(m.spec_owner(id)->Some_0).no_duplicates(),
        forall|who: u64| who != m.spec_owner(id)->Some_0 ==> !m.spec_owned(who).contains(id),
{
    let w = m.spec_owner(id)->Some_0;
    assert(m.spec_owned(m.owner_store@[id as int]).contains(id));
    lemma_owned_nodup(m, w);
    assert forall|who: u64| who != w implies !m.spec_owned(who).contains(id) by {
        if m.spec_owned(who).contains(id) {
            lemma_owned_elem(m, who, id);
        }
    }
}

/// Sibling snapshot asymmetry: when the same ordered pair breeds twice, the
/// younger child's snapshot lists the elder child, but the elder child's
/// snapshot never gains the younger one.
pub proof fn lemma_sibling_snapshot_asymmetry(
    s0: Module,
    s1: Module,
    s2: Module,
    father: u32,
    mother: u32,
    c1: u32,
    c2: u32,
)
    requires
        breed_step(s0, s1, father, mother, c1),
        breed_step(s1, s2, father, mother, c2),
    ensures
        s2.spec_brother(c2).contains(c1),
        !s2.spec_brother(c1).contains(c2),
{
    assert(s2.spec_brother(c2) == s0.spec_children(father, mother).push(c1));
    lemma_push_contains(s0.spec_children(father, mother), c1, c1);
    assert(c1 != c2);
    assert(s2.spec_brother(c1) == s1.spec_brother(c1));
    assert(s1.spec_brother(c1) == s0.spec_children(father, mother));
    assert(!s0.spec_children(father, mother).contains(c2)) by {
        if s0.spec_children(father, mother).contains(c2) {
            lemma_children_elem(s0, father, mother, c2);
        }
    }
}

/// Every recorded child of any pair is a stored kitty.
pub proof fn lemma_children_elem(m: Module, father: u32, mother: u32, x: u32)
    requires
        m.wf(),
        m.spec_children(father, mother).contains(x),
    ensures
        (x as int) < m.spec_count(),
{
    if assoc_has(m.children_store@, (father, mother)) {
        let j = crate::assoc::assoc_idx(m.children_store@, (father, mother));
        assert(0 <= j < m.children_store@.len() && m.children_store@[j].0 == (father, mother));
        let l = m.children_store@[j].1@;
        let k = choose|k: int| 0 <= k < l.len() && l[k] == x;
        assert((m.children_store@[j].1@[k] as int) < m.spec_count());
    }
}

/// Every id listed under `w` is a stored kitty owned by `w`.
pub proof fn lemma_owned_elem(m: Module, w: u64, x: u32)
    requires
        m.wf(),
        m.spec_owned(w).contains(x),
    ensures
        (x as int) < m.spec_count(),
        m.spec_owner(x) == Some(w),
{
    if assoc_has(m.owned_store@, w) {
        let j = crate::assoc::assoc_idx(m.owned_store@, w);
        assert(0 <= j < m.owned_store@.len() && m.owned_store@[j].0 == w);
        let l = m.owned_store@[j].1@;
        let k = choose|k: int| 0 <= k < l.len() && l[k] == x;
        assert((m.owned_store@[j].1@[k] as int) < m.spec_count());
    }
}

/// Any account's list holds no duplicates.
pub proof fn lemma_owned_nodup(m: Module, w: u64)
    requires
        m.wf(),
    ensures
        m.spec_owned(w).no_duplicates(),
{
    if assoc_has(m.owned_store@, w) {
        let j = crate::assoc::assoc_idx(m.owned_store@, w);
        assert(0 <= j < m.owned_store@.len() && m.owned_store@[j].0 == w);
        assert(m.owned_store@[j].1@.no_duplicates());
    }
}

/// The ownership half of the invariant follows from the per-account facts.
pub proof fn lemma_owned_rebuild(m: Module)
    requires
        assoc_unique(m.owned_store@),
        forall|w: u64, x: u32|
            #[trigger] m.spec_owned(w).contains(x) ==> ((x as int) < m.spec_count()
                && m.spec_owner(x) == Some(w)),
        forall|w: u64| (#[trigger] m.spec_owned(w)).no_duplicates(),
    ensures
        m.owned_entries_valid(),
        m.owned_lists_nodup(),
{
    assert forall|j: int, k: int|
        0 <= j < m.owned_store@.len() && 0 <= k < m.owned_store@[j].1@.len() implies ((
    #[trigger] m.owned_store@[j].1@[k]) as int) < m.spec_count()
        && m.owner_store@[m.owned_store@[j].1@[k] as int] == m.owned_store@[j].0 by {
        let w = m.owned_store@[j].0;
        lemma_assoc_at(m.owned_store@, w, j);
        assert(m.spec_owned(w) == m.owned_store@[j].1@);
        let x = m.owned_store@[j].1@[k];
        assert(m.spec_owned(w).contains(x));
        assert(m.spec_owner(x) == Some(w));
        assert((x as int) < m.spec_count());
    }
    assert forall|j: int|
        0 <= j < m.owned_store@.len() implies (#[trigger] m.owned_store@[j]).1@.no_duplicates() by {
        let w = m.owned_store@[j].0;
        lemma_assoc_at(m.owned_store@, w, j);
        assert(m.spec_owned(w) == m.owned_store@[j].1@);
        assert(m.spec_owned(w).no_duplicates());
    }
}

/// After the two list updates and the owner update of a transfer, the whole
/// invariant holds again.
proof fn lemma_transfer_restores_wf(
    pre: Module,
    post: Module,
    sender: u64,
    to: u64,
    kitty_id: u32,
    sl: Seq<u32>,
    fl: Seq<u32>,
    base: Seq<u32>,
)
    requires
        pre.wf(),
        (kitty_id as int) < pre.spec_count(),
        pre.spec_owner(kitty_id) == Some(sender),
        sl == pre.spec_owned(sender),
        fl == remove_value(sl, kitty_id),
        base == (if to == sender {
            fl
        } else {
            pre.spec_owned(to)
        }),
        assoc_unique(post.owned_store@),
        post.spec_owned(to) == base.push(kitty_id),
        to != sender ==> post.spec_owned(sender) == fl,
        forall|w: u64| w != sender && w != to ==> post.spec_owned(w) == pre.spec_owned(w),
        post.kitties_store == pre.kitties_store,
        post.children_store == pre.children_store,
        post.brother_store == pre.brother_store,
        post.max_kitty_index == pre.max_kitty_index,
        post.owner_store@ == pre.owner_store@.update(kitty_id as int, to),
    ensures
        post.wf(),
{
    assert(post.spec_count() == pre.spec_count());
    assert forall|x: u32| true implies (fl.contains(x) <==> (sl.contains(x) && x != kitty_id)) by {
        lemma_remove_value_contains(sl, kitty_id, x);
    }
    lemma_owned_nodup(pre, sender);
    lemma_remove_value_nodup(sl, kitty_id);
    // key-level validity of every final list
    assert forall|w: u64, x: u32| #[trigger] post.spec_owned(w).contains(x) implies ((x as int)
        < post.spec_count() && post.spec_owner(x) == Some(w)) by {
        if w == to {
            lemma_push_contains(base, kitty_id, x);
            if x == kitty_id {
                assert(post.owner_store@[kitty_id as int] == to);
            } else {
                assert(base.contains(x));
                if to == sender {
                    assert(sl.contains(x));
                    lemma_owned_elem(pre, sender, x);
                } else {
                    lemma_owned_elem(pre, to, x);
                }
                assert(post.owner_store@[x as int] == pre.owner_store@[x as int]);
            }
        } else if w == sender {
            // to != sender here, since w != to
            assert(post.spec_owned(sender) == fl);
            assert(sl.contains(x) && x != kitty_id);
            lemma_owned_elem(pre, sender, x);
            assert(post.owner_store@[x as int] == pre.owner_store@[x as int]);
        } else {
            assert(post.spec_owned(w) == pre.spec_owned(w));
            lemma_owned_elem(pre, w, x);
            assert(x != kitty_id);
            assert(post.owner_store@[x as int] == pre.owner_store@[x as int]);
        }
    }
    // key-level freedom from duplicates
    assert forall|w: u64| true implies (#[trigger] post.spec_owned(w)).no_duplicates() by {
        if w == to {
            assert(!base.contains(kitty_id)) by {
                if to == sender {
                } else {
                    if base.contains(kitty_id) {
                        lemma_owned_elem(pre, to, kitty_id);
                    }
                }
            }
            assert(base.no_duplicates()) by {
                if to == sender {
                } else {
                    lemma_owned_nodup(pre, to);
                }
            }
            assert forall|a: int, b: int|
                0 <= a < b < post.spec_owned(to).len() implies post.spec_owned(to)[a]
                != post.spec_owned(to)[b] by {
                if b < base.len() {
                } else {
                    assert(post.spec_owned(to)[b] == kitty_id);
                    assert(post.spec_owned(to)[a] == base[a]);
                    assert(base.contains(base[a]));
                }
            }
        } else if w == sender {
            assert(post.spec_owned(sender) == fl);
        } else {
            assert(post.spec_owned(w) == pre.spec_owned(w));
            lemma_owned_nodup(pre, w);
        }
    }
    lemma_owned_rebuild(post);
    // completeness: every kitty still sits in its owner's list
    assert forall|idx: int|
        0 <= idx < post.spec_count() implies post.spec_owned(
        #[trigger] post.owner_store@[idx],
    ).contains(idx as u32) by {
        let w = post.owner_store@[idx];
        if idx == kitty_id as int {
            assert(w == to);
            lemma_push_contains(base, kitty_id, kitty_id);
        } else {
            assert(w == pre.owner_store@[idx]);
            assert(pre.spec_owned(pre.owner_store@[idx]).contains(idx as u32));
            if w == to {
                assert(base.contains(idx as u32)) by {
                    if to == sender {
                        assert(sl.contains(idx as u32));
                    }
                }
                lemma_push_contains(base, kitty_id, idx as u32);
            } else if w == sender {
                assert(sl.contains(idx as u32));
                assert(fl.contains(idx as u32));
            } else {
                assert(post.spec_owned(w) == pre.spec_owned(w));
            }
        }
    }
    assert forall|j: int, m2: int|
        0 <= j < post.children_store@.len() && 0 <= m2 < post.children_store@[j].1@.len()
        implies ((#[trigger] post.children_store@[j].1@[m2]) as int) < post.spec_count() by {
        assert((pre.children_store@[j].1@[m2] as int) < pre.spec_count());
    }
    assert forall|idx: int|
        0 <= idx < post.spec_count() implies (#[trigger] post.kitties_store@[idx]).kitty_id == Some(
        idx as u32,
    ) by {
        assert(pre.kitties_store@[idx].kitty_id == Some(idx as u32));
    }
}

/// Copy a list of ids.
pub fn clone_ids(v: &Vec<u32>) -> (r: Vec<u32>)
    ensures
        r@ == v@,
{
    let mut r: Vec<u32> = Vec::new();
    let mut i: usize = 0;
    while i < v.len()
        invariant
            i <= v@.len(),
            r@ == v@.subrange(0, i as int),
        decreases v@.len() - i,
    {
        r.push(v[i]);
        proof {
            assert(r@ =~= v@.subrange(0, i as int + 1));
        }
        i = i + 1;
    }
    proof {
        assert(v@.subrange(0, v@.len() as int) =~= v@);
    }
    r
}

} // verus!
