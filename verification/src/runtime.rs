//! A deterministic runtime environment around the ledger: block number,
//! entropy state, balances, event log and the configured stake. Tests build
//! one with `new_test_ext` and drive the public operations through it.

use vstd::prelude::*;

use crate::balances::Balances;
use crate::ledger::Error;
use crate::ledger::Module;
use crate::ledger::alloc_step;
use crate::ledger::breed_step;
use crate::dna::combine_dna_spec;

verus! {

broadcast use vstd::array::group_array_axioms;

/// The observable side effects of successful operations.
#[derive(Clone, Copy, PartialEq, Eq, Structural, Debug)]
pub enum Event {
    /// A kitty was created or bred: `(owner, id)`.
    Created(u64, u32),
    /// A kitty changed hands: `(from, to, id)`.
    Transfered(u64, u64, u32),
}

/// A self-contained runtime: the ledger plus every collaborator it needs —
/// balances for the reservation gateway, a block number and a per-call
/// counter feeding the entropy source, and the event log.
pub struct Test {
    pub block_number: u64,
    /// Advances on every entropy draw, so sequential draws differ.
    pub extrinsic_nonce: u64,
    /// The stake reserved for each creation or breeding.
    pub new_kitty_reserve: u64,
    pub balances: Balances,
    pub kitties: Module,
    pub events: Vec<Event>,
}

/// The shift that selects byte position `i` from a 64-bit word.
pub open spec fn byte_shift(i: int) -> u64 {
    (((i as u64) % 8) * 8) as u64
}

/// One byte of the deterministic trait seed, mixed from the block number,
/// the per-call counter, the caller and the byte position.
pub open spec fn spec_random_byte(block: u64, nonce: u64, sender: u64, i: int) -> u8 {
    let sh = byte_shift(i);
    let mixed = (sender >> sh) ^ (nonce >> sh) ^ (block >> sh) ^ (i as u64);
    (mixed & 0xff) as u8
}

/// The entropy counter after one draw.
pub open spec fn next_nonce(nonce: u64) -> u64 {
    if nonce == u64::MAX {
        0
    } else {
        (nonce + 1) as u64
    }
}

impl Test {
    pub open spec fn wf(self) -> bool {
        &&& self.balances.wf()
        &&& self.kitties.wf()
    }

    /// Draw a 16-byte trait seed for `sender` and advance the entropy
    /// counter. The result is a function of the environment's entropy state
    /// and the caller alone.
    pub fn random_value(&mut self, sender: u64) -> (r: [u8; 16])
        ensures
            forall|i: int|
                0 <= i < 16 ==> r@[i] == spec_random_byte(
                    old(self).block_number,
                    old(self).extrinsic_nonce,
                    sender,
                    i,
                ),
            final(self).extrinsic_nonce == next_nonce(old(self).extrinsic_nonce),
            final(self).block_number == old(self).block_number,
            final(self).new_kitty_reserve == old(self).new_kitty_reserve,
            final(self).balances == old(self).balances,
            final(self).kitties == old(self).kitties,
            final(self).events == old(self).events,
    {
        let block = self.block_number;
        let nonce = self.extrinsic_nonce;
        let mut r: [u8; 16] = [0; 16];
        let mut i: usize = 0;
        while i < 16
            invariant
                i <= 16,
                forall|j: int| 0 <= j < i ==> r@[j] == spec_random_byte(block, nonce, sender, j),
            decreases 16 - i,
        {
            let sh: u64 = ((i % 8) * 8) as u64;
            let mixed: u64 = (sender >> sh) ^ (nonce >> sh) ^ (block >> sh) ^ (i as u64);
            proof {
                assert(mixed & 0xff <= 0xff) by (bit_vector);
            }
            r[i] = (mixed & 0xff) as u8;
            i = i + 1;
        }
        self.extrinsic_nonce = if self.extrinsic_nonce == u64::MAX {
            0
        } else {
            self.extrinsic_nonce + 1
        };
        r
    }

    /// The events deposited so far, oldest first.
    pub fn events(&self) -> (r: &Vec<Event>)
        ensures
            r@ == self.events@,
    {
        &self.events
    }

    /// Create a founder kitty for `sender`: allocate an id, draw a trait
    /// seed, reserve the stake and persist; on failure nothing but the
    /// entropy counter moves.
    pub fn create(&mut self, sender: u64) -> (r: Result<u32, Error>)
        requires
            old(self).wf(),
        ensures
            final(self).wf(),
            final(self).block_number == old(self).block_number,
            final(self).new_kitty_reserve == old(self).new_kitty_reserve,
            final(self).kitties.max_kitty_index == old(self).kitties.max_kitty_index,
            r == Err::<u32, Error>(Error::KittiesCountOverflow) <==> old(self).kitties.spec_count()
                == old(self).kitties.max_kitty_index as int,
            r == Err::<u32, Error>(Error::MoneyNotEnough) <==> (old(self).kitties.spec_count() < old(
                self,
            ).kitties.max_kitty_index as int && old(self).balances.free_of(sender) < old(
                self,
            ).new_kitty_reserve),
            r is Ok <==> (old(self).kitties.spec_count() < old(self).kitties.max_kitty_index as int
                && old(self).new_kitty_reserve <= old(self).balances.free_of(sender)),
            final(self).extrinsic_nonce == (if old(self).kitties.spec_count() == old(
                self,
            ).kitties.max_kitty_index as int {
                old(self).extrinsic_nonce
            } else {
                next_nonce(old(self).extrinsic_nonce)
            }),
            r is Err ==> final(self).kitties == old(self).kitties && final(self).balances == old(
                self,
            ).balances && final(self).events == old(self).events,
            r is Ok ==> ({
                let nid = old(self).kitties.spec_count() as u32;
                &&& r == Ok::<u32, Error>(nid)
                &&& alloc_step(old(self).kitties, final(self).kitties, nid)
                &&& final(self).kitties.spec_owner(nid) == Some(sender)
                &&& final(self).kitties.spec_owned(sender) == old(self).kitties.spec_owned(
                    sender,
                ).push(nid)
                &&& (forall|w: u64|
                    w != sender ==> final(self).kitties.spec_owned(w) == old(
                        self,
                    ).kitties.spec_owned(w))
                &&& final(self).kitties.spec_kitty(nid) is Some
                &&& final(self).kitties.spec_kitty(nid)->Some_0.kitty_id == Some(nid)
                &&& final(self).kitties.spec_kitty(nid)->Some_0.parents_ids.0 is None
                &&& final(self).kitties.spec_kitty(nid)->Some_0.parents_ids.1 is None
                &&& final(self).kitties.spec_kitty(nid)->Some_0.spouse_id is None
                &&& (forall|b: int|
                    0 <= b < 16 ==> final(self).kitties.spec_kitty(nid)->Some_0.dna_data@[b]
                        == spec_random_byte(
                        old(self).block_number,
                        old(self).extrinsic_nonce,
                        sender,
                        b,
                    ))
                &&& final(self).kitties.children_store == old(self).kitties.children_store
                &&& final(self).kitties.brother_store == old(self).kitties.brother_store
                &&& final(self).balances.free_of(sender) == old(self).balances.free_of(sender)
                    - old(self).new_kitty_reserve
                &&& final(self).balances.reserved_of(sender) == old(self).balances.reserved_of(
                    sender,
                ) + old(self).new_kitty_reserve
                &&& (forall|w: u64|
                    w != sender ==> final(self).balances.free_of(w) == old(self).balances.free_of(w)
                        && final(self).balances.reserved_of(w) == old(self).balances.reserved_of(
                        w,
                    ))
                &&& final(self).events@ == old(self).events@.push(Event::Created(sender, nid))
            }),
    {
        match self.kitties.next_kitty_id() {
            Err(e) => {
                return Err(e);
            },
            Ok(_) => {},
        }
        let dna = self.random_value(sender);
        let stake = self.new_kitty_reserve;
        let r = self.kitties.create(sender, dna, &mut self.balances, stake);
        match r {
            Ok(id) => {
                self.events.push(Event::Created(sender, id));
                Ok(id)
            },
            Err(e) => Err(e),
        }
    }

    /// Transfer a kitty from `sender` to `to`; errors propagate unchanged
    /// from the ownership index and leave the state untouched.
    pub fn transfer(&mut self, sender: u64, to: u64, kitty_id: u32) -> (r: Result<(), Error>)
        requires
            old(self).wf(),
        ensures
            final(self).wf(),
            final(self).block_number == old(self).block_number,
            final(self).extrinsic_nonce == old(self).extrinsic_nonce,
            final(self).new_kitty_reserve == old(self).new_kitty_reserve,
            final(self).balances == old(self).balances,
            final(self).kitties.max_kitty_index == old(self).kitties.max_kitty_index,
            r == Err::<(), Error>(Error::InvalidKittyId) <==> old(self).kitties.spec_owner(kitty_id)
                is None,
            r == Err::<(), Error>(Error::NotKittyOwner) <==> (old(self).kitties.spec_owner(kitty_id)
                is Some && old(self).kitties.spec_owner(kitty_id) != Some(sender)),
            r == Ok::<(), Error>(()) <==> old(self).kitties.spec_owner(kitty_id) == Some(sender),
            r is Err ==> *final(self) == *old(self),
            r is Ok ==> ({
                &&& final(self).kitties.spec_owner(kitty_id) == Some(to)
                &&& (forall|x: u32|
                    x != kitty_id ==> final(self).kitties.spec_owner(x) == old(
                        self,
                    ).kitties.spec_owner(x))
                &&& final(self).kitties.spec_owned(to) == (if to == sender {
                    crate::seqs::remove_value(old(self).kitties.spec_owned(sender), kitty_id)
                } else {
                    old(self).kitties.spec_owned(to)
                }).push(kitty_id)
                &&& to != sender ==> final(self).kitties.spec_owned(sender)
                    == crate::seqs::remove_value(old(self).kitties.spec_owned(sender), kitty_id)
                &&& (forall|w: u64|
                    w != sender && w != to ==> final(self).kitties.spec_owned(w) == old(
                        self,
                    ).kitties.spec_owned(w))
                &&& final(self).kitties.kitties_store == old(self).kitties.kitties_store
                &&& final(self).kitties.children_store == old(self).kitties.children_store
                &&& final(self).kitties.brother_store == old(self).kitties.brother_store
                &&& final(self).events@ == old(self).events@.push(
                    Event::Transfered(sender, to, kitty_id),
                )
            }),
    {
        let r = self.kitties.transfer(sender, to, kitty_id);
        match r {
            Ok(_) => {
                self.events.push(Event::Transfered(sender, to, kitty_id));
                Ok(())
            },
            Err(e) => Err(e),
        }
    }

    /// Breed a child from two distinct existing kitties owned by anyone,
    /// paying `sender`'s stake. Entropy is drawn only once the parents and
    /// the new id have been validated, so a rejected request leaves even the
    /// entropy counter untouched.
    pub fn breed(&mut self, sender: u64, kitty_id_1: u32, kitty_id_2: u32) -> (r: Result<
        u32,
        Error,
    >)
        requires
            old(self).wf(),
        ensures
            final(self).wf(),
            final(self).block_number == old(self).block_number,
            final(self).new_kitty_reserve == old(self).new_kitty_reserve,
            final(self).extrinsic_nonce == (if old(self).kitties.spec_kitty(kitty_id_1) is Some
                && old(self).kitties.spec_kitty(kitty_id_2) is Some && kitty_id_1 != kitty_id_2
                && old(self).kitties.spec_count() < old(self).kitties.max_kitty_index as int {
                next_nonce(old(self).extrinsic_nonce)
            } else {
                old(self).extrinsic_nonce
            }),
            final(self).kitties.max_kitty_index == old(self).kitties.max_kitty_index,
            r == Err::<u32, Error>(Error::InvalidKittyId) <==> (old(self).kitties.spec_kitty(
                kitty_id_1,
            ) is None || old(self).kitties.spec_kitty(kitty_id_2) is None),
            r == Err::<u32, Error>(Error::RequireDifferentParent) <==> (old(self).kitties.spec_kitty(
                kitty_id_1,
            ) is Some && old(self).kitties.spec_kitty(kitty_id_2) is Some && kitty_id_1
                == kitty_id_2),
            r == Err::<u32, Error>(Error::KittiesCountOverflow) <==> (old(self).kitties.spec_kitty(
                kitty_id_1,
            ) is Some && old(self).kitties.spec_kitty(kitty_id_2) is Some && kitty_id_1
                != kitty_id_2 && old(self).kitties.spec_count() == old(
                self,
            ).kitties.max_kitty_index as int),
            r == Err::<u32, Error>(Error::MoneyNotEnough) <==> (old(self).kitties.spec_kitty(
                kitty_id_1,
            ) is Some && old(self).kitties.spec_kitty(kitty_id_2) is Some && kitty_id_1
                != kitty_id_2 && old(self).kitties.spec_count() < old(
                self,
            ).kitties.max_kitty_index as int && old(self).balances.free_of(sender) < old(
                self,
            ).new_kitty_reserve),
            r is Ok <==> (old(self).kitties.spec_kitty(kitty_id_1) is Some && old(
                self,
            ).kitties.spec_kitty(kitty_id_2) is Some && kitty_id_1 != kitty_id_2 && old(
                self,
            ).kitties.spec_count() < old(self).kitties.max_kitty_index as int && old(
                self,
            ).new_kitty_reserve <= old(self).balances.free_of(sender)),
            r is Err ==> final(self).kitties == old(self).kitties && final(self).balances == old(
                self,
            ).balances && final(self).events == old(self).events,
            r is Ok ==> ({
                let nid = old(self).kitties.spec_count() as u32;
                &&& r == Ok::<u32, Error>(nid)
                &&& alloc_step(old(self).kitties, final(self).kitties, nid)
                &&& breed_step(old(self).kitties, final(self).kitties, kitty_id_1, kitty_id_2, nid)
                &&& final(self).kitties.spec_kitty(nid) is Some
                &&& final(self).kitties.spec_kitty(nid)->Some_0.kitty_id == Some(nid)
                &&& final(self).kitties.spec_kitty(nid)->Some_0.parents_ids == (
                    Some(kitty_id_1),
                    Some(kitty_id_2),
                )
                &&& final(self).kitties.spec_kitty(nid)->Some_0.spouse_id is None
                &&& (forall|b: int|
                    0 <= b < 16 ==> final(self).kitties.spec_kitty(nid)->Some_0.dna_data@[b]
                        == combine_dna_spec(
                        old(self).kitties.spec_kitty(kitty_id_1)->Some_0.dna_data@[b],
                        old(self).kitties.spec_kitty(kitty_id_2)->Some_0.dna_data@[b],
                        spec_random_byte(
                            old(self).block_number,
                            old(self).extrinsic_nonce,
                            sender,
                            b,
                        ),
                    ))
                &&& final(self).kitties.spec_kitty(kitty_id_1)->Some_0.spouse_id == Some(kitty_id_2)
                &&& final(self).kitties.spec_kitty(kitty_id_2)->Some_0.spouse_id == Some(kitty_id_1)
                &&& (forall|x: u32|
                    (x as int) < old(self).kitties.spec_count() && x != kitty_id_1 && x
                        != kitty_id_2 ==> final(self).kitties.spec_kitty(x) == old(
                        self,
                    ).kitties.spec_kitty(x))
                &&& final(self).kitties.spec_owner(nid) == Some(sender)
                &&& (forall|x: u32|
                    x != nid ==> final(self).kitties.spec_owner(x) == old(self).kitties.spec_owner(
                        x,
                    ))
                &&& final(self).kitties.spec_owned(sender) == old(self).kitties.spec_owned(
                    sender,
                ).push(nid)
                &&& (forall|w: u64|
                    w != sender ==> final(self).kitties.spec_owned(w) == old(
                        self,
                    ).kitties.spec_owned(w))
                &&& final(self).balances.free_of(sender) == old(self).balances.free_of(sender)
                    - old(self).new_kitty_reserve
                &&& final(self).balances.reserved_of(sender) == old(self).balances.reserved_of(
                    sender,
                ) + old(self).new_kitty_reserve
                &&& (forall|w: u64|
                    w != sender ==> final(self).balances.free_of(w) == old(self).balances.free_of(w)
                        && final(self).balances.reserved_of(w) == old(self).balances.reserved_of(
                        w,
                    ))
                &&& final(self).events@ == old(self).events@.push(Event::Created(sender, nid))
            }),
    {
        if self.kitties.kitties(kitty_id_1).is_none() {
            return Err(Error::InvalidKittyId);
        }
        if self.kitties.kitties(kitty_id_2).is_none() {
            return Err(Error::InvalidKittyId);
        }
        if kitty_id_1 == kitty_id_2 {
            return Err(Error::RequireDifferentParent);
        }
        match self.kitties.next_kitty_id() {
            Err(e) => {
                return Err(e);
            },
            Ok(_) => {},
        }
        let selector = self.random_value(sender);
        let stake = self.new_kitty_reserve;
        let r = self.kitties.do_breed(
            sender,
            kitty_id_1,
            kitty_id_2,
            &selector,
            &mut self.balances,
            stake,
        );
        match r {
            Ok(id) => {
                self.events.push(Event::Created(sender, id));
                Ok(id)
            },
            Err(e) => Err(e),
        }
    }
}

/// Advance the environment to block `n`, one block at a time; past blocks
/// are never revisited. Nothing but the block number changes.
pub fn run_to_block(t: &mut Test, n: u64)
    ensures
        final(t).block_number == (if old(t).block_number < n {
            n
        } else {
            old(t).block_number
        }),
        final(t).extrinsic_nonce == old(t).extrinsic_nonce,
        final(t).new_kitty_reserve == old(t).new_kitty_reserve,
        final(t).balances == old(t).balances,
        final(t).kitties == old(t).kitties,
        final(t).events == old(t).events,
{
    while t.block_number < n
        invariant
            t.block_number <= n || t.block_number == old(t).block_number,
            old(t).block_number <= t.block_number,
            t.extrinsic_nonce == old(t).extrinsic_nonce,
            t.new_kitty_reserve == old(t).new_kitty_reserve,
            t.balances == old(t).balances,
            t.kitties == old(t).kitties,
            t.events == old(t).events,
        decreases n - t.block_number,
    {
        t.block_number = t.block_number + 1;
    }
}

/// A fresh environment: the genesis balances, an empty ledger with the full
/// id space, the stake configured, and the chain at block 1.
pub fn new_test_ext() -> (t: Test)
    ensures
        t.wf(),
        t.block_number == 1,
        t.extrinsic_nonce == 0,
        t.new_kitty_reserve == 5000,
        t.kitties.spec_count() == 0,
        t.kitties.max_kitty_index == u32::MAX,
        t.events@ == Seq::<Event>::empty(),
        t.balances.free_of(1) == 5000000,
        t.balances.free_of(2) == 51000000,
        t.balances.free_of(3) == 5200000,
        t.balances.free_of(4) == 53000000,
        t.balances.free_of(5) == 54000000,
        t.balances.free_of(6) == 50,
        forall|w: u64| !(1 <= w <= 6) ==> t.balances.free_of(w) == 0,
        forall|w: u64| t.balances.reserved_of(w) == 0,
        forall|w: u64| t.kitties.spec_owned(w) == Seq::<u32>::empty(),
        forall|a: u32, b: u32| t.kitties.spec_children(a, b) == Seq::<u32>::empty(),
        forall|id: u32| t.kitties.spec_brother(id) == Seq::<u32>::empty(),
{
    let mut balances = Balances::new();
    balances.endow(1, 5000000);
    balances.endow(2, 51000000);
    balances.endow(3, 5200000);
    balances.endow(4, 53000000);
    balances.endow(5, 54000000);
    balances.endow(6, 50);
    let t = Test {
        block_number: 1,
        extrinsic_nonce: 0,
        new_kitty_reserve: 5000,
        balances,
        kitties: Module::new(u32::MAX),
        events: Vec::new(),
    };
    t
}

} // verus!
