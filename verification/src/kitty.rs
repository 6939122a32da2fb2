//! The asset record: identifier, parent pair, latest breeding partner and
//! 16 bytes of DNA data.

use vstd::prelude::*;

verus! {

broadcast use vstd::array::group_array_axioms;

/// A ledger-tracked asset. `parents_ids` is `(None, None)` for a founder and
/// both-`Some` for a bred asset; `spouse_id` holds the most recent breeding
/// partner and is overwritten on each later breeding.
#[verifier::ext_equal]
pub struct Kitty<T> {
    pub kitty_id: Option<T>,
    pub parents_ids: (Option<T>, Option<T>),
    pub spouse_id: Option<T>,
    pub dna_data: [u8; 16],
}

impl<T: Copy> Clone for Kitty<T> {
    fn clone(&self) -> (r: Self)
        ensures
            r == *self,
    {
        Kitty {
            kitty_id: self.kitty_id,
            parents_ids: self.parents_ids,
            spouse_id: self.spouse_id,
            dna_data: self.dna_data,
        }
    }
}

impl<T: Copy> Copy for Kitty<T> {}

impl<T> Kitty<T> {
    /// A blank record: no identifier, no parents, no spouse, all-zero DNA.
    pub fn new() -> (k: Self)
        ensures
            k.kitty_id is None,
            k.parents_ids.0 is None,
            k.parents_ids.1 is None,
            k.spouse_id is None,
            forall|i: int| 0 <= i < 16 ==> k.dna_data@[i] == 0u8,
    {
        Kitty { kitty_id: None, parents_ids: (None, None), spouse_id: None, dna_data: [0; 16] }
    }

    pub fn set_kitty_id(&mut self, kitty_id: T)
        ensures
            *final(self) == (Kitty { kitty_id: Some(kitty_id), ..*old(self) }),
    {
        self.kitty_id = Some(kitty_id);
    }

    pub fn set_dna_data(&mut self, dna_data: [u8; 16])
        ensures
            *final(self) == (Kitty { dna_data, ..*old(self) }),
    {
        self.dna_data = dna_data;
    }

    pub fn set_spouse_id(&mut self, kitty_id: T)
        ensures
            *final(self) == (Kitty { spouse_id: Some(kitty_id), ..*old(self) }),
    {
        self.spouse_id = Some(kitty_id);
    }

    pub fn set_parents_ids(&mut self, kitty_id1: Option<T>, kitty_id2: Option<T>)
        ensures
            *final(self) == (Kitty { parents_ids: (kitty_id1, kitty_id2), ..*old(self) }),
    {
        self.parents_ids = (kitty_id1, kitty_id2);
    }
}

} // verus!
