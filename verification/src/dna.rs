//! The trait-combination algorithm: a per-bit multiplexer between two
//! parents' DNA bytes, driven by a selector byte.

use vstd::prelude::*;

verus! {

broadcast use vstd::array::group_array_axioms;

/// The child byte takes each bit from `dna1` where the selector bit is 1 and
/// from `dna2` where it is 0.
pub open spec fn combine_dna_spec(dna1: u8, dna2: u8, selector: u8) -> u8 {
    (selector & dna1) | (!selector & dna2)
}

pub fn combine_dna(dna1: u8, dna2: u8, selector: u8) -> (r: u8)
    ensures
        r == combine_dna_spec(dna1, dna2, selector),
{
    (selector & dna1) | (!selector & dna2)
}

/// Each bit of the combined byte is the corresponding bit of `dna1` where the
/// selector bit is set, and of `dna2` where it is clear.
pub proof fn lemma_combine_dna_is_mux(dna1: u8, dna2: u8, selector: u8, i: u8)
    requires
        i < 8,
    ensures
        (combine_dna_spec(dna1, dna2, selector) >> i) & 1 == (if (selector >> i) & 1 == 1 {
            (dna1 >> i) & 1
        } else {
            (dna2 >> i) & 1
        }),
{
    assert((((selector & dna1) | (!selector & dna2)) >> i) & 1 == (if (selector >> i) & 1 == 1 {
        (dna1 >> i) & 1
    } else {
        (dna2 >> i) & 1
    })) by (bit_vector)
        requires
            i < 8,
    ;
}

/// Combine two 16-byte DNA strings byte by byte under `selector`.
pub fn combine_dna_bytes(dna1: &[u8; 16], dna2: &[u8; 16], selector: &[u8; 16]) -> (r: [u8; 16])
    ensures
        forall|i: int|
            0 <= i < 16 ==> r@[i] == combine_dna_spec(dna1@[i], dna2@[i], selector@[i]),
{
    let mut r: [u8; 16] = [0; 16];
    let mut i: usize = 0;
    while i < 16
        invariant
            i <= 16,
            forall|j: int|
                0 <= j < i ==> r@[j] == combine_dna_spec(dna1@[j], dna2@[j], selector@[j]),
        decreases 16 - i,
    {
        r[i] = combine_dna(dna1[i], dna2[i], selector[i]);
        i = i + 1;
    }
    r
}

} // verus!
