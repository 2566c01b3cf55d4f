use vstd::prelude::*;

use crate::model::commitment_preimage_spec;

verus! {

/// Whether two 32-byte strings are equal.
pub fn bytes_equal(a: &[u8; 32], b: &[u8; 32]) -> (same: bool)
    ensures
        same == (a@ == b@),
{
    let mut i: usize = 0;
    while i < 32
        invariant
            i <= 32,
            a@.len() == 32,
            b@.len() == 32,
            forall|j: int| 0 <= j < i ==> a@[j] == b@[j],
        decreases 32 - i,
    {
        if a[i] != b[i] {
            return false;
        }
        i = i + 1;
    }
    assert(a@ =~= b@);
    true
}

/// The bytes whose SHA-256 digest commits to a credential: `credential_id` as 8
/// little-endian bytes, followed by the 32-byte blinding factor.
pub fn commitment_preimage(credential_id: u64, blinding_factor: &[u8; 32]) -> (preimage: Vec<u8>)
    ensures
        preimage@ == commitment_preimage_spec(credential_id, blinding_factor@),
{
    let mut preimage = vstd::bytes::u64_to_le_bytes(credential_id);
    let ghost id_bytes = preimage@;
    let mut i: usize = 0;
    while i < 32
        invariant
            i <= 32,
            blinding_factor@.len() == 32,
            preimage@ =~= id_bytes + blinding_factor@.take(i as int),
        decreases 32 - i,
    {
        preimage.push(blinding_factor[i]);
        i = i + 1;
        assert(preimage@ =~= id_bytes + blinding_factor@.take(i as int));
    }
    assert(blinding_factor@.take(32) =~= blinding_factor@);
    preimage
}

} // verus!
