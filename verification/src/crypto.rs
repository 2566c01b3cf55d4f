//! The SHA-256 commitment scheme, computed by the Soroban host.

use soroban_sdk::{Bytes, Env};
use vstd::prelude::*;

use crate::bytes::commitment_preimage;
use crate::model::commitment_preimage_spec;

verus! {

/// The Soroban environment, which gives access to the host's cryptography.
#[verifier::external_type_specification]
#[verifier::external_body]
pub struct ExEnv(Env);

/// The SHA-256 digest of `data`, as the Soroban host computes it.
pub uninterp spec fn sha256_digest(data: Seq<u8>) -> Seq<u8>;

/// Hashes `data` with `soroban_sdk::crypto::Crypto::sha256` (the host's SHA-256).
/// Claimed: the 32-byte result is `sha256_digest` of the bytes, a function of the
/// bytes alone. Not claimed: that the call returns, since the host meters its work
/// against the environment's budget and aborts the invocation when it runs out.
#[verifier::external_body]
pub(crate) fn sha256(env: &Env, data: &[u8]) -> (digest: [u8; 32])
    ensures
        digest@ == sha256_digest(data@),
{
    env.crypto().sha256(&Bytes::from_slice(env, data)).to_array()
}

/// The commitment to `credential_id` under `blinding_factor`:
/// SHA-256 of the id's 8 little-endian bytes followed by the blinding factor.
pub fn compute_commitment(env: &Env, credential_id: u64, blinding_factor: &[u8; 32]) -> (commitment: [u8; 32])
    ensures
        commitment@ == sha256_digest(commitment_preimage_spec(credential_id, blinding_factor@)),
{
    let preimage = commitment_preimage(credential_id, blinding_factor);
    sha256(env, preimage.as_slice())
}

} // verus!
