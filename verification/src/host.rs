//! The Soroban host environment, and the computations of the host that the
//! contracts call on plain values.

use vstd::prelude::*;
use soroban_sdk::Env;

verus! {

/// The Soroban environment (`soroban_sdk::Env`), carried opaquely into the
/// functions that hash through the host.
#[verifier::external_type_specification]
#[verifier::external_body]
pub struct ExEnv(Env);

/// The SHA-256 digest of a byte string.
pub uninterp spec fn spec_sha256(data: Seq<u8>) -> Seq<u8>;

/// SHA-256 of `data`, by `soroban_sdk::crypto::Crypto::sha256` on the host.
/// The contract claims that the digest depends on `data` alone (it is named
/// `spec_sha256`) and is 32 bytes long, as the `Hash<32>` it returns shows.
/// The host charges the hashing to the environment's budget; that running out
/// of budget aborts the call is not stated.
#[verifier::external_body]
pub(crate) fn sha256(env: &Env, data: &Vec<u8>) -> (r: Vec<u8>)
    ensures
        r@ == spec_sha256(data@),
        r@.len() == 32,
{
    env.crypto().sha256(&soroban_sdk::Bytes::from_slice(env, data.as_slice())).to_array().to_vec()
}

} // verus!
