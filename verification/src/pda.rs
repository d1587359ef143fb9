//! Derivation of the metadata address bound to a JSON record.
//!
//! The metadata address is derived from the seed tuple (the fixed prefix
//! `JSON`, this program's identity, the JSON record's address), with the
//! host's canonical bump-seed search. One seed variant is used everywhere:
//! initialization and every later validation derive the same way.

use vstd::prelude::*;

use crate::addr::{Address, PROGRAM_ID};

verus! {

/// What the host's derivation returns for a JSON record address, under the
/// fixed seed tuple: the derived metadata address and its bump seed, or
/// nothing in the statistically improbable event that no bump seed yields a
/// valid derived address.
pub uninterp spec fn derived_of(json_key: Seq<u8>) -> Option<(Seq<u8>, u8)>;

/// Relies on `Pubkey::try_find_program_address` of solana-program: a
/// deterministic function of the seeds and the program id, searching bump
/// seeds downward from 255 for the first valid (non-curve) derived address,
/// and returning `None` when no bump seed works.
#[verifier::external_body]
fn derive_metadata_key(json_key: &Address) -> (r: Option<(Address, u8)>)
    ensures
        match (r, derived_of(json_key@)) {
            (Some(p), Some(q)) => p.0@ == q.0 && p.1 == q.1,
            (None, None) => true,
            _ => false,
        },
{
    let program_id = solana_program::pubkey::Pubkey::new_from_array(PROGRAM_ID);
    let json = solana_program::pubkey::Pubkey::new_from_array(json_key.bytes);
    solana_program::pubkey::Pubkey::try_find_program_address(
        &[b"JSON", program_id.as_ref(), json.as_ref()],
        &program_id,
    ).map(|(addr, bump)| (Address { bytes: addr.to_bytes() }, bump))
}

/// The derived metadata address and bump seed for a JSON record address.
pub fn find_metadata_account(json_account: &Address) -> (r: Option<(Address, u8)>)
    ensures
        match (r, derived_of(json_account@)) {
            (Some(p), Some(q)) => p.0@ == q.0 && p.1 == q.1,
            (None, None) => true,
            _ => false,
        },
{
    derive_metadata_key(json_account)
}

/// Derivation determinism: the derived address and bump are a function of
/// the JSON record address alone, so any two derivations of one address
/// agree — in particular, the derivation checked by a handler agrees with
/// the one performed at initialization.
pub proof fn lemma_derivation_deterministic(
    json_key: Seq<u8>,
    r1: Option<(Seq<u8>, u8)>,
    r2: Option<(Seq<u8>, u8)>,
)
    requires
        r1 == derived_of(json_key),
        r2 == derived_of(json_key),
    ensures
        r1 == r2,
{
}

} // verus!
