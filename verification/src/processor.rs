//! The instruction processor: decodes a tagged operation, enforces the
//! shared precondition chain — ownership, derivation, signer, authorization,
//! system program — and applies the operation's effect. Every failure is
//! detected before any mutation, so a failed operation leaves every account
//! exactly as it was.

use vstd::prelude::*;

use crate::accounts::{close_and_reclaim, overwrite_data, resize_record, Account};
use crate::addr::{addr_eq, Address, PROGRAM_ID, SYSTEM_PROGRAM_ID};
use crate::codec::{json_to_bytes, parse_json, ser_v, spec_parse};
use crate::error::{OnchainMetadataError, ProgramFailure};
use crate::instruction::{
    decode_instruction, instr_dec, InstructionV, OnchainMetadataInstructions, SetValueArgs,
};
use crate::json::{merge_v, merge_values, Json, JsonV};
use crate::pda::{derived_of, find_metadata_account};
use crate::state::{
    deserialize_metadata, meta_dec, meta_enc, serialize_metadata, JsonMetadata, JsonMetadataV,
};

verus! {

/// The shape of an account.
#[verifier::ext_equal]
pub struct AccountV {
    pub key: Seq<u8>,
    pub owner: Seq<u8>,
    pub data: Seq<u8>,
    pub is_signer: bool,
}

impl View for Account {
    type V = AccountV;

    open spec fn view(&self) -> AccountV {
        AccountV { key: self.key@, owner: self.owner@, data: self.data@, is_signer: self.is_signer }
    }
}

/// The shapes of a list of accounts.
pub open spec fn avs(s: Seq<Account>) -> Seq<AccountV> {
    Seq::new(s.len(), |i: int| s[i]@)
}

pub open spec fn is_live_v(a: AccountV) -> bool {
    a.owner == PROGRAM_ID@ && a.data.len() > 0
}

pub open spec fn is_fresh_v(a: AccountV) -> bool {
    a.owner == SYSTEM_PROGRAM_ID@ && a.data.len() == 0
}

/// The derivation check of the precondition chain: the supplied metadata
/// address and the stored bump must both match the re-derivation from the
/// JSON record's address.
pub open spec fn derivation_ok(json_key: Seq<u8>, meta_key: Seq<u8>, bump: u8) -> bool {
    match derived_of(json_key) {
        Some(d) => d.0 == meta_key && d.1 == bump,
        None => false,
    }
}

/// The shared precondition chain of every handler that addresses the full
/// record pair, in its checking order; the first violated check's failure.
pub open spec fn guard_err(
    json: AccountV,
    meta: AccountV,
    payer: AccountV,
    system: AccountV,
) -> Option<ProgramFailure> {
    if !is_live_v(json) {
        Some(ProgramFailure::Custom(OnchainMetadataError::NotInitialized))
    } else if !is_live_v(meta) {
        Some(ProgramFailure::Custom(OnchainMetadataError::NotInitialized))
    } else if meta_dec(meta.data) is None {
        Some(ProgramFailure::Custom(OnchainMetadataError::BorshSerializeError))
    } else if !derivation_ok(json.key, meta.key, meta_dec(meta.data).unwrap().bump) {
        Some(ProgramFailure::Custom(OnchainMetadataError::MetadataDerivedKeyInvalid))
    } else if !payer.is_signer {
        Some(ProgramFailure::MissingRequiredSignature)
    } else if !meta_dec(meta.data).unwrap().authorities.contains(payer.key) {
        Some(ProgramFailure::Custom(OnchainMetadataError::InvalidAuthority))
    } else if system.key != SYSTEM_PROGRAM_ID@ {
        Some(ProgramFailure::Custom(OnchainMetadataError::InvalidSystemProgram))
    } else {
        None
    }
}

/// The reduced precondition chain of the authority operations, which are
/// handed only the metadata record.
pub open spec fn auth_guard_err(
    meta: AccountV,
    payer: AccountV,
    system: AccountV,
) -> Option<ProgramFailure> {
    if !is_live_v(meta) {
        Some(ProgramFailure::Custom(OnchainMetadataError::NotInitialized))
    } else if meta_dec(meta.data) is None {
        Some(ProgramFailure::Custom(OnchainMetadataError::BorshSerializeError))
    } else if !payer.is_signer {
        Some(ProgramFailure::MissingRequiredSignature)
    } else if !meta_dec(meta.data).unwrap().authorities.contains(payer.key) {
        Some(ProgramFailure::Custom(OnchainMetadataError::InvalidAuthority))
    } else if system.key != SYSTEM_PROGRAM_ID@ {
        Some(ProgramFailure::Custom(OnchainMetadataError::InvalidSystemProgram))
    } else {
        None
    }
}

/// Initialize's precondition chain: both records fresh, the metadata
/// address derivable from the JSON record's, the payer a signer, the system
/// account the system program.
pub open spec fn init_err(
    json: AccountV,
    meta: AccountV,
    payer: AccountV,
    system: AccountV,
) -> Option<ProgramFailure> {
    if !is_fresh_v(json) {
        Some(ProgramFailure::Custom(OnchainMetadataError::AlreadyInitialized))
    } else if !is_fresh_v(meta) {
        Some(ProgramFailure::Custom(OnchainMetadataError::AlreadyInitialized))
    } else if derived_of(json.key) is None || derived_of(json.key).unwrap().0 != meta.key {
        Some(ProgramFailure::Custom(OnchainMetadataError::MetadataDerivedKeyInvalid))
    } else if !payer.is_signer {
        Some(ProgramFailure::MissingRequiredSignature)
    } else if system.key != SYSTEM_PROGRAM_ID@ {
        Some(ProgramFailure::Custom(OnchainMetadataError::InvalidSystemProgram))
    } else {
        None
    }
}

/// The value-setting chain: the full guard, then the payload must parse.
pub open spec fn set_value_err(
    json: AccountV,
    meta: AccountV,
    payer: AccountV,
    system: AccountV,
    value_bytes: Seq<u8>,
) -> Option<ProgramFailure> {
    match guard_err(json, meta, payer, system) {
        Some(e) => Some(e),
        None => if spec_parse(value_bytes) is None {
            Some(ProgramFailure::Custom(OnchainMetadataError::InvalidJson))
        } else {
            None
        },
    }
}

/// AddAuthority's chain: the reduced guard, then the grown list must still
/// fit its four-byte count field.
pub open spec fn add_authority_err(
    meta: AccountV,
    payer: AccountV,
    system: AccountV,
) -> Option<ProgramFailure> {
    match auth_guard_err(meta, payer, system) {
        Some(e) => Some(e),
        None => if meta_dec(meta.data).unwrap().authorities.len() + 1 >= 4294967296 {
            Some(ProgramFailure::Custom(OnchainMetadataError::BorshSerializeError))
        } else {
            None
        },
    }
}

/// The stored document, or `Null` where the buffer holds no parseable JSON.
pub open spec fn stored_or_null(d: Seq<u8>) -> JsonV {
    match spec_parse(d) {
        Some(v) => v,
        None => JsonV::Null,
    }
}

/// The JSON record's shape after a value-setting operation.
pub open spec fn set_value_effect(json: AccountV, value_bytes: Seq<u8>) -> AccountV {
    AccountV {
        data: ser_v(merge_v(stored_or_null(json.data), spec_parse(value_bytes).unwrap())),
        ..json
    }
}

/// The metadata record's shape right after initialization.
pub open spec fn init_meta_v(payer_key: Seq<u8>, bump: u8) -> JsonMetadataV {
    JsonMetadataV { bump, mutable: true, authorities: seq![payer_key] }
}

/// All occurrences of `a` removed from `ks[i..]`, order kept.
pub open spec fn remove_all(ks: Seq<Seq<u8>>, a: Seq<u8>, i: int) -> Seq<Seq<u8>>
    decreases ks.len() - i,
{
    if i < 0 || i >= ks.len() {
        Seq::empty()
    } else if ks[i] == a {
        remove_all(ks, a, i + 1)
    } else {
        seq![ks[i]] + remove_all(ks, a, i + 1)
    }
}

/// The metadata record's shape after AddAuthority.
pub open spec fn add_authority_effect(meta: AccountV, new_authority: Seq<u8>) -> AccountV {
    let m = meta_dec(meta.data).unwrap();
    AccountV {
        data: meta_enc(
            JsonMetadataV {
                bump: m.bump,
                mutable: m.mutable,
                authorities: m.authorities.push(new_authority),
            },
        ),
        ..meta
    }
}

/// The metadata record's shape after RemoveAuthority.
pub open spec fn remove_authority_effect(meta: AccountV, authority: Seq<u8>) -> AccountV {
    let m = meta_dec(meta.data).unwrap();
    AccountV {
        data: meta_enc(
            JsonMetadataV {
                bump: m.bump,
                mutable: m.mutable,
                authorities: remove_all(m.authorities, authority, 0),
            },
        ),
        ..meta
    }
}

/// The account is owned by this program and holds data.
fn check_live(a: &Account) -> (r: bool)
    ensures
        r == is_live_v(a@),
{
    let pid = Address::program_id();
    addr_eq(&a.owner, &pid) && a.data.len() > 0
}

/// The account is unowned and empty.
fn check_fresh(a: &Account) -> (r: bool)
    ensures
        r == is_fresh_v(a@),
{
    let sys = Address::system_program_id();
    addr_eq(&a.owner, &sys) && a.data.len() == 0
}

/// `k` appears among the record's authorities.
#[verifier::loop_isolation(false)]
fn authorities_contain(m: &JsonMetadata, k: &Address) -> (r: bool)
    ensures
        r == m@.authorities.contains(k@),
{
    let mut i: usize = 0;
    while i < m.authorities.len()
        invariant
            0 <= i <= m.authorities@.len(),
            forall|j: int| 0 <= j < i ==> m@.authorities[j] != k@,
        decreases m.authorities@.len() - i,
    {
        if addr_eq(&m.authorities[i], k) {
            proof {
                assert(m@.authorities[i as int] == k@);
            }
            return true;
        }
        i += 1;
    }
    proof {
        assert(!m@.authorities.contains(k@));
    }
    false
}

/// Runs the full precondition chain on a record pair; gives the decoded
/// metadata record on success, the first violated check's failure otherwise.
fn run_guard(json: &Account, meta: &Account, payer: &Account, system: &Account) -> (r: Result<
    JsonMetadata,
    ProgramFailure,
>)
    ensures
        match r {
            Ok(m) => guard_err(json@, meta@, payer@, system@) is None && meta_dec(meta@.data)
                == Some(m@) && m.authorities@.len() < 4294967296,
            Err(e) => guard_err(json@, meta@, payer@, system@) == Some(e),
        },
{
    if !check_live(json) {
        return Err(ProgramFailure::Custom(OnchainMetadataError::NotInitialized));
    }
    if !check_live(meta) {
        return Err(ProgramFailure::Custom(OnchainMetadataError::NotInitialized));
    }
    let m = match deserialize_metadata(&meta.data) {
        Some(m) => m,
        None => {
            return Err(ProgramFailure::Custom(OnchainMetadataError::BorshSerializeError));
        },
    };
    let derived = match find_metadata_account(&json.key) {
        Some(d) => d,
        None => {
            return Err(
                ProgramFailure::Custom(OnchainMetadataError::MetadataDerivedKeyInvalid),
            );
        },
    };
    if !addr_eq(&derived.0, &meta.key) || derived.1 != m.bump {
        return Err(ProgramFailure::Custom(OnchainMetadataError::MetadataDerivedKeyInvalid));
    }
    if !payer.is_signer {
        return Err(ProgramFailure::MissingRequiredSignature);
    }
    if !authorities_contain(&m, &payer.key) {
        return Err(ProgramFailure::Custom(OnchainMetadataError::InvalidAuthority));
    }
    let sys = Address::system_program_id();
    if !addr_eq(&system.key, &sys) {
        return Err(ProgramFailure::Custom(OnchainMetadataError::InvalidSystemProgram));
    }
    Ok(m)
}

/// Runs the reduced precondition chain of the authority operations.
fn run_auth_guard(meta: &Account, payer: &Account, system: &Account) -> (r: Result<
    JsonMetadata,
    ProgramFailure,
>)
    ensures
        match r {
            Ok(m) => auth_guard_err(meta@, payer@, system@) is None && meta_dec(meta@.data)
                == Some(m@) && m.authorities@.len() < 4294967296,
            Err(e) => auth_guard_err(meta@, payer@, system@) == Some(e),
        },
{
    if !check_live(meta) {
        return Err(ProgramFailure::Custom(OnchainMetadataError::NotInitialized));
    }
    let m = match deserialize_metadata(&meta.data) {
        Some(m) => m,
        None => {
            return Err(ProgramFailure::Custom(OnchainMetadataError::BorshSerializeError));
        },
    };
    if !payer.is_signer {
        return Err(ProgramFailure::MissingRequiredSignature);
    }
    if !authorities_contain(&m, &payer.key) {
        return Err(ProgramFailure::Custom(OnchainMetadataError::InvalidAuthority));
    }
    let sys = Address::system_program_id();
    if !addr_eq(&system.key, &sys) {
        return Err(ProgramFailure::Custom(OnchainMetadataError::InvalidSystemProgram));
    }
    Ok(m)
}

/// Creates the record pair: the JSON record holding a serialized JSON null,
/// the metadata record holding `{bump, mutable: true, authorities: [payer]}`
/// at the derived address.
pub fn process_initialize(
    json: &mut Account,
    meta: &mut Account,
    payer: &Account,
    system: &Account,
) -> (r: Result<(), ProgramFailure>)
    ensures
        match init_err(old(json)@, old(meta)@, payer@, system@) {
            Some(e) => r == Result::<(), ProgramFailure>::Err(e) && final(json)@ == old(json)@ && final(meta)@ == old(
                meta,
            )@,
            None => {
                &&& r is Ok
                &&& final(json)@ == (AccountV {
                    owner: PROGRAM_ID@,
                    data: ser_v(JsonV::Null),
                    ..old(json)@
                })
                &&& final(meta)@ == (AccountV {
                    owner: PROGRAM_ID@,
                    data: meta_enc(
                        init_meta_v(payer@.key, derived_of(old(json)@.key).unwrap().1),
                    ),
                    ..old(meta)@
                })
            },
        },
{
    if !check_fresh(json) {
        return Err(ProgramFailure::Custom(OnchainMetadataError::AlreadyInitialized));
    }
    if !check_fresh(meta) {
        return Err(ProgramFailure::Custom(OnchainMetadataError::AlreadyInitialized));
    }
    let derived = match find_metadata_account(&json.key) {
        Some(d) => d,
        None => {
            return Err(
                ProgramFailure::Custom(OnchainMetadataError::MetadataDerivedKeyInvalid),
            );
        },
    };
    if !addr_eq(&derived.0, &meta.key) {
        return Err(ProgramFailure::Custom(OnchainMetadataError::MetadataDerivedKeyInvalid));
    }
    if !payer.is_signer {
        return Err(ProgramFailure::MissingRequiredSignature);
    }
    let sys = Address::system_program_id();
    if !addr_eq(&system.key, &sys) {
        return Err(ProgramFailure::Custom(OnchainMetadataError::InvalidSystemProgram));
    }
    let null_doc = json_to_bytes(&Json::Null);
    crate::accounts::create_funded(json, null_doc.len());
    overwrite_data(json, &null_doc);
    let record = JsonMetadata { bump: derived.1, mutable: true, authorities: vec![payer.key] };
    let serialized = serialize_metadata(&record);
    proof {
        assert(record@.authorities =~~= seq![payer@.key]);
        assert(record@ =~~= init_meta_v(payer@.key, derived_of(old(json)@.key).unwrap().1));
    }
    crate::accounts::create_funded(meta, serialized.len());
    overwrite_data(meta, &serialized);
    Ok(())
}

/// Closes both records, reclaiming their backing funds to the payer; both
/// addresses become empty and unowned.
pub fn process_close(
    json: &mut Account,
    meta: &mut Account,
    payer: &Account,
    system: &Account,
) -> (r: Result<(), ProgramFailure>)
    ensures
        match guard_err(old(json)@, old(meta)@, payer@, system@) {
            Some(e) => r == Result::<(), ProgramFailure>::Err(e) && final(json)@ == old(json)@ && final(meta)@ == old(
                meta,
            )@,
            None => {
                &&& r is Ok
                &&& final(json)@ == (AccountV {
                    owner: SYSTEM_PROGRAM_ID@,
                    data: Seq::empty(),
                    ..old(json)@
                })
                &&& final(meta)@ == (AccountV {
                    owner: SYSTEM_PROGRAM_ID@,
                    data: Seq::empty(),
                    ..old(meta)@
                })
                &&& is_fresh_v(final(json)@) && is_fresh_v(final(meta)@)
            },
        },
{
    let _m = match run_guard(json, meta, payer, system) {
        Ok(m) => m,
        Err(e) => {
            return Err(e);
        },
    };
    close_and_reclaim(json);
    close_and_reclaim(meta);
    proof {
        assert(final(json)@.data =~= Seq::<u8>::empty());
        assert(final(meta)@.data =~= Seq::<u8>::empty());
    }
    Ok(())
}

/// Applies a merge patch to the stored document: the stored bytes are read
/// as JSON (null where unreadable), the payload must parse as JSON, the two
/// are merged, and the record is resized to the exact new serialization.
pub fn process_set_value(
    json: &mut Account,
    meta: &mut Account,
    payer: &Account,
    system: &Account,
    args: &SetValueArgs,
) -> (r: Result<(), ProgramFailure>)
    ensures
        ({
            let vb = vstd::utf8::encode_utf8(args.value@);
            match set_value_err(old(json)@, old(meta)@, payer@, system@, vb) {
                Some(e) => r == Result::<(), ProgramFailure>::Err(e) && final(json)@ == old(json)@
                    && final(meta)@ == old(meta)@,
                None => r is Ok && final(meta)@ == old(meta)@ && final(json)@
                    == set_value_effect(old(json)@, vb),
            }
        }),
{
    let _m = match run_guard(json, meta, payer, system) {
        Ok(m) => m,
        Err(e) => {
            return Err(e);
        },
    };
    let vb = args.value.as_str().as_bytes_vec();
    let patch = match parse_json(&vb) {
        Some(p) => p,
        None => {
            return Err(ProgramFailure::Custom(OnchainMetadataError::InvalidJson));
        },
    };
    let stored = match parse_json(&json.data) {
        Some(v) => v,
        None => Json::Null,
    };
    let merged = merge_values(stored, &patch);
    let serialized = json_to_bytes(&merged);
    resize_record(json, serialized.len());
    overwrite_data(json, &serialized);
    Ok(())
}

/// Appends a new authority to the metadata record's list (duplicates are
/// kept), resizing the record to its exact new serialization.
pub fn process_add_authority(
    meta: &mut Account,
    payer: &Account,
    system: &Account,
    new_authority: &Address,
) -> (r: Result<(), ProgramFailure>)
    ensures
        match add_authority_err(old(meta)@, payer@, system@) {
            Some(e) => r == Result::<(), ProgramFailure>::Err(e) && final(meta)@ == old(meta)@,
            None => r is Ok && final(meta)@ == add_authority_effect(old(meta)@, new_authority@),
        },
{
    let mut m = match run_auth_guard(meta, payer, system) {
        Ok(m) => m,
        Err(e) => {
            return Err(e);
        },
    };
    if m.authorities.len() >= 4294967295 {
        return Err(ProgramFailure::Custom(OnchainMetadataError::BorshSerializeError));
    }
    let ghost m0 = m@;
    m.authorities.push(*new_authority);
    proof {
        assert(m@.authorities =~~= m0.authorities.push(new_authority@));
        assert(m@ =~~= (JsonMetadataV { authorities: m0.authorities.push(new_authority@), ..m0
        }));
    }
    let serialized = serialize_metadata(&m);
    resize_record(meta, serialized.len());
    overwrite_data(meta, &serialized);
    Ok(())
}

/// Removes every occurrence of an authority from the metadata record's
/// list, resizing the record to its exact new serialization. Removing the
/// last authority leaves the record permanently unmodifiable.
pub fn process_remove_authority(
    meta: &mut Account,
    payer: &Account,
    system: &Account,
    authority: &Address,
) -> (r: Result<(), ProgramFailure>)
    ensures
        match auth_guard_err(old(meta)@, payer@, system@) {
            Some(e) => r == Result::<(), ProgramFailure>::Err(e) && final(meta)@ == old(meta)@,
            None => r is Ok && final(meta)@ == remove_authority_effect(old(meta)@, authority@),
        },
{
    let m = match run_auth_guard(meta, payer, system) {
        Ok(m) => m,
        Err(e) => {
            return Err(e);
        },
    };
    let ghost m0 = m@;
    let mut kept: Vec<Address> = Vec::new();
    let mut i: usize = 0;
    while i < m.authorities.len()
        invariant
            0 <= i <= m.authorities@.len(),
            m0 == m@,
            Seq::new(kept@.len(), |j: int| kept@[j]@) + remove_all(
                m0.authorities,
                authority@,
                i as int,
            ) == remove_all(m0.authorities, authority@, 0),
            kept@.len() <= i,
        decreases m.authorities@.len() - i,
    {
        let ghost kept_pre = Seq::new(kept@.len(), |j: int| kept@[j]@);
        if !addr_eq(&m.authorities[i], authority) {
            kept.push(m.authorities[i]);
            proof {
                assert(Seq::new(kept@.len(), |j: int| kept@[j]@) =~= kept_pre + seq![
                    m0.authorities[i as int],
                ]);
                assert(kept_pre + (seq![m0.authorities[i as int]] + remove_all(
                    m0.authorities,
                    authority@,
                    i + 1,
                )) =~= (kept_pre + seq![m0.authorities[i as int]]) + remove_all(
                    m0.authorities,
                    authority@,
                    i + 1,
                ));
            }
        }
        i += 1;
    }
    let updated = JsonMetadata { bump: m.bump, mutable: m.mutable, authorities: kept };
    proof {
        assert(remove_all(m0.authorities, authority@, m0.authorities.len() as int)
            =~= Seq::<Seq<u8>>::empty());
        assert(updated@.authorities =~= remove_all(m0.authorities, authority@, 0)) by {
            assert(Seq::new(updated.authorities@.len(), |j: int| updated.authorities@[j]@)
                + Seq::<Seq<u8>>::empty() =~= Seq::new(
                updated.authorities@.len(),
                |j: int| updated.authorities@[j]@,
            ));
        }
        assert(remove_all(m0.authorities, authority@, 0).len() <= m0.authorities.len()) by {
            lemma_remove_all_len(m0.authorities, authority@, 0);
        }
        assert(updated@ =~~= (JsonMetadataV {
            authorities: remove_all(m0.authorities, authority@, 0),
            ..m0
        }));
    }
    let serialized = serialize_metadata(&updated);
    resize_record(meta, serialized.len());
    overwrite_data(meta, &serialized);
    Ok(())
}

/// Removal never grows the list.
pub proof fn lemma_remove_all_len(ks: Seq<Seq<u8>>, a: Seq<u8>, i: int)
    ensures
        remove_all(ks, a, i).len() <= ks.len() - i || remove_all(ks, a, i).len() == 0,
    decreases ks.len() - i,
{
    if 0 <= i < ks.len() {
        lemma_remove_all_len(ks, a, i + 1);
    }
}


/// The whole processor as one transition: the account shapes and result of
/// dispatching one encoded operation on an account list.
pub open spec fn step_v(a: Seq<AccountV>, d: Seq<u8>) -> (Seq<AccountV>, Result<
    (),
    ProgramFailure,
>) {
    match instr_dec(d) {
        None => (a, Err(ProgramFailure::BorshIoError)),
        Some(InstructionV::Initialize) => if a.len() < 4 {
            (a, Err(ProgramFailure::NotEnoughAccountKeys))
        } else {
            match init_err(a[0], a[1], a[2], a[3]) {
                Some(e) => (a, Err(e)),
                None => (
                    a.update(
                        0,
                        AccountV { owner: PROGRAM_ID@, data: ser_v(JsonV::Null), ..a[0] },
                    ).update(
                        1,
                        AccountV {
                            owner: PROGRAM_ID@,
                            data: meta_enc(
                                init_meta_v(a[2].key, derived_of(a[0].key).unwrap().1),
                            ),
                            ..a[1]
                        },
                    ),
                    Ok(()),
                ),
            }
        },
        Some(InstructionV::Close) => if a.len() < 4 {
            (a, Err(ProgramFailure::NotEnoughAccountKeys))
        } else {
            match guard_err(a[0], a[1], a[2], a[3]) {
                Some(e) => (a, Err(e)),
                None => (
                    a.update(
                        0,
                        AccountV { owner: SYSTEM_PROGRAM_ID@, data: Seq::empty(), ..a[0] },
                    ).update(
                        1,
                        AccountV { owner: SYSTEM_PROGRAM_ID@, data: Seq::empty(), ..a[1] },
                    ),
                    Ok(()),
                ),
            }
        },
        Some(InstructionV::SetValue(b)) => step_set_value(a, b),
        Some(InstructionV::AppendValue(b)) => step_set_value(a, b),
        Some(InstructionV::AddAuthority(k)) => if a.len() < 3 {
            (a, Err(ProgramFailure::NotEnoughAccountKeys))
        } else {
            match add_authority_err(a[0], a[1], a[2]) {
                Some(e) => (a, Err(e)),
                None => (a.update(0, add_authority_effect(a[0], k)), Ok(())),
            }
        },
        Some(InstructionV::RemoveAuthority(k)) => if a.len() < 3 {
            (a, Err(ProgramFailure::NotEnoughAccountKeys))
        } else {
            match auth_guard_err(a[0], a[1], a[2]) {
                Some(e) => (a, Err(e)),
                None => (a.update(0, remove_authority_effect(a[0], k)), Ok(())),
            }
        },
    }
}

/// The value-setting transition, shared by SetValue and AppendValue: the two
/// operations are aliases with identical merge behaviour.
pub open spec fn step_set_value(a: Seq<AccountV>, b: Seq<u8>) -> (Seq<AccountV>, Result<
    (),
    ProgramFailure,
>) {
    if a.len() < 4 {
        (a, Err(ProgramFailure::NotEnoughAccountKeys))
    } else {
        match set_value_err(a[0], a[1], a[2], a[3], b) {
            Some(e) => (a, Err(e)),
            None => (a.update(0, set_value_effect(a[0], b)), Ok(())),
        }
    }
}

/// The instruction processor.
pub struct Processor;

impl Processor {
    /// Decodes one operation and dispatches it on the positional account
    /// list, returning the accounts as the operation leaves them: exactly
    /// the transition [`step_v`] describes, every failure leaving every
    /// account unchanged.
    #[verifier::rlimit(100)]
    pub fn process_instruction(accounts: Vec<Account>, instruction_data: &Vec<u8>) -> (res: (
        Vec<Account>,
        Result<(), ProgramFailure>,
    ))
        ensures
            avs(res.0@) == step_v(avs(accounts@), instruction_data@).0,
            res.1 is Ok <==> step_v(avs(accounts@), instruction_data@).1 is Ok,
            res.1 is Err ==> res.1->Err_0 == step_v(avs(accounts@), instruction_data@).1->Err_0,
    {
        let mut accounts = accounts;
        let ghost a0 = avs(accounts@);
        let instr = match decode_instruction(instruction_data) {
            Some(i) => i,
            None => {
                return (accounts, Err(ProgramFailure::BorshIoError));
            },
        };
        match instr {
            OnchainMetadataInstructions::Initialize => {
                if accounts.len() < 4 {
                    return (accounts, Err(ProgramFailure::NotEnoughAccountKeys));
                }
                let mut json = accounts.remove(0);
                let mut meta = accounts.remove(0);
                let payer = accounts.remove(0);
                let system = accounts.remove(0);
                let r = process_initialize(&mut json, &mut meta, &payer, &system);
                accounts.insert(0, system);
                accounts.insert(0, payer);
                accounts.insert(0, meta);
                accounts.insert(0, json);
                proof {
                    assert(avs(accounts@) =~~= step_v(a0, instruction_data@).0);
                }
                (accounts, r)
            },
            OnchainMetadataInstructions::Close => {
                if accounts.len() < 4 {
                    return (accounts, Err(ProgramFailure::NotEnoughAccountKeys));
                }
                let mut json = accounts.remove(0);
                let mut meta = accounts.remove(0);
                let payer = accounts.remove(0);
                let system = accounts.remove(0);
                let r = process_close(&mut json, &mut meta, &payer, &system);
                accounts.insert(0, system);
                accounts.insert(0, payer);
                accounts.insert(0, meta);
                accounts.insert(0, json);
                proof {
                    assert(avs(accounts@) =~~= step_v(a0, instruction_data@).0);
                }
                (accounts, r)
            },
            OnchainMetadataInstructions::SetValue(args) => {
                if accounts.len() < 4 {
                    return (accounts, Err(ProgramFailure::NotEnoughAccountKeys));
                }
                let mut json = accounts.remove(0);
                let mut meta = accounts.remove(0);
                let payer = accounts.remove(0);
                let system = accounts.remove(0);
                let r = process_set_value(&mut json, &mut meta, &payer, &system, &args);
                accounts.insert(0, system);
                accounts.insert(0, payer);
                accounts.insert(0, meta);
                accounts.insert(0, json);
                proof {
                    assert(avs(accounts@) =~~= step_v(a0, instruction_data@).0);
                }
                (accounts, r)
            },
            OnchainMetadataInstructions::AppendValue(args) => {
                if accounts.len() < 4 {
                    return (accounts, Err(ProgramFailure::NotEnoughAccountKeys));
                }
                let mut json = accounts.remove(0);
                let mut meta = accounts.remove(0);
                let payer = accounts.remove(0);
                let system = accounts.remove(0);
                let sv = SetValueArgs { value: args.value };
                let r = process_set_value(&mut json, &mut meta, &payer, &system, &sv);
                accounts.insert(0, system);
                accounts.insert(0, payer);
                accounts.insert(0, meta);
                accounts.insert(0, json);
                proof {
                    assert(avs(accounts@) =~~= step_v(a0, instruction_data@).0);
                }
                (accounts, r)
            },
            OnchainMetadataInstructions::AddAuthority(args) => {
                if accounts.len() < 3 {
                    return (accounts, Err(ProgramFailure::NotEnoughAccountKeys));
                }
                let mut meta = accounts.remove(0);
                let payer = accounts.remove(0);
                let system = accounts.remove(0);
                let r = process_add_authority(&mut meta, &payer, &system, &args.new_authority);
                accounts.insert(0, system);
                accounts.insert(0, payer);
                accounts.insert(0, meta);
                proof {
                    assert(avs(accounts@) =~~= step_v(a0, instruction_data@).0);
                }
                (accounts, r)
            },
            OnchainMetadataInstructions::RemoveAuthority(args) => {
                if accounts.len() < 3 {
                    return (accounts, Err(ProgramFailure::NotEnoughAccountKeys));
                }
                let mut meta = accounts.remove(0);
                let payer = accounts.remove(0);
                let system = accounts.remove(0);
                let r = process_remove_authority(&mut meta, &payer, &system, &args.authority);
                accounts.insert(0, system);
                accounts.insert(0, payer);
                accounts.insert(0, meta);
                proof {
                    assert(avs(accounts@) =~~= step_v(a0, instruction_data@).0);
                }
                (accounts, r)
            },
        }
    }
}

} // verus!
