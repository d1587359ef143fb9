use onchain_metadata::accounts::Account;
use onchain_metadata::addr::{Address, PROGRAM_ID, SYSTEM_PROGRAM_ID};
use onchain_metadata::error::{OnchainMetadataError, ProgramFailure};
use onchain_metadata::instruction::{
    AddAuthorityArgs, OnchainMetadataInstructions, RemoveAuthorityArgs, SetValueArgs,
    encode_instruction,
};
use onchain_metadata::pda::find_metadata_account;
use onchain_metadata::processor::Processor;
use onchain_metadata::state::deserialize_metadata;

fn key(n: u8) -> Address {
    let mut bytes = [0u8; 32];
    bytes[0] = n;
    bytes[31] = 7;
    Address { bytes }
}

fn fresh(k: Address) -> Account {
    Account { key: k, owner: Address { bytes: SYSTEM_PROGRAM_ID }, data: Vec::new(), is_signer: false }
}

fn signer(k: Address) -> Account {
    Account { key: k, owner: Address { bytes: SYSTEM_PROGRAM_ID }, data: Vec::new(), is_signer: true }
}

fn system_account() -> Account {
    fresh(Address { bytes: SYSTEM_PROGRAM_ID })
}

fn clone_acct(a: &Account) -> Account {
    Account { key: a.key, owner: a.owner, data: a.data.clone(), is_signer: a.is_signer }
}

/// Runs Initialize on a fresh pair, returning [json, meta, payer, system].
fn initialized_pair(payer_key: Address) -> Vec<Account> {
    let json_key = key(1);
    let (meta_key, _bump) = find_metadata_account(&json_key).unwrap();
    let accounts = vec![fresh(json_key), fresh(meta_key), signer(payer_key), system_account()];
    let data = encode_instruction(&OnchainMetadataInstructions::Initialize).unwrap();
    let (accounts, r) = Processor::process_instruction(accounts, &data);
    assert!(r.is_ok());
    accounts
}

fn set_value(accounts: Vec<Account>, value: &str) -> (Vec<Account>, Result<(), ProgramFailure>) {
    let data = encode_instruction(&OnchainMetadataInstructions::SetValue(SetValueArgs {
        value: value.to_string(),
    }))
    .unwrap();
    Processor::process_instruction(accounts, &data)
}

#[test]
fn derivation_is_deterministic() {
    let json_key = key(1);
    let a = find_metadata_account(&json_key).unwrap();
    let b = find_metadata_account(&json_key).unwrap();
    assert_eq!(a.0.bytes, b.0.bytes);
    assert_eq!(a.1, b.1);
    assert_ne!(a.0.bytes, json_key.bytes);
}

#[test]
fn initialize_creates_pair_with_payer_authority() {
    let payer = key(9);
    let accounts = initialized_pair(payer);
    assert_eq!(accounts[0].owner.bytes, PROGRAM_ID);
    assert_eq!(accounts[0].data, b"null".to_vec());
    assert_eq!(accounts[1].owner.bytes, PROGRAM_ID);
    let m = deserialize_metadata(&accounts[1].data).unwrap();
    assert!(m.mutable);
    assert_eq!(m.authorities.len(), 1);
    assert_eq!(m.authorities[0].bytes, payer.bytes);
    assert_eq!(m.bump, find_metadata_account(&key(1)).unwrap().1);
}

#[test]
fn initialize_twice_fails_already_initialized() {
    let payer = key(9);
    let accounts = initialized_pair(payer);
    let data = encode_instruction(&OnchainMetadataInstructions::Initialize).unwrap();
    let (_accounts, r) = Processor::process_instruction(accounts, &data);
    assert_eq!(
        r,
        Err(ProgramFailure::Custom(OnchainMetadataError::AlreadyInitialized))
    );
}

#[test]
fn set_value_then_merge_patch_scenario() {
    let payer = key(9);
    let accounts = initialized_pair(payer);
    let (accounts, r) = set_value(accounts, "{\"a\":1}");
    assert!(r.is_ok());
    assert_eq!(accounts[0].data, b"{\"a\":1}".to_vec());
    let (accounts, r) = set_value(accounts, "{\"a\":null,\"b\":2}");
    assert!(r.is_ok());
    assert_eq!(accounts[0].data, b"{\"b\":2}".to_vec());
}

#[test]
fn append_value_merges_like_set_value() {
    let payer = key(9);
    let accounts = initialized_pair(payer);
    let (accounts, r) = set_value(accounts, "{\"a\":1}");
    assert!(r.is_ok());
    let data = encode_instruction(&OnchainMetadataInstructions::AppendValue(
        onchain_metadata::instruction::AppendValueArgs { value: "{\"c\":true}".to_string() },
    ))
    .unwrap();
    let (accounts, r) = Processor::process_instruction(accounts, &data);
    assert!(r.is_ok());
    assert_eq!(accounts[0].data, b"{\"a\":1,\"c\":true}".to_vec());
}

#[test]
fn set_value_replaces_scalar_with_object_wholesale() {
    let payer = key(9);
    let accounts = initialized_pair(payer);
    let (accounts, r) = set_value(accounts, "{\"a\":1}");
    assert!(r.is_ok());
    let (accounts, r) = set_value(accounts, "{\"a\":{\"b\":2}}");
    assert!(r.is_ok());
    assert_eq!(accounts[0].data, b"{\"a\":{\"b\":2}}".to_vec());
}

#[test]
fn set_value_keeps_untouched_key_order() {
    let payer = key(9);
    let accounts = initialized_pair(payer);
    let (accounts, r) = set_value(accounts, "{\"x\":1,\"y\":2,\"z\":3}");
    assert!(r.is_ok());
    let (accounts, r) = set_value(accounts, "{\"y\":20}");
    assert!(r.is_ok());
    assert_eq!(accounts[0].data, b"{\"x\":1,\"y\":20,\"z\":3}".to_vec());
}

#[test]
fn set_value_rejects_invalid_json() {
    let payer = key(9);
    let accounts = initialized_pair(payer);
    let before = clone_acct(&accounts[0]);
    let (accounts, r) = set_value(accounts, "{\"a\":");
    assert_eq!(r, Err(ProgramFailure::Custom(OnchainMetadataError::InvalidJson)));
    assert_eq!(accounts[0].data, before.data);
}

#[test]
fn non_authority_signer_is_rejected_everywhere() {
    let payer = key(9);
    let outsider = key(8);
    let base = initialized_pair(payer);
    let make = |base: &Vec<Account>| -> Vec<Account> {
        vec![
            clone_acct(&base[0]),
            clone_acct(&base[1]),
            signer(outsider),
            system_account(),
        ]
    };
    let expected = Err(ProgramFailure::Custom(OnchainMetadataError::InvalidAuthority));

    let data = encode_instruction(&OnchainMetadataInstructions::SetValue(SetValueArgs {
        value: "{}".to_string(),
    }))
    .unwrap();
    let (_, r) = Processor::process_instruction(make(&base), &data);
    assert_eq!(r, expected);

    let data = encode_instruction(&OnchainMetadataInstructions::Close).unwrap();
    let (_, r) = Processor::process_instruction(make(&base), &data);
    assert_eq!(r, expected);

    let data = encode_instruction(&OnchainMetadataInstructions::AddAuthority(AddAuthorityArgs {
        new_authority: outsider,
    }))
    .unwrap();
    let (_, r) = Processor::process_instruction(
        vec![clone_acct(&base[1]), signer(outsider), system_account()],
        &data,
    );
    assert_eq!(r, expected);

    let data = encode_instruction(&OnchainMetadataInstructions::RemoveAuthority(
        RemoveAuthorityArgs { authority: payer },
    ))
    .unwrap();
    let (_, r) = Processor::process_instruction(
        vec![clone_acct(&base[1]), signer(outsider), system_account()],
        &data,
    );
    assert_eq!(r, expected);
}

#[test]
fn missing_signature_is_rejected() {
    let payer = key(9);
    let base = initialized_pair(payer);
    let mut unsigned = signer(payer);
    unsigned.is_signer = false;
    let accounts = vec![clone_acct(&base[0]), clone_acct(&base[1]), unsigned, system_account()];
    let (_, r) = set_value(accounts, "{}");
    assert_eq!(r, Err(ProgramFailure::MissingRequiredSignature));
}

#[test]
fn wrong_system_program_is_rejected() {
    let payer = key(9);
    let base = initialized_pair(payer);
    let accounts = vec![clone_acct(&base[0]), clone_acct(&base[1]), signer(payer), fresh(key(5))];
    let (_, r) = set_value(accounts, "{}");
    assert_eq!(
        r,
        Err(ProgramFailure::Custom(OnchainMetadataError::InvalidSystemProgram))
    );
}

#[test]
fn wrong_metadata_account_fails_derivation() {
    let payer = key(9);
    let base = initialized_pair(payer);
    let mut wrong_meta = clone_acct(&base[1]);
    wrong_meta.key = key(6);
    let accounts = vec![clone_acct(&base[0]), wrong_meta, signer(payer), system_account()];
    let (_, r) = set_value(accounts, "{}");
    assert_eq!(
        r,
        Err(ProgramFailure::Custom(OnchainMetadataError::MetadataDerivedKeyInvalid))
    );
}

#[test]
fn malformed_stored_metadata_is_a_format_error() {
    let payer = key(9);
    let base = initialized_pair(payer);
    let mut broken = clone_acct(&base[1]);
    broken.data = vec![1, 2, 3];
    let accounts = vec![clone_acct(&base[0]), broken, signer(payer), system_account()];
    let (_, r) = set_value(accounts, "{}");
    assert_eq!(
        r,
        Err(ProgramFailure::Custom(OnchainMetadataError::BorshSerializeError))
    );
}

#[test]
fn uninitialized_target_is_rejected() {
    let payer = key(9);
    let json_key = key(1);
    let (meta_key, _) = find_metadata_account(&json_key).unwrap();
    let accounts = vec![fresh(json_key), fresh(meta_key), signer(payer), system_account()];
    let (_, r) = set_value(accounts, "{}");
    assert_eq!(r, Err(ProgramFailure::Custom(OnchainMetadataError::NotInitialized)));
}

#[test]
fn close_empties_and_disowns_both_records() {
    let payer = key(9);
    let accounts = initialized_pair(payer);
    let data = encode_instruction(&OnchainMetadataInstructions::Close).unwrap();
    let (accounts, r) = Processor::process_instruction(accounts, &data);
    assert!(r.is_ok());
    assert_eq!(accounts[0].owner.bytes, SYSTEM_PROGRAM_ID);
    assert!(accounts[0].data.is_empty());
    assert_eq!(accounts[1].owner.bytes, SYSTEM_PROGRAM_ID);
    assert!(accounts[1].data.is_empty());

    // Operations on the closed pair behave as on a fresh one.
    let (accounts, r) = set_value(accounts, "{}");
    assert_eq!(r, Err(ProgramFailure::Custom(OnchainMetadataError::NotInitialized)));
    let init = encode_instruction(&OnchainMetadataInstructions::Initialize).unwrap();
    let (_, r) = Processor::process_instruction(accounts, &init);
    assert!(r.is_ok());
}

#[test]
fn add_then_remove_authority_restores_list() {
    let payer = key(9);
    let extra = key(4);
    let base = initialized_pair(payer);
    let before = base[1].data.clone();

    let data = encode_instruction(&OnchainMetadataInstructions::AddAuthority(AddAuthorityArgs {
        new_authority: extra,
    }))
    .unwrap();
    let (accounts, r) = Processor::process_instruction(
        vec![clone_acct(&base[1]), signer(payer), system_account()],
        &data,
    );
    assert!(r.is_ok());
    let m = deserialize_metadata(&accounts[0].data).unwrap();
    assert_eq!(m.authorities.len(), 2);
    assert_eq!(m.authorities[1].bytes, extra.bytes);

    let data = encode_instruction(&OnchainMetadataInstructions::RemoveAuthority(
        RemoveAuthorityArgs { authority: extra },
    ))
    .unwrap();
    let (accounts, r) = Processor::process_instruction(
        vec![clone_acct(&accounts[0]), signer(payer), system_account()],
        &data,
    );
    assert!(r.is_ok());
    assert_eq!(accounts[0].data, before);
}

#[test]
fn removing_all_authorities_locks_the_record() {
    let payer = key(9);
    let base = initialized_pair(payer);
    let data = encode_instruction(&OnchainMetadataInstructions::RemoveAuthority(
        RemoveAuthorityArgs { authority: payer },
    ))
    .unwrap();
    let (accounts, r) = Processor::process_instruction(
        vec![clone_acct(&base[1]), signer(payer), system_account()],
        &data,
    );
    assert!(r.is_ok());
    let m = deserialize_metadata(&accounts[0].data).unwrap();
    assert_eq!(m.authorities.len(), 0);

    // Even the former authority can no longer touch the pair.
    let accounts = vec![clone_acct(&base[0]), clone_acct(&accounts[0]), signer(payer), system_account()];
    let (_, r) = set_value(accounts, "{}");
    assert_eq!(r, Err(ProgramFailure::Custom(OnchainMetadataError::InvalidAuthority)));
}

#[test]
fn duplicate_authorities_are_kept_and_all_removed() {
    let payer = key(9);
    let base = initialized_pair(payer);
    let add = encode_instruction(&OnchainMetadataInstructions::AddAuthority(AddAuthorityArgs {
        new_authority: payer,
    }))
    .unwrap();
    let (accounts, r) = Processor::process_instruction(
        vec![clone_acct(&base[1]), signer(payer), system_account()],
        &add,
    );
    assert!(r.is_ok());
    let m = deserialize_metadata(&accounts[0].data).unwrap();
    assert_eq!(m.authorities.len(), 2);

    let rem = encode_instruction(&OnchainMetadataInstructions::RemoveAuthority(
        RemoveAuthorityArgs { authority: payer },
    ))
    .unwrap();
    let (accounts, r) = Processor::process_instruction(
        vec![clone_acct(&accounts[0]), signer(payer), system_account()],
        &rem,
    );
    assert!(r.is_ok());
    let m = deserialize_metadata(&accounts[0].data).unwrap();
    assert_eq!(m.authorities.len(), 0);
}

#[test]
fn too_few_accounts_and_bad_instruction_data() {
    let data = encode_instruction(&OnchainMetadataInstructions::Initialize).unwrap();
    let (_, r) = Processor::process_instruction(vec![fresh(key(1))], &data);
    assert_eq!(r, Err(ProgramFailure::NotEnoughAccountKeys));

    let garbage = vec![77u8, 1, 2];
    let (_, r) = Processor::process_instruction(vec![fresh(key(1))], &garbage);
    assert_eq!(r, Err(ProgramFailure::BorshIoError));
}

#[test]
fn error_codes_match_the_declared_order() {
    assert_eq!(OnchainMetadataError::AlreadyInitialized.code(), 0);
    assert_eq!(OnchainMetadataError::NotInitialized.code(), 1);
    assert_eq!(OnchainMetadataError::MetadataDerivedKeyInvalid.code(), 2);
    assert_eq!(OnchainMetadataError::InvalidSystemProgram.code(), 3);
    assert_eq!(OnchainMetadataError::InvalidJson.code(), 4);
    assert_eq!(OnchainMetadataError::BorshSerializeError.code(), 5);
    assert_eq!(OnchainMetadataError::InvalidAuthority.code(), 6);
}
