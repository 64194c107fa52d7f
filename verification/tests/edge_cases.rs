use spl_record::error::{ProgramFailure, RecordError};
use spl_record::instruction::RecordInstruction;
use spl_record::processor::{
    process_close_account, process_initialize, process_instruction, process_reallocate,
    process_write,
};
use spl_record::state::{pubkey_eq, AccountView, Pubkey, CURRENT_VERSION, WRITABLE_START_INDEX};

fn key(byte: u8) -> Pubkey {
    Pubkey([byte; 32])
}

fn record_account(key_byte: u8, data_len: usize) -> AccountView {
    AccountView {
        key: key(key_byte),
        is_signer: false,
        is_writable: true,
        lamports: 1_000,
        data: vec![0u8; data_len],
    }
}

fn authority_account(key_byte: u8, is_signer: bool) -> AccountView {
    AccountView {
        key: key(key_byte),
        is_signer,
        is_writable: false,
        lamports: 0,
        data: Vec::new(),
    }
}

fn initialized_record(authority_key: u8, payload: &[u8]) -> AccountView {
    let mut record = record_account(1, WRITABLE_START_INDEX + payload.len());
    let authority = authority_account(authority_key, true);
    assert_eq!(process_initialize(&mut record, &authority), Ok(()));
    assert_eq!(
        process_write(&mut record, &authority, 0, &payload.to_vec()),
        Ok(())
    );
    record
}

#[test]
fn record_error_codes_on_custom_channel() {
    assert_eq!(
        ProgramFailure::from(RecordError::IncorrectAuthority),
        ProgramFailure::Custom(0)
    );
    assert_eq!(
        ProgramFailure::from(RecordError::Overflow),
        ProgramFailure::Custom(1)
    );
}

#[test]
fn pubkey_eq_compares_bytes() {
    assert!(pubkey_eq(&key(7), &key(7)));
    assert!(!pubkey_eq(&key(7), &key(8)));
    let mut almost = [7u8; 32];
    almost[31] = 8;
    assert!(!pubkey_eq(&key(7), &Pubkey(almost)));
}

#[test]
fn initialize_short_buffer_fails() {
    let mut record = record_account(1, WRITABLE_START_INDEX - 1);
    let authority = authority_account(2, false);
    let before = record.data.clone();
    assert_eq!(
        process_initialize(&mut record, &authority),
        Err(ProgramFailure::InvalidAccountData)
    );
    assert_eq!(record.data, before);
}

#[test]
fn initialize_minimal_buffer_succeeds() {
    // Exactly 33 bytes: header only, empty data region.
    let mut record = record_account(1, WRITABLE_START_INDEX);
    let authority = authority_account(2, false);
    assert_eq!(process_initialize(&mut record, &authority), Ok(()));
    assert_eq!(record.data[0], CURRENT_VERSION);
    assert_eq!(&record.data[1..33], &[2u8; 32]);
}

#[test]
fn write_uninitialized_record_fails() {
    let mut record = record_account(1, WRITABLE_START_INDEX + 8);
    let authority = authority_account(2, true);
    assert_eq!(
        process_write(&mut record, &authority, 0, &vec![1u8]),
        Err(ProgramFailure::UninitializedAccount)
    );
    assert_eq!(record.data, vec![0u8; WRITABLE_START_INDEX + 8]);
}

#[test]
fn write_offset_overflow_fails() {
    let mut record = initialized_record(2, &[111u8; 8]);
    let authority = authority_account(2, true);
    let before = record.data.clone();
    assert_eq!(
        process_write(&mut record, &authority, u64::MAX, &vec![1u8]),
        Err(ProgramFailure::Custom(RecordError::Overflow as u32))
    );
    assert_eq!(record.data, before);
}

#[test]
fn write_past_capacity_fails() {
    let mut record = initialized_record(2, &[111u8; 8]);
    let authority = authority_account(2, true);
    let before = record.data.clone();
    assert_eq!(
        process_write(&mut record, &authority, 1, &vec![9u8; 8]),
        Err(ProgramFailure::AccountDataTooSmall)
    );
    assert_eq!(record.data, before);
}

#[test]
fn write_at_exact_capacity_succeeds() {
    let mut record = initialized_record(2, &[111u8; 8]);
    let authority = authority_account(2, true);
    assert_eq!(
        process_write(&mut record, &authority, 6, &vec![9u8, 9]),
        Ok(())
    );
    assert_eq!(&record.data[33..], &[111, 111, 111, 111, 111, 111, 9, 9]);
}

#[test]
fn write_empty_data_changes_nothing() {
    let mut record = initialized_record(2, &[111u8; 8]);
    let authority = authority_account(2, true);
    let before = record.data.clone();
    assert_eq!(
        process_write(&mut record, &authority, 8, &Vec::new()),
        Ok(())
    );
    assert_eq!(record.data, before);
}

#[test]
fn write_partial_range_leaves_rest_untouched() {
    let mut record = initialized_record(2, &[111u8; 8]);
    let authority = authority_account(2, true);
    assert_eq!(
        process_write(&mut record, &authority, 2, &vec![200u8, 201, 202]),
        Ok(())
    );
    assert_eq!(
        &record.data[33..],
        &[111, 111, 200, 201, 202, 111, 111, 111]
    );
}

#[test]
fn close_lamport_overflow_fails() {
    let mut record = initialized_record(2, &[111u8; 8]);
    let authority = authority_account(2, true);
    let mut recipient = record_account(4, 0);
    recipient.lamports = u64::MAX;
    let before = record.data.clone();
    assert_eq!(
        process_close_account(&mut record, &authority, &mut recipient),
        Err(ProgramFailure::Custom(RecordError::Overflow as u32))
    );
    assert_eq!(record.data, before);
    assert_eq!(recipient.lamports, u64::MAX);
}

#[test]
fn reallocate_length_overflow_fails() {
    let mut record = initialized_record(2, &[111u8; 8]);
    let authority = authority_account(2, true);
    let before = record.data.clone();
    assert_eq!(
        process_reallocate(&mut record, &authority, u64::MAX),
        Err(ProgramFailure::Custom(RecordError::Overflow as u32))
    );
    assert_eq!(record.data, before);
}

#[test]
fn reallocate_to_same_length_changes_nothing() {
    let mut record = initialized_record(2, &[111u8; 8]);
    let authority = authority_account(2, true);
    let before = record.data.clone();
    assert_eq!(process_reallocate(&mut record, &authority, 8), Ok(()));
    assert_eq!(record.data, before);
}

#[test]
fn reallocate_to_empty_data_region() {
    let mut record = initialized_record(2, &[111u8; 8]);
    let authority = authority_account(2, true);
    assert_eq!(process_reallocate(&mut record, &authority, 0), Ok(()));
    assert_eq!(record.data.len(), WRITABLE_START_INDEX);
    assert_eq!(record.data[0], CURRENT_VERSION);
    assert_eq!(&record.data[1..33], &[2u8; 32]);
}

#[test]
fn process_instruction_rejects_garbage() {
    let mut accounts = vec![record_account(1, 41), authority_account(2, true)];
    assert_eq!(
        process_instruction(&mut accounts, &[9, 9, 9]),
        Err(ProgramFailure::InvalidInstructionData)
    );
    assert_eq!(accounts[0].data, vec![0u8; 41]);
}

#[test]
fn process_instruction_needs_enough_accounts() {
    let mut accounts = vec![record_account(1, 41)];
    assert_eq!(
        process_instruction(&mut accounts, &RecordInstruction::Initialize.pack()),
        Err(ProgramFailure::NotEnoughAccountKeys)
    );
    let mut accounts = vec![record_account(1, 41), authority_account(2, true)];
    assert_eq!(
        process_instruction(&mut accounts, &RecordInstruction::SetAuthority.pack()),
        Err(ProgramFailure::NotEnoughAccountKeys)
    );
    assert_eq!(
        process_instruction(&mut accounts, &RecordInstruction::CloseAccount.pack()),
        Err(ProgramFailure::NotEnoughAccountKeys)
    );
}

#[test]
fn old_authority_loses_rights_after_set_authority() {
    // Hand the record from authority 2 to authority 5, then check each
    // mutating instruction under each signer.
    let record = initialized_record(2, &[111u8; 8]);
    let mut accounts = vec![
        record,
        authority_account(2, true),
        authority_account(5, false),
    ];
    assert_eq!(
        process_instruction(&mut accounts, &RecordInstruction::SetAuthority.pack()),
        Ok(())
    );
    let record = accounts.remove(0);

    let incorrect = ProgramFailure::Custom(RecordError::IncorrectAuthority as u32);
    let old_signer = authority_account(2, true);
    let new_signer = authority_account(5, true);

    let mut rec = record.clone();
    assert_eq!(
        process_write(&mut rec, &old_signer, 0, &vec![7u8]),
        Err(incorrect)
    );
    let mut rec = record.clone();
    let mut recipient = record_account(4, 0);
    recipient.lamports = 0;
    assert_eq!(
        process_close_account(&mut rec, &old_signer, &mut recipient),
        Err(incorrect)
    );
    let mut rec = record.clone();
    let mut accounts = vec![rec, old_signer, authority_account(6, false)];
    assert_eq!(
        process_instruction(&mut accounts, &RecordInstruction::SetAuthority.pack()),
        Err(incorrect)
    );

    rec = record.clone();
    assert_eq!(process_write(&mut rec, &new_signer, 0, &vec![7u8]), Ok(()));
    let mut rec = record.clone();
    let mut recipient = record_account(4, 0);
    recipient.lamports = 0;
    assert_eq!(
        process_close_account(&mut rec, &new_signer, &mut recipient),
        Ok(())
    );
}
