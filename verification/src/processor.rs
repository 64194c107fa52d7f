//! The instruction-processing state machine.
//!
//! Each handler validates every precondition — account flags, signer
//! identity, authority match, arithmetic bounds, capacity — strictly before
//! performing any mutation: on failure the buffers are returned unmodified
//! and a specific error is surfaced. The `*_outcome` spec functions state
//! each transition in full, and every handler's contract is exactly its
//! outcome.

use vstd::prelude::*;

use crate::error::{record_error_code, ProgramFailure, RecordError};
use crate::instruction::{decode, InstructionVal, RecordInstruction};
use crate::state::{
    authority_of, is_initialized, payload_of, record_is_initialized, version_of, well_sized,
    AccountVal, AccountView, CURRENT_VERSION, WRITABLE_START_INDEX,
};

verus! {

/// The failure a [`RecordError`] surfaces as on the host channel.
pub open spec fn record_failure(e: RecordError) -> ProgramFailure {
    ProgramFailure::Custom(record_error_code(e))
}

/// `buf` with `d` overwriting the bytes at `[at, at + d.len())`; everything
/// outside that range is unchanged.
pub open spec fn splice(buf: Seq<u8>, at: int, d: Seq<u8>) -> Seq<u8>
    recommends
        0 <= at,
        at + d.len() <= buf.len(),
{
    buf.subrange(0, at) + d + buf.subrange(at + d.len(), buf.len() as int)
}

/// `n` zero bytes.
pub open spec fn zero_seq(n: int) -> Seq<u8> {
    Seq::new(n as nat, |i: int| 0u8)
}

/// The check every mutating instruction makes before touching an existing
/// record: the buffer must hold a full header, and the record must be
/// initialized.
pub open spec fn record_precheck(rec: AccountVal) -> Option<ProgramFailure> {
    if !well_sized(rec.data) {
        Some(ProgramFailure::InvalidAccountData)
    } else if !is_initialized(rec.data) {
        Some(ProgramFailure::UninitializedAccount)
    } else {
        None
    }
}

/// The authority guard: the presented authority account must have signed
/// the transaction, and its key must equal the record's stored authority
/// byte for byte.
pub open spec fn authority_guard(buf: Seq<u8>, authority: AccountVal) -> Option<ProgramFailure>
    recommends
        well_sized(buf),
{
    if !authority.is_signer {
        Some(ProgramFailure::MissingRequiredSignature)
    } else if authority.key != authority_of(buf) {
        Some(record_failure(RecordError::IncorrectAuthority))
    } else {
        None
    }
}

/// What `Initialize` does: on an uninitialized record with a full header,
/// write the current version byte and the authority key, leaving the data
/// region untouched; otherwise fail without touching anything.
pub open spec fn initialize_outcome(rec: AccountVal, authority: AccountVal) -> Result<
    AccountVal,
    ProgramFailure,
> {
    if !well_sized(rec.data) {
        Err(ProgramFailure::InvalidAccountData)
    } else if is_initialized(rec.data) {
        Err(ProgramFailure::AccountAlreadyInitialized)
    } else {
        Ok(AccountVal { data: splice(rec.data, 0, seq![CURRENT_VERSION] + authority.key), ..rec })
    }
}

/// What `Write { offset, data }` does: on an initialized record, with the
/// authority guard satisfied, `offset + data.len()` free of `u64` overflow
/// and within the data region, overwrite exactly that range of the data
/// region; otherwise fail without touching anything.
pub open spec fn write_outcome(
    rec: AccountVal,
    authority: AccountVal,
    offset: u64,
    data: Seq<u8>,
) -> Result<AccountVal, ProgramFailure> {
    if record_precheck(rec) is Some {
        Err(record_precheck(rec)->Some_0)
    } else if authority_guard(rec.data, authority) is Some {
        Err(authority_guard(rec.data, authority)->Some_0)
    } else if offset + data.len() > u64::MAX {
        Err(record_failure(RecordError::Overflow))
    } else if offset + data.len() > rec.data.len() - WRITABLE_START_INDEX {
        Err(ProgramFailure::AccountDataTooSmall)
    } else {
        Ok(AccountVal { data: splice(rec.data, WRITABLE_START_INDEX + offset, data), ..rec })
    }
}

/// What `SetAuthority` does: on an initialized record, with the guard
/// satisfied against the current authority, replace the stored authority
/// with the new authority account's key; otherwise fail without touching
/// anything.
pub open spec fn set_authority_outcome(
    rec: AccountVal,
    authority: AccountVal,
    new_authority: AccountVal,
) -> Result<AccountVal, ProgramFailure> {
    if record_precheck(rec) is Some {
        Err(record_precheck(rec)->Some_0)
    } else if authority_guard(rec.data, authority) is Some {
        Err(authority_guard(rec.data, authority)->Some_0)
    } else {
        Ok(AccountVal { data: splice(rec.data, 1, new_authority.key), ..rec })
    }
}

/// What `CloseAccount` does: on an initialized record, with the guard
/// satisfied, move the record's entire lamport balance to the recipient and
/// zero the whole buffer; otherwise fail without touching anything. The
/// first element of the pair is the record, the second the recipient.
pub open spec fn close_outcome(
    rec: AccountVal,
    authority: AccountVal,
    recipient: AccountVal,
) -> Result<(AccountVal, AccountVal), ProgramFailure> {
    if record_precheck(rec) is Some {
        Err(record_precheck(rec)->Some_0)
    } else if authority_guard(rec.data, authority) is Some {
        Err(authority_guard(rec.data, authority)->Some_0)
    } else if recipient.lamports + rec.lamports > u64::MAX {
        Err(record_failure(RecordError::Overflow))
    } else {
        Ok(
            (
                AccountVal { lamports: 0, data: zero_seq(rec.data.len() as int), ..rec },
                AccountVal { lamports: (recipient.lamports + rec.lamports) as u64, ..recipient },
            ),
        )
    }
}

/// What `Reallocate { data_length }` does: on an initialized record, with
/// the guard satisfied and the new total length `33 + data_length` free of
/// overflow, resize the buffer to that length, zero-filling on growth and
/// truncating on shrink; otherwise fail without touching anything.
pub open spec fn reallocate_outcome(
    rec: AccountVal,
    authority: AccountVal,
    data_length: u64,
) -> Result<AccountVal, ProgramFailure> {
    if record_precheck(rec) is Some {
        Err(record_precheck(rec)->Some_0)
    } else if authority_guard(rec.data, authority) is Some {
        Err(authority_guard(rec.data, authority)->Some_0)
    } else if WRITABLE_START_INDEX + data_length > usize::MAX {
        Err(record_failure(RecordError::Overflow))
    } else {
        let new_len = WRITABLE_START_INDEX + data_length;
        let new_data = if new_len <= rec.data.len() {
            rec.data.subrange(0, new_len)
        } else {
            rec.data + zero_seq(new_len - rec.data.len())
        };
        Ok(AccountVal { data: new_data, ..rec })
    }
}

/// Validates the presented authority account against the record's stored
/// authority, exactly as [`authority_guard`] states.
pub fn check_authority(record_data: &Vec<u8>, authority: &AccountView) -> (r: Result<
    (),
    ProgramFailure,
>)
    requires
        well_sized(record_data@),
    ensures
        match authority_guard(record_data@, authority@) {
            Some(e) => r == Err::<(), ProgramFailure>(e),
            None => r == Ok::<(), ProgramFailure>(()),
        },
{
    if !authority.is_signer {
        return Err(ProgramFailure::MissingRequiredSignature);
    }
    let mut i: usize = 0;
    while i < 32
        invariant
            i <= 32,
            well_sized(record_data@),
            authority@.is_signer,
            forall|j: int| 0 <= j < i ==> authority@.key[j] == record_data@[1 + j],
        decreases 32 - i,
    {
        if authority.key.0[i] != record_data[1 + i] {
            proof {
                assert(authority@.key[i as int] != authority_of(record_data@)[i as int]);
            }
            return Err(ProgramFailure::from(RecordError::IncorrectAuthority));
        }
        i += 1;
    }
    proof {
        assert(authority@.key =~= authority_of(record_data@));
    }
    Ok(())
}

/// Creates the record: writes the version byte and the authority key into
/// an uninitialized account's buffer. The authority is named but need not
/// sign; eligibility to initialize rests with whoever created the account.
pub fn process_initialize(record: &mut AccountView, authority: &AccountView) -> (r: Result<
    (),
    ProgramFailure,
>)
    requires
        old(record)@.is_writable,
    ensures
        match initialize_outcome(old(record)@, authority@) {
            Ok(v) => r == Ok::<(), ProgramFailure>(()) && final(record)@ == v,
            Err(e) => r == Err::<(), ProgramFailure>(e) && *final(record) == *old(record),
        },
{
    if record.data.len() < WRITABLE_START_INDEX {
        return Err(ProgramFailure::InvalidAccountData);
    }
    if record.data[0] == CURRENT_VERSION {
        return Err(ProgramFailure::AccountAlreadyInitialized);
    }
    record.data[0] = CURRENT_VERSION;
    let mut i: usize = 0;
    while i < 32
        invariant
            i <= 32,
            old(record)@.data.len() >= WRITABLE_START_INDEX,
            record.data@.len() == old(record)@.data.len(),
            record.data@[0] == CURRENT_VERSION,
            forall|j: int| 1 <= j < 1 + i ==> record.data@[j] == authority@.key[j - 1],
            forall|j: int|
                1 + i <= j < record.data@.len() ==> record.data@[j] == old(record)@.data[j],
            record.key == old(record).key,
            record.is_signer == old(record).is_signer,
            record.is_writable == old(record).is_writable,
            record.lamports == old(record).lamports,
        decreases 32 - i,
    {
        record.data[1 + i] = authority.key.0[i];
        i += 1;
    }
    proof {
        let v = initialize_outcome(old(record)@, authority@)->Ok_0;
        assert(record.data@ =~= splice(old(record)@.data, 0, seq![CURRENT_VERSION] + authority@.key));
        assert(record@ =~= v);
    }
    Ok(())
}

/// Overwrites `data.len()` bytes of the record's data region, starting
/// `offset` bytes into it. Bytes outside that range are untouched.
pub fn process_write(
    record: &mut AccountView,
    authority: &AccountView,
    offset: u64,
    data: &Vec<u8>,
) -> (r: Result<(), ProgramFailure>)
    requires
        old(record)@.is_writable,
    ensures
        match write_outcome(old(record)@, authority@, offset, data@) {
            Ok(v) => r == Ok::<(), ProgramFailure>(()) && final(record)@ == v,
            Err(e) => r == Err::<(), ProgramFailure>(e) && *final(record) == *old(record),
        },
{
    if record.data.len() < WRITABLE_START_INDEX {
        return Err(ProgramFailure::InvalidAccountData);
    }
    if !record_is_initialized(&record.data) {
        return Err(ProgramFailure::UninitializedAccount);
    }
    match check_authority(&record.data, authority) {
        Err(e) => {
            return Err(e);
        },
        Ok(()) => {},
    }
    let end = match offset.checked_add(data.len() as u64) {
        Some(end) => end,
        None => {
            return Err(ProgramFailure::from(RecordError::Overflow));
        },
    };
    if end > (record.data.len() - WRITABLE_START_INDEX) as u64 {
        return Err(ProgramFailure::AccountDataTooSmall);
    }
    proof {
        assert(offset <= usize::MAX);
    }
    let start = WRITABLE_START_INDEX + offset as usize;
    let mut i: usize = 0;
    while i < data.len()
        invariant
            i <= data@.len(),
            start == WRITABLE_START_INDEX + offset,
            start + data@.len() <= record.data@.len(),
            start + data@.len() <= usize::MAX,
            record.data@.len() == old(record)@.data.len(),
            forall|j: int| 0 <= j < start ==> record.data@[j] == old(record)@.data[j],
            forall|j: int| start <= j < start + i ==> record.data@[j] == data@[j - start],
            forall|j: int|
                start + i <= j < record.data@.len() ==> record.data@[j] == old(record)@.data[j],
            record.key == old(record).key,
            record.is_signer == old(record).is_signer,
            record.is_writable == old(record).is_writable,
            record.lamports == old(record).lamports,
        decreases data@.len() - i,
    {
        record.data[start + i] = data[i];
        i += 1;
    }
    proof {
        let v = write_outcome(old(record)@, authority@, offset, data@)->Ok_0;
        assert(record.data@ =~= splice(old(record)@.data, WRITABLE_START_INDEX + offset, data@));
        assert(record@ =~= v);
    }
    Ok(())
}

/// Replaces the record's stored authority key with the new authority
/// account's key. The new authority need not sign; the change is immediate
/// and irrevocable.
pub fn process_set_authority(
    record: &mut AccountView,
    authority: &AccountView,
    new_authority: &AccountView,
) -> (r: Result<(), ProgramFailure>)
    requires
        old(record)@.is_writable,
    ensures
        match set_authority_outcome(old(record)@, authority@, new_authority@) {
            Ok(v) => r == Ok::<(), ProgramFailure>(()) && final(record)@ == v,
            Err(e) => r == Err::<(), ProgramFailure>(e) && *final(record) == *old(record),
        },
{
    if record.data.len() < WRITABLE_START_INDEX {
        return Err(ProgramFailure::InvalidAccountData);
    }
    if !record_is_initialized(&record.data) {
        return Err(ProgramFailure::UninitializedAccount);
    }
    match check_authority(&record.data, authority) {
        Err(e) => {
            return Err(e);
        },
        Ok(()) => {},
    }
    let mut i: usize = 0;
    while i < 32
        invariant
            i <= 32,
            old(record)@.data.len() >= WRITABLE_START_INDEX,
            record.data@.len() == old(record)@.data.len(),
            record.data@[0] == old(record)@.data[0],
            forall|j: int| 1 <= j < 1 + i ==> record.data@[j] == new_authority@.key[j - 1],
            forall|j: int|
                1 + i <= j < record.data@.len() ==> record.data@[j] == old(record)@.data[j],
            record.key == old(record).key,
            record.is_signer == old(record).is_signer,
            record.is_writable == old(record).is_writable,
            record.lamports == old(record).lamports,
        decreases 32 - i,
    {
        record.data[1 + i] = new_authority.key.0[i];
        i += 1;
    }
    proof {
        let v = set_authority_outcome(old(record)@, authority@, new_authority@)->Ok_0;
        assert(record.data@ =~= splice(old(record)@.data, 1, new_authority@.key));
        assert(record@ =~= v);
    }
    Ok(())
}

/// Destroys the record: moves its entire lamport balance to the recipient
/// and zeroes the whole buffer. The host considers the account destroyed
/// afterwards; re-initialization would need external re-creation.
pub fn process_close_account(
    record: &mut AccountView,
    authority: &AccountView,
    recipient: &mut AccountView,
) -> (r: Result<(), ProgramFailure>)
    requires
        old(record)@.is_writable,
        old(recipient)@.is_writable,
    ensures
        match close_outcome(old(record)@, authority@, old(recipient)@) {
            Ok(pair) => r == Ok::<(), ProgramFailure>(())
                && final(record)@ == pair.0
                && final(recipient)@ == pair.1,
            Err(e) => r == Err::<(), ProgramFailure>(e)
                && *final(record) == *old(record)
                && *final(recipient) == *old(recipient),
        },
{
    if record.data.len() < WRITABLE_START_INDEX {
        return Err(ProgramFailure::InvalidAccountData);
    }
    if !record_is_initialized(&record.data) {
        return Err(ProgramFailure::UninitializedAccount);
    }
    match check_authority(&record.data, authority) {
        Err(e) => {
            return Err(e);
        },
        Ok(()) => {},
    }
    let new_lamports = match recipient.lamports.checked_add(record.lamports) {
        Some(v) => v,
        None => {
            return Err(ProgramFailure::from(RecordError::Overflow));
        },
    };
    recipient.lamports = new_lamports;
    record.lamports = 0;
    let mut i: usize = 0;
    while i < record.data.len()
        invariant
            i <= record.data@.len(),
            record.data@.len() == old(record)@.data.len(),
            forall|j: int| 0 <= j < i ==> record.data@[j] == 0,
            forall|j: int|
                i <= j < record.data@.len() ==> record.data@[j] == old(record)@.data[j],
            record.key == old(record).key,
            record.is_signer == old(record).is_signer,
            record.is_writable == old(record).is_writable,
            record.lamports == 0,
        decreases record.data@.len() - i,
    {
        record.data[i] = 0;
        i += 1;
    }
    proof {
        let pair = close_outcome(old(record)@, authority@, old(recipient)@)->Ok_0;
        assert(record.data@ =~= zero_seq(old(record)@.data.len() as int));
        assert(record@ =~= pair.0);
        assert(recipient@ =~= pair.1);
    }
    Ok(())
}

/// Resizes the record's data region to `data_length` bytes: zero-fills the
/// newly exposed bytes on growth, truncates on shrink, and keeps the
/// retained prefix unchanged either way.
pub fn process_reallocate(
    record: &mut AccountView,
    authority: &AccountView,
    data_length: u64,
) -> (r: Result<(), ProgramFailure>)
    requires
        old(record)@.is_writable,
    ensures
        match reallocate_outcome(old(record)@, authority@, data_length) {
            Ok(v) => r == Ok::<(), ProgramFailure>(()) && final(record)@ == v,
            Err(e) => r == Err::<(), ProgramFailure>(e) && *final(record) == *old(record),
        },
{
    if record.data.len() < WRITABLE_START_INDEX {
        return Err(ProgramFailure::InvalidAccountData);
    }
    if !record_is_initialized(&record.data) {
        return Err(ProgramFailure::UninitializedAccount);
    }
    match check_authority(&record.data, authority) {
        Err(e) => {
            return Err(e);
        },
        Ok(()) => {},
    }
    if data_length > (usize::MAX - WRITABLE_START_INDEX) as u64 {
        return Err(ProgramFailure::from(RecordError::Overflow));
    }
    let new_len = WRITABLE_START_INDEX + data_length as usize;
    let ghost v = reallocate_outcome(old(record)@, authority@, data_length)->Ok_0;
    if new_len <= record.data.len() {
        record.data.truncate(new_len);
        proof {
            assert(record@ =~= v);
        }
    } else {
        while record.data.len() < new_len
            invariant
                old(record)@.data.len() <= record.data@.len() <= new_len,
                record.data@.subrange(0, old(record)@.data.len() as int) == old(record)@.data,
                forall|j: int|
                    old(record)@.data.len() <= j < record.data@.len() ==> record.data@[j] == 0,
                record.key == old(record).key,
                record.is_signer == old(record).is_signer,
                record.is_writable == old(record).is_writable,
                record.lamports == old(record).lamports,
            decreases new_len - record.data@.len(),
        {
            record.data.push(0);
            proof {
                assert(record.data@.subrange(0, old(record)@.data.len() as int) =~= old(
                    record,
                )@.data);
            }
        }
        proof {
            assert(record.data@ =~= old(record)@.data + zero_seq(
                new_len - old(record)@.data.len(),
            ));
            assert(record@ =~= v);
        }
    }
    Ok(())
}

/// How many accounts each instruction needs, in their fixed positions:
/// the record first, then the authority, then (for `SetAuthority`) the new
/// authority or (for `CloseAccount`) the recipient.
pub open spec fn required_accounts(ins: InstructionVal) -> int {
    match ins {
        InstructionVal::Initialize => 2,
        InstructionVal::Write { .. } => 2,
        InstructionVal::SetAuthority => 3,
        InstructionVal::CloseAccount => 3,
        InstructionVal::Reallocate { .. } => 2,
    }
}

/// The mathematical values of a sequence of account views.
pub open spec fn views_of(accs: Seq<AccountView>) -> Seq<AccountVal> {
    accs.map_values(|a: AccountView| a@)
}

/// The accounts an instruction mutates must be marked writable: the record
/// always, and the recipient for `CloseAccount`.
pub open spec fn writable_ok(accs: Seq<AccountVal>, ins: InstructionVal) -> bool {
    accs.len() >= required_accounts(ins) ==> {
        &&& accs[0].is_writable
        &&& ins is CloseAccount ==> accs[2].is_writable
    }
}

/// What one decoded instruction does to the account list.
pub open spec fn instruction_outcome(accs: Seq<AccountVal>, ins: InstructionVal) -> Result<
    Seq<AccountVal>,
    ProgramFailure,
>
    recommends
        accs.len() >= required_accounts(ins),
{
    match ins {
        InstructionVal::Initialize => match initialize_outcome(accs[0], accs[1]) {
            Ok(rec) => Ok(accs.update(0, rec)),
            Err(e) => Err(e),
        },
        InstructionVal::Write { offset, data } => match write_outcome(
            accs[0],
            accs[1],
            offset,
            data,
        ) {
            Ok(rec) => Ok(accs.update(0, rec)),
            Err(e) => Err(e),
        },
        InstructionVal::SetAuthority => match set_authority_outcome(accs[0], accs[1], accs[2]) {
            Ok(rec) => Ok(accs.update(0, rec)),
            Err(e) => Err(e),
        },
        InstructionVal::CloseAccount => match close_outcome(accs[0], accs[1], accs[2]) {
            Ok(pair) => Ok(accs.update(0, pair.0).update(2, pair.1)),
            Err(e) => Err(e),
        },
        InstructionVal::Reallocate { data_length } => match reallocate_outcome(
            accs[0],
            accs[1],
            data_length,
        ) {
            Ok(rec) => Ok(accs.update(0, rec)),
            Err(e) => Err(e),
        },
    }
}

/// What one raw invocation does: decode the instruction buffer, check the
/// account count, and apply the instruction. On any failure the accounts
/// are exactly as they were.
pub open spec fn process_outcome(accs: Seq<AccountVal>, input: Seq<u8>) -> Result<
    Seq<AccountVal>,
    ProgramFailure,
> {
    match decode(input) {
        None => Err(ProgramFailure::InvalidInstructionData),
        Some(ins) => if accs.len() < required_accounts(ins) {
            Err(ProgramFailure::NotEnoughAccountKeys)
        } else {
            instruction_outcome(accs, ins)
        },
    }
}

/// The host entry contract: one instruction, processed to completion
/// against the account list, exactly as [`process_outcome`] states.
pub fn process_instruction(accounts: &mut Vec<AccountView>, input: &[u8]) -> (r: Result<
    (),
    ProgramFailure,
>)
    requires
        decode(input@) is Some ==> writable_ok(
            views_of(old(accounts)@),
            decode(input@)->Some_0,
        ),
    ensures
        match process_outcome(views_of(old(accounts)@), input@) {
            Ok(s) => r == Ok::<(), ProgramFailure>(()) && views_of(final(accounts)@) == s,
            Err(e) => r == Err::<(), ProgramFailure>(e) && final(accounts)@ == old(accounts)@,
        },
{
    let ins = match RecordInstruction::unpack(input) {
        Ok(ins) => ins,
        Err(e) => {
            return Err(e);
        },
    };
    match ins {
        RecordInstruction::Initialize => {
            if accounts.len() < 2 {
                return Err(ProgramFailure::NotEnoughAccountKeys);
            }
            let mut record = accounts.remove(0);
            let authority = accounts.remove(0);
            let res = process_initialize(&mut record, &authority);
            accounts.insert(0, authority);
            accounts.insert(0, record);
            proof {
                lemma_two_accounts_back(old(accounts)@, accounts@, record, authority);
            }
            res
        },
        RecordInstruction::Write { offset, data } => {
            if accounts.len() < 2 {
                return Err(ProgramFailure::NotEnoughAccountKeys);
            }
            let mut record = accounts.remove(0);
            let authority = accounts.remove(0);
            let res = process_write(&mut record, &authority, offset, &data);
            accounts.insert(0, authority);
            accounts.insert(0, record);
            proof {
                lemma_two_accounts_back(old(accounts)@, accounts@, record, authority);
            }
            res
        },
        RecordInstruction::SetAuthority => {
            if accounts.len() < 3 {
                return Err(ProgramFailure::NotEnoughAccountKeys);
            }
            let mut record = accounts.remove(0);
            let authority = accounts.remove(0);
            let new_authority = accounts.remove(0);
            let res = process_set_authority(&mut record, &authority, &new_authority);
            accounts.insert(0, new_authority);
            accounts.insert(0, authority);
            accounts.insert(0, record);
            proof {
                lemma_three_accounts_back(
                    old(accounts)@,
                    accounts@,
                    record,
                    authority,
                    new_authority,
                );
            }
            res
        },
        RecordInstruction::CloseAccount => {
            if accounts.len() < 3 {
                return Err(ProgramFailure::NotEnoughAccountKeys);
            }
            let mut record = accounts.remove(0);
            let authority = accounts.remove(0);
            let mut recipient = accounts.remove(0);
            let res = process_close_account(&mut record, &authority, &mut recipient);
            accounts.insert(0, recipient);
            accounts.insert(0, authority);
            accounts.insert(0, record);
            proof {
                lemma_three_accounts_back(old(accounts)@, accounts@, record, authority, recipient);
            }
            res
        },
        RecordInstruction::Reallocate { data_length } => {
            if accounts.len() < 2 {
                return Err(ProgramFailure::NotEnoughAccountKeys);
            }
            let mut record = accounts.remove(0);
            let authority = accounts.remove(0);
            let res = process_reallocate(&mut record, &authority, data_length);
            accounts.insert(0, authority);
            accounts.insert(0, record);
            proof {
                lemma_two_accounts_back(old(accounts)@, accounts@, record, authority);
            }
            res
        },
    }
}

/// Initializing a fresh account: on any all-zero buffer of at least header
/// size, `Initialize` succeeds; afterwards the version byte is
/// `CURRENT_VERSION`, the stored authority equals the supplied account's
/// key, and the data region is all-zero of length `len - 33`.
pub proof fn lemma_initialize_fresh(rec: AccountVal, authority: AccountVal)
    requires
        rec.data.len() >= WRITABLE_START_INDEX,
        authority.key.len() == 32,
        forall|i: int| 0 <= i < rec.data.len() ==> rec.data[i] == 0,
    ensures
        initialize_outcome(rec, authority) matches Ok(v) && {
            &&& v.data.len() == rec.data.len()
            &&& version_of(v.data) == CURRENT_VERSION
            &&& authority_of(v.data) == authority.key
            &&& payload_of(v.data).len() == rec.data.len() - WRITABLE_START_INDEX
            &&& forall|i: int| 0 <= i < payload_of(v.data).len() ==> payload_of(v.data)[i] == 0
        },
{
    let v = initialize_outcome(rec, authority)->Ok_0;
    assert(authority_of(v.data) =~= authority.key);
    assert(payload_of(v.data) =~= payload_of(rec.data));
}

/// Write read-back: a `Write` within bounds by the stored authority as
/// signer succeeds, the addressed range of the data region then holds
/// exactly the written bytes, and every byte outside that range — the rest
/// of the data region, the version, and the authority — is unchanged.
pub proof fn lemma_write_read_back(
    rec: AccountVal,
    authority: AccountVal,
    offset: u64,
    data: Seq<u8>,
)
    requires
        well_sized(rec.data),
        rec.data.len() <= usize::MAX,
        is_initialized(rec.data),
        authority.is_signer,
        authority.key == authority_of(rec.data),
        offset + data.len() <= rec.data.len() - WRITABLE_START_INDEX,
    ensures
        write_outcome(rec, authority, offset, data) matches Ok(v) && {
            &&& v.data.len() == rec.data.len()
            &&& payload_of(v.data).subrange(offset as int, offset + data.len()) == data
            &&& forall|i: int|
                0 <= i < payload_of(v.data).len() && !(offset <= i < offset + data.len())
                    ==> payload_of(v.data)[i] == payload_of(rec.data)[i]
            &&& version_of(v.data) == version_of(rec.data)
            &&& authority_of(v.data) == authority_of(rec.data)
        },
{
    let v = write_outcome(rec, authority, offset, data)->Ok_0;
    assert(payload_of(v.data).subrange(offset as int, offset + data.len()) =~= data);
    assert(authority_of(v.data) =~= authority_of(rec.data));
}

/// Unauthorized writes: a `Write` whose presented authority signed but
/// whose key differs from the stored authority fails with
/// `IncorrectAuthority`; one whose presented authority did not sign fails
/// with `MissingRequiredSignature`. (On failure the handler leaves the
/// account byte-for-byte unchanged, as its contract states.)
pub proof fn lemma_write_unauthorized(
    rec: AccountVal,
    authority: AccountVal,
    offset: u64,
    data: Seq<u8>,
)
    requires
        well_sized(rec.data),
        is_initialized(rec.data),
    ensures
        authority.is_signer && authority.key != authority_of(rec.data) ==> write_outcome(
            rec,
            authority,
            offset,
            data,
        ) == Err::<AccountVal, ProgramFailure>(record_failure(RecordError::IncorrectAuthority)),
        !authority.is_signer ==> write_outcome(rec, authority, offset, data) == Err::<
            AccountVal,
            ProgramFailure,
        >(ProgramFailure::MissingRequiredSignature),
{
}

/// Initializing twice: after a successful `Initialize`, a second
/// `Initialize` fails with `AccountAlreadyInitialized`. (The failed call
/// leaves the account exactly as the first left it, as the handler's
/// contract states.)
pub proof fn lemma_initialize_twice(rec: AccountVal, first: AccountVal, second: AccountVal)
    requires
        rec.data.len() >= WRITABLE_START_INDEX,
        !is_initialized(rec.data),
        first.key.len() == 32,
    ensures
        initialize_outcome(rec, first) matches Ok(v) && initialize_outcome(v, second) == Err::<
            AccountVal,
            ProgramFailure,
        >(ProgramFailure::AccountAlreadyInitialized),
{
}

/// Reallocate round trip: growing the data region and then shrinking it
/// back to its original length zero-fills the grown region in between and
/// restores the buffer to exactly its original bytes.
pub proof fn lemma_reallocate_round_trip(rec: AccountVal, authority: AccountVal, grown: u64)
    requires
        well_sized(rec.data),
        rec.data.len() <= usize::MAX,
        is_initialized(rec.data),
        authority.is_signer,
        authority.key == authority_of(rec.data),
        rec.data.len() - WRITABLE_START_INDEX <= grown,
        WRITABLE_START_INDEX + grown <= usize::MAX,
    ensures
        reallocate_outcome(rec, authority, grown) matches Ok(v1) && {
            &&& v1.data.len() == WRITABLE_START_INDEX + grown
            &&& v1.data.subrange(0, rec.data.len() as int) == rec.data
            &&& forall|i: int| rec.data.len() <= i < v1.data.len() ==> v1.data[i] == 0
            &&& reallocate_outcome(
                v1,
                authority,
                (rec.data.len() - WRITABLE_START_INDEX) as u64,
            ) == Ok::<AccountVal, ProgramFailure>(rec)
        },
{
    let v1 = reallocate_outcome(rec, authority, grown)->Ok_0;
    if grown == rec.data.len() - WRITABLE_START_INDEX {
        assert(v1.data =~= rec.data.subrange(0, rec.data.len() as int));
        assert(rec.data.subrange(0, rec.data.len() as int) =~= rec.data);
    }
    assert(v1.data.subrange(0, rec.data.len() as int) =~= rec.data);
    assert(is_initialized(v1.data));
    assert(authority_of(v1.data) =~= authority_of(rec.data));
    let back = (rec.data.len() - WRITABLE_START_INDEX) as u64;
    let v2 = reallocate_outcome(v1, authority, back)->Ok_0;
    assert(v2.data =~= rec.data);
    assert(v2 =~= rec);
}

/// Re-keying: after `SetAuthority` hands the record to a new key, the
/// guard — and with it `Write`, `CloseAccount`, and `SetAuthority` — fails
/// with `IncorrectAuthority` for a signer holding the old key, and
/// succeeds for a signer holding the new key (given each operation's own
/// arithmetic and capacity conditions).
pub proof fn lemma_set_authority_rekeys(
    rec: AccountVal,
    authority: AccountVal,
    new_authority: AccountVal,
    old_signer: AccountVal,
    new_signer: AccountVal,
)
    requires
        well_sized(rec.data),
        rec.data.len() <= usize::MAX,
        is_initialized(rec.data),
        authority.is_signer,
        authority.key == authority_of(rec.data),
        new_authority.key.len() == 32,
        new_authority.key != authority_of(rec.data),
        old_signer.is_signer,
        old_signer.key == authority_of(rec.data),
        new_signer.is_signer,
        new_signer.key == new_authority.key,
    ensures
        set_authority_outcome(rec, authority, new_authority) matches Ok(v) && {
            &&& authority_of(v.data) == new_authority.key
            &&& record_precheck(v) is None
            &&& forall|offset: u64, data: Seq<u8>|
                #[trigger] write_outcome(v, old_signer, offset, data) == Err::<
                    AccountVal,
                    ProgramFailure,
                >(record_failure(RecordError::IncorrectAuthority))
            &&& forall|recipient: AccountVal|
                #[trigger] close_outcome(v, old_signer, recipient) == Err::<
                    (AccountVal, AccountVal),
                    ProgramFailure,
                >(record_failure(RecordError::IncorrectAuthority))
            &&& forall|next: AccountVal|
                #[trigger] set_authority_outcome(v, old_signer, next) == Err::<
                    AccountVal,
                    ProgramFailure,
                >(record_failure(RecordError::IncorrectAuthority))
            &&& forall|offset: u64, data: Seq<u8>|
                offset + data.len() <= v.data.len() - WRITABLE_START_INDEX ==> #[trigger]
                    write_outcome(v, new_signer, offset, data) is Ok
            &&& forall|recipient: AccountVal|
                recipient.lamports + v.lamports <= u64::MAX ==> #[trigger] close_outcome(
                    v,
                    new_signer,
                    recipient,
                ) is Ok
            &&& forall|next: AccountVal| #[trigger] set_authority_outcome(v, new_signer, next) is Ok
        },
{
    let v = set_authority_outcome(rec, authority, new_authority)->Ok_0;
    assert(authority_of(v.data) =~= new_authority.key);
    assert(is_initialized(v.data));
}

/// Closing drains the balance: a `CloseAccount` by the stored authority as
/// signer moves the record's entire lamport balance to the recipient,
/// leaves the record with zero lamports, and zeroes its whole buffer.
pub proof fn lemma_close_account_drains(
    rec: AccountVal,
    authority: AccountVal,
    recipient: AccountVal,
)
    requires
        well_sized(rec.data),
        is_initialized(rec.data),
        authority.is_signer,
        authority.key == authority_of(rec.data),
        recipient.lamports + rec.lamports <= u64::MAX,
    ensures
        close_outcome(rec, authority, recipient) matches Ok(pair) && {
            &&& pair.1.lamports == recipient.lamports + rec.lamports
            &&& pair.0.lamports == 0
            &&& pair.0.data.len() == rec.data.len()
            &&& forall|i: int| 0 <= i < pair.0.data.len() ==> pair.0.data[i] == 0
        },
{
}

/// Write overflow: a `Write` whose `offset + data.len()` overflows the
/// integer width fails with `Overflow`, whatever the record's capacity.
/// (On failure the handler leaves the account byte-for-byte unchanged, as
/// its contract states.)
pub proof fn lemma_write_overflow(
    rec: AccountVal,
    authority: AccountVal,
    offset: u64,
    data: Seq<u8>,
)
    requires
        well_sized(rec.data),
        is_initialized(rec.data),
        authority.is_signer,
        authority.key == authority_of(rec.data),
        offset + data.len() > u64::MAX,
    ensures
        write_outcome(rec, authority, offset, data) == Err::<AccountVal, ProgramFailure>(
            record_failure(RecordError::Overflow),
        ),
{
}

/// The version byte has exactly two writers: on success `Initialize` sets
/// it to `CURRENT_VERSION` and `CloseAccount` zeroes it along with the
/// rest of the buffer; `Write`, `SetAuthority`, and `Reallocate` leave it
/// unchanged. A committed record's version byte is therefore always 0 or
/// `CURRENT_VERSION`.
pub proof fn lemma_version_byte_writers(
    rec: AccountVal,
    authority: AccountVal,
    new_authority: AccountVal,
    recipient: AccountVal,
    offset: u64,
    data: Seq<u8>,
    data_length: u64,
)
    requires
        well_sized(rec.data),
    ensures
        initialize_outcome(rec, authority) matches Ok(v) ==> version_of(v.data)
            == CURRENT_VERSION,
        write_outcome(rec, authority, offset, data) matches Ok(v) ==> version_of(v.data)
            == version_of(rec.data),
        set_authority_outcome(rec, authority, new_authority) matches Ok(v) ==> version_of(v.data)
            == version_of(rec.data),
        close_outcome(rec, authority, recipient) matches Ok(pair) ==> version_of(pair.0.data)
            == 0,
        reallocate_outcome(rec, authority, data_length) matches Ok(v) ==> version_of(v.data)
            == version_of(rec.data),
{
}

/// Taking the first two accounts out and putting them back in order leaves
/// a list that differs from the original in its first element alone.
proof fn lemma_two_accounts_back(
    orig: Seq<AccountView>,
    now: Seq<AccountView>,
    first: AccountView,
    second: AccountView,
)
    requires
        orig.len() >= 2,
        second == orig[1],
        now == orig.remove(0).remove(0).insert(0, second).insert(0, first),
    ensures
        now == orig.update(0, first),
        views_of(now) == views_of(orig).update(0, first@),
{
    assert(now =~= orig.update(0, first));
    assert(views_of(now) =~= views_of(orig).update(0, first@));
}

/// Taking the first three accounts out and putting them back in order
/// leaves a list that differs from the original in its first and third
/// elements alone.
proof fn lemma_three_accounts_back(
    orig: Seq<AccountView>,
    now: Seq<AccountView>,
    first: AccountView,
    second: AccountView,
    third: AccountView,
)
    requires
        orig.len() >= 3,
        second == orig[1],
        now == orig.remove(0).remove(0).remove(0).insert(0, third).insert(0, second).insert(
            0,
            first,
        ),
    ensures
        now == orig.update(0, first).update(2, third),
        views_of(now) == views_of(orig).update(0, first@).update(2, third@),
{
    assert(now =~= orig.update(0, first).update(2, third));
    assert(views_of(now) =~= views_of(orig).update(0, first@).update(2, third@));
}

} // verus!


