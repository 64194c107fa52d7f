use spl_record::error::ProgramFailure;
use spl_record::instruction::RecordInstruction;

#[test]
fn pack_initialize_exact_bytes() {
    assert_eq!(RecordInstruction::Initialize.pack(), vec![0u8]);
}

#[test]
fn pack_write_exact_bytes() {
    let ins = RecordInstruction::Write {
        offset: 258,
        data: vec![0xAB, 0xCD],
    };
    assert_eq!(
        ins.pack(),
        vec![1u8, 2, 1, 0, 0, 0, 0, 0, 0, 0xAB, 0xCD]
    );
}

#[test]
fn pack_set_authority_exact_bytes() {
    assert_eq!(RecordInstruction::SetAuthority.pack(), vec![2u8]);
}

#[test]
fn pack_close_account_exact_bytes() {
    assert_eq!(RecordInstruction::CloseAccount.pack(), vec![3u8]);
}

#[test]
fn pack_reallocate_exact_bytes() {
    let ins = RecordInstruction::Reallocate {
        data_length: u64::MAX,
    };
    assert_eq!(
        ins.pack(),
        vec![4u8, 255, 255, 255, 255, 255, 255, 255, 255]
    );
}

#[test]
fn unpack_round_trips_every_variant() {
    let cases = vec![
        RecordInstruction::Initialize,
        RecordInstruction::Write {
            offset: 0,
            data: Vec::new(),
        },
        RecordInstruction::Write {
            offset: u64::MAX,
            data: vec![1, 2, 3, 4, 5],
        },
        RecordInstruction::SetAuthority,
        RecordInstruction::CloseAccount,
        RecordInstruction::Reallocate { data_length: 0 },
        RecordInstruction::Reallocate {
            data_length: 0x0102030405060708,
        },
    ];
    for ins in cases {
        assert_eq!(RecordInstruction::unpack(&ins.pack()), Ok(ins));
    }
}

#[test]
fn unpack_empty_buffer_fails() {
    assert_eq!(
        RecordInstruction::unpack(&[]),
        Err(ProgramFailure::InvalidInstructionData)
    );
}

#[test]
fn unpack_unknown_discriminant_fails() {
    assert_eq!(
        RecordInstruction::unpack(&[5]),
        Err(ProgramFailure::InvalidInstructionData)
    );
}

#[test]
fn unpack_short_write_payload_fails() {
    // A `Write` needs 8 offset bytes after the discriminant.
    assert_eq!(
        RecordInstruction::unpack(&[1, 0, 0, 0, 0, 0, 0, 0]),
        Err(ProgramFailure::InvalidInstructionData)
    );
}

#[test]
fn unpack_short_reallocate_payload_fails() {
    assert_eq!(
        RecordInstruction::unpack(&[4, 1, 2, 3]),
        Err(ProgramFailure::InvalidInstructionData)
    );
}

#[test]
fn unpack_reallocate_ignores_trailing_bytes() {
    let r = RecordInstruction::unpack(&[4, 7, 0, 0, 0, 0, 0, 0, 0, 99, 99]);
    assert_eq!(r, Ok(RecordInstruction::Reallocate { data_length: 7 }));
}

#[test]
fn unpack_initialize_ignores_trailing_bytes() {
    let r = RecordInstruction::unpack(&[0, 42]);
    assert_eq!(r, Ok(RecordInstruction::Initialize));
}

#[test]
fn unpack_write_keeps_all_trailing_bytes() {
    let r = RecordInstruction::unpack(&[1, 9, 0, 0, 0, 0, 0, 0, 0, 10, 20, 30]);
    assert_eq!(
        r,
        Ok(RecordInstruction::Write {
            offset: 9,
            data: vec![10, 20, 30],
        })
    );
}
