//! Error taxonomy surfaced by the record program.

use vstd::prelude::*;

verus! {

/// Failures the record program itself defines. They travel to the host on
/// its custom-error channel, under the code given by [`record_error_code`].
#[derive(Clone, Copy, Debug, PartialEq, Eq, Structural)]
pub enum RecordError {
    /// Incorrect authority provided on update or delete.
    IncorrectAuthority,
    /// Calculation overflow.
    Overflow,
}

/// The host's general-purpose error channel, as the processor reports into
/// it: the generic host-level conditions the processor relies on, plus
/// `Custom` for the program's own [`RecordError`] codes.
#[derive(Clone, Copy, Debug, PartialEq, Eq, Structural)]
pub enum ProgramFailure {
    /// A required signer did not sign the transaction.
    MissingRequiredSignature,
    /// `Initialize` was asked to initialize an already-initialized record.
    AccountAlreadyInitialized,
    /// A mutating instruction was asked to act on an uninitialized record.
    UninitializedAccount,
    /// The instruction names fewer accounts than it needs.
    NotEnoughAccountKeys,
    /// The instruction buffer does not decode to any instruction.
    InvalidInstructionData,
    /// The record buffer is too short to hold the record header.
    InvalidAccountData,
    /// A write would run past the end of the record's data region.
    AccountDataTooSmall,
    /// A program-defined error, carried as its numeric code.
    Custom(u32),
}

/// The numeric code under which a [`RecordError`] travels in
/// [`ProgramFailure::Custom`].
pub open spec fn record_error_code(e: RecordError) -> u32 {
    match e {
        RecordError::IncorrectAuthority => 0,
        RecordError::Overflow => 1,
    }
}

impl From<RecordError> for ProgramFailure {
    fn from(e: RecordError) -> (r: Self) {
        match e {
            RecordError::IncorrectAuthority => ProgramFailure::Custom(0),
            RecordError::Overflow => ProgramFailure::Custom(1),
        }
    }
}

impl vstd::std_specs::convert::FromSpecImpl<RecordError> for ProgramFailure {
    open spec fn obeys_from_spec() -> bool {
        true
    }

    open spec fn from_spec(e: RecordError) -> Self {
        ProgramFailure::Custom(record_error_code(e))
    }
}

} // verus!
