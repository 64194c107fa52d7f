//! The record account model and the persisted record layout.
//!
//! A record account's state is one contiguous byte buffer:
//! `[version: 1 byte][authority: 32 bytes][data: rest]`. The host hands the
//! processor one view per account, exposing the account's key, signer and
//! writable flags, lamport balance, and that buffer.

use vstd::prelude::*;

verus! {

/// The version byte written by `Initialize`; any other value at byte 0 means
/// the record is not initialized.
pub const CURRENT_VERSION: u8 = 1;

/// Where the authority key starts in the buffer.
pub const AUTHORITY_START_INDEX: usize = 1;

/// Where the application data region starts in the buffer: one version byte
/// plus a 32-byte authority key.
pub const WRITABLE_START_INDEX: usize = 33;

/// A 32-byte public key, as the host addresses accounts.
#[derive(Clone, Copy, Debug)]
pub struct Pubkey(pub [u8; 32]);

impl View for Pubkey {
    type V = Seq<u8>;

    open spec fn view(&self) -> Seq<u8> {
        self.0@
    }
}

/// One account as the host presents it to the processor for the duration of
/// a single instruction: its key, the transaction's signer and writable
/// flags for it, its lamport balance, and its data buffer.
#[derive(Clone, Debug)]
pub struct AccountView {
    /// The account's address.
    pub key: Pubkey,
    /// Whether this account signed the enclosing transaction.
    pub is_signer: bool,
    /// Whether the transaction marked this account writable.
    pub is_writable: bool,
    /// The account's native balance.
    pub lamports: u64,
    /// The account's persisted byte buffer.
    pub data: Vec<u8>,
}

/// The mathematical value of an [`AccountView`].
#[verifier::ext_equal]
pub ghost struct AccountVal {
    pub key: Seq<u8>,
    pub is_signer: bool,
    pub is_writable: bool,
    pub lamports: u64,
    pub data: Seq<u8>,
}

impl View for AccountView {
    type V = AccountVal;

    open spec fn view(&self) -> AccountVal {
        AccountVal {
            key: self.key@,
            is_signer: self.is_signer,
            is_writable: self.is_writable,
            lamports: self.lamports,
            data: self.data@,
        }
    }
}

/// Whether the buffer is long enough to hold the record header. A shorter
/// buffer is never a valid initialized record.
pub open spec fn well_sized(buf: Seq<u8>) -> bool {
    buf.len() >= WRITABLE_START_INDEX
}

/// The record's version byte.
pub open spec fn version_of(buf: Seq<u8>) -> u8
    recommends
        well_sized(buf),
{
    buf[0]
}

/// The record's stored authority key.
pub open spec fn authority_of(buf: Seq<u8>) -> Seq<u8>
    recommends
        well_sized(buf),
{
    buf.subrange(AUTHORITY_START_INDEX as int, WRITABLE_START_INDEX as int)
}

/// The record's application data region.
pub open spec fn payload_of(buf: Seq<u8>) -> Seq<u8>
    recommends
        well_sized(buf),
{
    buf.subrange(WRITABLE_START_INDEX as int, buf.len() as int)
}

/// Whether the buffer holds an initialized record.
pub open spec fn is_initialized(buf: Seq<u8>) -> bool
    recommends
        well_sized(buf),
{
    version_of(buf) == CURRENT_VERSION
}

/// Byte-for-byte equality of two keys, as the authority guard compares them.
pub fn pubkey_eq(a: &Pubkey, b: &Pubkey) -> (r: bool)
    ensures
        r <==> a@ == b@,
{
    let mut i: usize = 0;
    while i < 32
        invariant
            i <= 32,
            forall|j: int| 0 <= j < i ==> a@[j] == b@[j],
        decreases 32 - i,
    {
        if a.0[i] != b.0[i] {
            return false;
        }
        i += 1;
    }
    proof {
        assert(a@ =~= b@);
    }
    true
}

/// Whether the buffer holds an initialized record, read from the account.
pub fn record_is_initialized(buf: &Vec<u8>) -> (r: bool)
    requires
        well_sized(buf@),
    ensures
        r == is_initialized(buf@),
{
    buf[0] == CURRENT_VERSION
}

} // verus!
