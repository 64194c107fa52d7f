//! An on-chain record program: one account type holding an arbitrary byte
//! blob gated by a single authority key, with instructions to create,
//! overwrite, resize, re-key, and destroy that blob.
//!
//! The crate is pure logic over an explicit account model: the host runtime
//! hands each instruction a set of account views (key, signer flag, writable
//! flag, lamport balance, data buffer) and a raw instruction buffer, and the
//! processor either applies the requested mutation or fails with a specific
//! error, leaving every buffer untouched.

pub mod error;
pub mod instruction;
pub mod processor;
pub mod state;
