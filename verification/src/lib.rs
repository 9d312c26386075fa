//! A replicated chain-of-trust over an append-only redo log.
//!
//! A chain stores immutable events.  The trust pipeline stamps
//! signatures and encrypts payloads on the way in and validates and
//! decrypts on the way out; the redo log persists framed events; the
//! indexer materializes a queryable view of the latest record state;
//! the mesh session mirrors events between a client and a root replica.

pub mod bus;
pub mod chain;
pub mod codec;
pub mod compact;
pub mod crypto;
pub mod error;
pub mod event;
pub mod index;
pub mod mesh;
pub mod meta;
pub mod redo;
pub mod session;
pub mod tree;
pub mod transaction;

use vstd::prelude::*;

verus! {

/// A 128-bit identifier of a data object.
#[derive(Debug, Clone, Copy, PartialEq, Eq, Structural, Hash)]
pub struct PrimaryKey {
    pub val: u128,
}

impl PrimaryKey {
    pub fn new(val: u128) -> (r: PrimaryKey)
        ensures
            r.val == val,
    {
        PrimaryKey { val }
    }

    /// Draws a fresh random key for a new data object.
    pub fn generate() -> PrimaryKey {
        PrimaryKey { val: crate::crypto::random_u128() }
    }
}

} // verus!
