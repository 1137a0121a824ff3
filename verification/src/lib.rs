//! Core of a metadata-resistant messaging substrate.
//!
//! A single user-level message is split into N ciphertext shares written to N
//! unlinkable storage addresses. The heart of the crate is the Magic Ratchet:
//! a Double Ratchet with header encryption for the content, N parallel
//! address ratchets whose per-step message keys are the storage addresses,
//! and a share-then-encrypt splitter (Shamir for the small header bundle,
//! contiguous blocks for the content).

use vstd::prelude::*;

pub mod address_ratchet;
pub mod aead;
pub mod bundle;
pub mod bytes;
pub mod dh;
pub mod enc_ratchet;
pub mod hashing;
pub mod header;
pub mod kdf;
pub mod magic;
mod rng;
pub mod session;
pub mod sharing;
pub mod state_codec;
pub mod wire;

verus! {

/// Ceiling on cached out-of-order message keys per receive chain.
pub const MAX_SKIP: u64 = 100;

} // verus!
