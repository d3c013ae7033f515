//! Resumable commitment hashing and batched Merkle insertion for a private
//! deposit pool.
//!
//! A base commitment is checked, paid for and hashed into a commitment one
//! Poseidon round per step (`base_commitment`); commitments wait in a bounded
//! queue (`queue`); batches of them are hashed level by level and spliced
//! into the commitment tree (`batch`, `storage`), whose nodes are specified as
//! functions of its leaves (`merkle`).
pub mod base_commitment;
pub mod batch;
pub mod bytes;
pub mod error;
pub mod fields;
pub mod merkle;
pub mod poseidon;
pub mod queue;
pub mod storage;
pub mod warden;
