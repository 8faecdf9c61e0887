//! A shielded value pool.
//!
//! Depositors lock a fixed denomination behind a commitment that is appended
//! to an incremental Merkle tree; withdrawers present a Groth16 proof that
//! they know one of the committed notes, and reveal its nullifier hash,
//! which a registry lets through exactly once.
//!
//! - `merkle_tree`: the commitment accumulator with its window of recent roots
//!   (`root_history`), modelled in `merkle_model`.
//! - `nullifier`: the exactly-once spend registry; `nullifier_bitmap` is a
//!   compact variant that can refuse unspent hashes on slot collisions.
//! - `groth16`: verifying keys, proofs and the public-input encoding.
//! - `pool`: a pool's configuration and its deposit and withdrawal steps.
//! - `poseidon` and `field`: the hash over the BN254 scalar field.

pub mod bytes;
pub mod errors;
pub mod field;
pub mod groth16;
pub mod merkle_model;
pub mod merkle_tree;
pub mod nullifier;
pub mod nullifier_bitmap;
pub mod pool;
pub mod poseidon;
pub mod root_history;
