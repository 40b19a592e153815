//! Proof-of-replication and proof-of-spacetime drivers over a verified core:
//! field-safe byte handling, keyed parent sampling, sequential node encoding,
//! Merkle commitments and the batching of proofs.

pub mod error;
pub mod hash;
pub mod fr32;
pub mod graph;
pub mod drg;
pub mod merkle;
pub mod zigzag;
pub mod seal;
pub mod post;
pub mod multi_proof;
pub mod challenges;
