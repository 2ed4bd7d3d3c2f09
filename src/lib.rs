//! A Bitcoin SPV relay: block header parsing and validation, a store of
//! competing chains with fork choice and reorganisation, Merkle inclusion
//! proofs, and the transaction format checks that ride on top of them.
pub mod types;
pub mod hashing;
pub mod error;
pub mod header;
pub mod difficulty;
pub mod parser;
pub mod transaction;
pub mod payment;
pub mod merkle;
pub mod security;
pub mod chain;
pub mod relay;
pub mod reorg;
pub mod flags;
pub mod inclusion;
pub mod harness;
pub mod laws;

