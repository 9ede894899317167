//! Per-block execution tracing for a zero-knowledge proving pipeline.
//!
//! For each committed block the library records every transaction's effects
//! (balance, nonce, storage, code, self-destruction), accumulates the set of
//! storage paths the block touched, assembles a partial Merkle-Patricia trie
//! witness from raw proof material, and keeps finished traces in a store keyed
//! by block hash and block number.
//!
//! The EVM itself, the chain's state provider and the witness primitive are
//! external collaborators: the host executes transactions and fetches proof
//! material, and hands this library plain values.

pub mod types;
pub mod error;
pub mod access;
pub mod codedb;
pub mod effects;
pub mod witness;
pub mod replay;
pub mod store;
