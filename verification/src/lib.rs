//! An append-only, tamper-evident ledger of transactions.
//!
//! Blocks are bound to their predecessors by a SHA-256 digest and admitted
//! through a proof-of-work search over the block nonce.
//!
//! - [`block`]: transactions and blocks, hashing and mining.
//! - [`blockchain`]: the chain, the pool of waiting transactions, sealing and
//!   validation, and the laws that hold of them.
//! - [`canonical`]: the text that a block's hash is computed over.
//! - [`encoding`]: decimal and hexadecimal renderings.
//! - [`command`]: the command language of the interactive prompt.
//! - [`outside`]: the calls into other crates, whose contracts are taken on
//!   trust.

pub mod block;
pub mod blockchain;
pub mod canonical;
pub mod command;
pub mod encoding;
pub mod outside;
