//! A verified mirror of an on-chain identity-commitment Merkle tree: batch
//! decoding, versioned tree history with inclusion proofs, block-range
//! scanning, RPC retry classification and per-bridge relay decisions.

pub mod bridge;
pub mod decode;
pub mod hash;
pub mod merkle;
pub mod retry;
pub mod scanner;
pub mod service;
pub mod tree;
pub mod updater;
