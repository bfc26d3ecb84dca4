//! Integrity checking for a small file-sync service.
//!
//! A server keeps one aggregate value over the files it stores; a client that
//! trusts a baseline aggregate can check every file it gets back. Two
//! constructions are offered: a binary hash tree with sibling-path proofs and
//! a lane-wise additive digest with constant-size proofs.

pub mod bromberg_hash;
pub mod bytes;
pub mod client;
pub mod hex;
pub mod merkletree;
pub mod names;
pub mod protocol;
pub mod server;
pub mod store;
