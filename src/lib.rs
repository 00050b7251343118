//! Recovery of the word order of a BIP-39 mnemonic from an unordered word set.
//!
//! The library holds the language heuristic, the address scheme resolver, the
//! permutation search and the per-candidate derivation pipeline.

pub mod text;

pub mod scheme;
pub mod language;
pub mod pipeline;
pub mod search;
