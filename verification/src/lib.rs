//! Recovery of a plaintext from its one-way digest: leetspeak-style
//! substitution variants of dictionary words are generated lazily and each
//! variant's digest is compared against a target digest.

pub mod combinations;
pub mod hash;
pub mod search;
