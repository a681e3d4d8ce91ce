//! Generation of BIP-39 style mnemonic recovery phrases.
//!
//! Entropy bytes are sized by a security level, drawn from the system's
//! secure random source, extended with a SHA-256 checksum, and encoded as
//! a sequence of words from the standard 2048-entry English wordlist.

pub mod bits;
pub mod encoder;
pub mod generate;

pub use encoder::{encode, Error, Mnemonic};
pub use generate::{generate_mnemonic, WordCount};
