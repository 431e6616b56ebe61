//! Nullifiers with a canonical 32-byte encoding, the domain separator they are
//! derived under, and one-shot Diffie-Hellman key agreement over decaf377.

pub mod encoding;
pub mod key_agreement;
pub mod nullifier;
