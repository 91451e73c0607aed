//! Key agreement, key derivation, the session cipher and signing keys.

pub mod dh;
pub mod encryption;
pub mod keys;
