//! An educational SSH-like secure channel: version exchange, ephemeral
//! key agreement, host-key pinning, client authentication and an
//! authenticated-encrypted message session, over any byte transport.

pub mod client;
pub mod crypto;
pub mod error;
pub mod protocol;
pub mod server;
pub mod utils;
