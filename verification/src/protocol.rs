//! The phases of the handshake and the encrypted session.

pub mod client_auth;
pub mod handshake;
pub mod key_exchange;
pub mod server_auth;
pub mod session;
pub mod version;
