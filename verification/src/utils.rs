//! Transport capability, stream helpers and the packet codec.

pub mod bytes;
pub mod hex;
pub mod io;
pub mod packet;
pub mod stream;
pub mod text;
