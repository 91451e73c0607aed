//! The server side of a connection.

pub mod handler;
