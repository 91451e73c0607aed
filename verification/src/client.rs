//! The client side of a connection.

pub mod connection;
