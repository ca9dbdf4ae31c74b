//! What a connection does with the bytes that arrive on it, and what the
//! listener does with a new connection.

pub mod connection;
pub mod frame;
pub mod listener;
pub mod registry;
