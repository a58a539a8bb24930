//! The JSON-RPC tool server: requests, tool arguments and responses.

pub mod json;
pub mod tools;
pub mod server;
pub mod payload;
pub mod wire;
