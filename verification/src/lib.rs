//! A verified core for a minimal RESP (REdis Serialization Protocol) key-value
//! server: a wire decoder from bytes to typed protocol values, a command
//! interpreter for PING, ECHO, GET and SET, and an in-memory store with lazy
//! per-key expiry. Network I/O lives outside this crate; callers feed the
//! decoder raw bytes and write the interpreter's reply bytes back.

pub mod data;
pub mod frames;
pub mod interpreter;
pub mod numbers;
pub mod parser;
pub mod reply;
pub mod store;
pub mod text;
pub mod time;
