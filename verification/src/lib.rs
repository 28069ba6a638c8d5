//! Verified cores of a small suite of line- and datagram-oriented servers:
//! a broadcast chat room (membership registry, per-connection session
//! protocol, message rendering), a time-series price store, an integer
//! primality check, and a key/value request handler.
//!
//! All I/O lives outside this crate; the functions here are pure state
//! transformers with contracts.

pub mod kv;
pub mod laws;
pub mod prices;
pub mod prime_time;
pub mod room;
pub mod session;
pub mod text;
pub mod validate;
