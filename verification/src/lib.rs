//! A small in-memory key-value server core: the RESP wire codec, the command
//! grammar, the store with lazy expiry, and the request dispatcher.
//!
//! Every function takes and returns plain values. Sockets, threads, the
//! lock around the store and the clock live with the caller.

pub mod ascii;
pub mod bytes;
pub mod command;
pub mod decode;
pub mod digits;
pub mod encode;
pub mod laws;
pub mod roundtrip;
pub mod server;
pub mod store;
pub mod value;
