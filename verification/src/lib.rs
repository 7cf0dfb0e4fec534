//! A verified codec for the Baichuan ("BC") camera control protocol.
//!
//! The crate turns a byte stream into typed packets and back, and tracks the
//! per-connection state that packets reveal: the cipher negotiated during
//! login and the message numbers that carry opaque binary payloads.
//!
//! - `model`: the packet and its form on the wire, as mathematics.
//! - `ser`, `de`: writing and reading a packet.
//! - `xml`, `text`, `num`: the documents inside a packet and the bytes they
//!   are made of.
//! - `crypto`, `credentials`: the ciphers and the session key.
//! - `context`: the state of a connection.
//! - `codex`: the encoder and decoder of a connection.
//! - `laws`: what holds of all of it together.

pub mod codex;
pub mod context;
pub mod credentials;
pub mod crypto;
pub mod de;
pub mod error;
pub mod laws;
pub mod model;
pub mod num;
pub mod ser;
pub mod text;
pub mod xml;
