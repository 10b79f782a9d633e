//! A sans-I/O engine for serving one block device over the NBD protocol
//! (fixed-newstyle negotiation and the simple request/reply transmission phase).
//!
//! The crate decides and encodes; it never touches a socket or a file. A caller
//! reads bytes from its transport, hands them in, performs the store operation
//! that the engine plans, and writes out the bytes that the engine returns.

pub mod bytes;
pub mod error;
pub mod export;
pub mod handshake;
pub mod session;
pub mod store;
pub mod transmission;
pub mod wire;
