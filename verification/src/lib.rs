//! QuicFS: the verified core of a remote filesystem that speaks RPCs over QUIC.
//!
//! The crate holds the data structures, the codecs and the decisions of the
//! client and of the server. Sockets, files and the FUSE session live around it
//! and hand it plain values.

pub mod client;
pub mod common;
pub mod consistency;
pub mod image;
pub mod path;
pub mod random;
pub mod server;
pub mod text;
pub mod time;
