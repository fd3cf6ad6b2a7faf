//! What client and server share: the wire types, their codes, and key trust.

pub mod base64;
pub mod frames;
pub mod identity;
pub mod io;
pub mod stat;
pub mod status;
pub mod textmap;
pub mod trust;
