//! The exporting side: path confinement, handles, sessions and the handlers'
//! decisions.

pub mod auth;
pub mod config;
pub mod dispatch;
pub mod endpoint;
pub mod handles;
pub mod ipslots;
pub mod ops;
pub mod sanitize;
pub mod session;
pub mod verify;
pub mod writelock;
