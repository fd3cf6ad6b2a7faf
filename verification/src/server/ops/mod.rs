//! The decisions of the request handlers. Each handler asks for an operation on the
//! export, learns how it went, and answers; what it asks for and what it answers is
//! decided here.

pub mod ctrl;
pub mod data;
pub mod durability;
pub mod meta;
