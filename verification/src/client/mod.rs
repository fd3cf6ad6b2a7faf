//! The mounting side: buffers, caches and the decisions of the FUSE client.

pub mod cache;
pub mod cli;
pub mod conn;
pub mod errno;
pub mod fileops;
pub mod fs;
pub mod fuse_ops;
pub mod inodes;
pub mod mount;
pub mod requests;
pub mod verify;
pub mod writeback;
pub mod writebuf;
