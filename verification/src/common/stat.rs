//! File and filesystem attributes sent over the wire.

use vstd::prelude::*;

verus! {

/// POSIX-approximate stat structure. All times are nanoseconds since the Unix epoch.
#[derive(Debug, Clone, Copy, PartialEq, Eq, Structural)]
pub struct Stat {
    pub ino: u64,
    pub mode: u32,
    pub nlink: u32,
    pub uid: u32,
    pub gid: u32,
    pub size: u64,
    pub atime: i64,
    pub mtime: i64,
    pub ctime: i64,
    pub blksz: u32,
    pub blocks: u64,
}

impl Stat {
    /// The attributes with every field zero.
    pub open spec fn zero() -> Stat {
        Stat {
            ino: 0,
            mode: 0,
            nlink: 0,
            uid: 0,
            gid: 0,
            size: 0,
            atime: 0,
            mtime: 0,
            ctime: 0,
            blksz: 0,
            blocks: 0,
        }
    }
}

impl Default for Stat {
    fn default() -> (res: Self)
        ensures
            res == Stat::zero(),
    {
        Stat {
            ino: 0,
            mode: 0,
            nlink: 0,
            uid: 0,
            gid: 0,
            size: 0,
            atime: 0,
            mtime: 0,
            ctime: 0,
            blksz: 0,
            blocks: 0,
        }
    }
}

#[derive(Debug, Clone)]
pub struct DirEntry {
    pub name: String,
    pub ino: u64,
    pub mode: u32,
}

/// Filesystem statistics.
#[derive(Debug, Clone, Copy, PartialEq, Eq, Structural)]
pub struct StatFs {
    pub blocks: u64,
    pub bfree: u64,
    pub bavail: u64,
    pub files: u64,
    pub ffree: u64,
    pub bsize: u32,
    pub namelen: u32,
    pub frsize: u32,
}

impl StatFs {
    /// The statistics with every field zero.
    pub open spec fn zero() -> StatFs {
        StatFs {
            blocks: 0,
            bfree: 0,
            bavail: 0,
            files: 0,
            ffree: 0,
            bsize: 0,
            namelen: 0,
            frsize: 0,
        }
    }
}

impl Default for StatFs {
    fn default() -> (res: Self)
        ensures
            res == StatFs::zero(),
    {
        StatFs {
            blocks: 0,
            bfree: 0,
            bavail: 0,
            files: 0,
            ffree: 0,
            bsize: 0,
            namelen: 0,
            frsize: 0,
        }
    }
}

} // verus!
