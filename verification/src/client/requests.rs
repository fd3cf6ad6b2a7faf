//! The requests that a client sends, and their numbers.

use vstd::prelude::*;

use crate::common::frames::{
    CreateRequest, FsyncRequest, GetAttrRequest, LinkRequest, MkDirRequest, OpenRequest,
    PathRequest, PingRequest, ReadDirRequest, ReadRequest, ReleaseRequest, RenameRequest,
    SymlinkRequest, OP_CREATE, OP_FSYNC, OP_GET_ATTR, OP_LINK, OP_MKDIR, OP_OPEN, OP_PING,
    OP_READ, OP_READLINK, OP_READ_DIR, OP_RELEASE, OP_RENAME, OP_RMDIR, OP_STAT_FS,
    OP_SYMLINK, OP_UNLINK,
};
use crate::text::copy_of;

verus! {

/// The numbers of a client's requests: each gets the next one.
#[derive(Clone, Copy, Debug)]
pub struct RequestNumbers {
    pub next: u64,
}

impl RequestNumbers {
    /// The first number is the handshake's own.
    pub fn new() -> (res: Self)
        ensures
            res.next == 2,
    {
        RequestNumbers { next: 2 }
    }

    /// The number of the next request; the count wraps.
    pub fn next_seq(&mut self) -> (res: u64)
        ensures
            res == old(self).next,
            final(self).next == old(self).next.wrapping_add(1),
    {
        let seq: u64 = self.next;
        self.next = seq.wrapping_add(1);
        seq
    }
}

/// Ask for the attributes of a path.
pub fn getattr_request(seq: u64, path: &str) -> (res: GetAttrRequest)
    ensures
        res.op == OP_GET_ATTR,
        res.seq == seq,
        res.path@ == path@,
{
    GetAttrRequest {
        op: OP_GET_ATTR,
        seq,
        path: copy_of(path),
    }
}

/// Ask for the page of a listing behind `cursor` entries.
pub fn readdir_request(seq: u64, path: &str, cursor: u64) -> (res: ReadDirRequest)
    ensures
        res.op == OP_READ_DIR,
        res.seq == seq,
        res.path@ == path@,
        res.cursor == cursor,
{
    ReadDirRequest {
        op: OP_READ_DIR,
        seq,
        path: copy_of(path),
        cursor,
    }
}

/// Ask for a new directory.
pub fn mkdir_request(seq: u64, path: &str, mode: u32) -> (res: MkDirRequest)
    ensures
        res.op == OP_MKDIR,
        res.seq == seq,
        res.path@ == path@,
        res.mode == mode,
{
    MkDirRequest {
        op: OP_MKDIR,
        seq,
        path: copy_of(path),
        mode,
    }
}

/// Ask for a directory to be removed.
pub fn rmdir_request(seq: u64, path: &str) -> (res: PathRequest)
    ensures
        res.op == OP_RMDIR,
        res.seq == seq,
        res.path@ == path@,
{
    PathRequest {
        op: OP_RMDIR,
        seq,
        path: copy_of(path),
    }
}

/// Ask for a file to be removed.
pub fn unlink_request(seq: u64, path: &str) -> (res: PathRequest)
    ensures
        res.op == OP_UNLINK,
        res.seq == seq,
        res.path@ == path@,
{
    PathRequest {
        op: OP_UNLINK,
        seq,
        path: copy_of(path),
    }
}

/// Ask for a rename.
pub fn rename_request(seq: u64, from: &str, to: &str, flags: u32) -> (res: RenameRequest)
    ensures
        res.op == OP_RENAME,
        res.seq == seq,
        res.old@ == from@,
        res.new@ == to@,
        res.flags == flags,
{
    RenameRequest {
        op: OP_RENAME,
        seq,
        old: copy_of(from),
        new: copy_of(to),
        flags,
    }
}

/// Ask for a symbolic link.
pub fn symlink_request(seq: u64, target: &str, link: &str) -> (res: SymlinkRequest)
    ensures
        res.op == OP_SYMLINK,
        res.seq == seq,
        res.target@ == target@,
        res.link@ == link@,
{
    SymlinkRequest {
        op: OP_SYMLINK,
        seq,
        target: copy_of(target),
        link: copy_of(link),
    }
}

/// Ask for a link's target.
pub fn readlink_request(seq: u64, path: &str) -> (res: PathRequest)
    ensures
        res.op == OP_READLINK,
        res.seq == seq,
        res.path@ == path@,
{
    PathRequest {
        op: OP_READLINK,
        seq,
        path: copy_of(path),
    }
}

/// Ask for a hard link.
pub fn link_request(seq: u64, path: &str, link: &str) -> (res: LinkRequest)
    ensures
        res.op == OP_LINK,
        res.seq == seq,
        res.path@ == path@,
        res.link@ == link@,
{
    LinkRequest {
        op: OP_LINK,
        seq,
        path: copy_of(path),
        link: copy_of(link),
    }
}

/// Ask about the filesystem that holds a path.
pub fn statfs_request(seq: u64, path: &str) -> (res: PathRequest)
    ensures
        res.op == OP_STAT_FS,
        res.seq == seq,
        res.path@ == path@,
{
    PathRequest {
        op: OP_STAT_FS,
        seq,
        path: copy_of(path),
    }
}

/// Ask for a file to be opened.
pub fn open_request(seq: u64, path: &str, flags: u32) -> (res: OpenRequest)
    ensures
        res.op == OP_OPEN,
        res.seq == seq,
        res.path@ == path@,
        res.flags == flags,
{
    OpenRequest {
        op: OP_OPEN,
        seq,
        path: copy_of(path),
        flags,
    }
}

/// Ask for a file to be created and opened.
pub fn create_request(seq: u64, path: &str, flags: u32, mode: u32) -> (res: CreateRequest)
    ensures
        res.op == OP_CREATE,
        res.seq == seq,
        res.path@ == path@,
        res.flags == flags,
        res.mode == mode,
{
    CreateRequest {
        op: OP_CREATE,
        seq,
        path: copy_of(path),
        flags,
        mode,
    }
}

/// Give a handle back.
pub fn release_request(seq: u64, handle: u64) -> (res: ReleaseRequest)
    ensures
        res.op == OP_RELEASE,
        res.seq == seq,
        res.handle == handle,
{
    ReleaseRequest {
        op: OP_RELEASE,
        seq,
        handle,
    }
}

/// Ask for bytes of a file.
pub fn read_request(seq: u64, handle: u64, offset: u64, length: u32) -> (res: ReadRequest)
    ensures
        res.op == OP_READ,
        res.seq == seq,
        res.handle == handle,
        res.offset == offset,
        res.length == length,
{
    ReadRequest {
        op: OP_READ,
        seq,
        handle,
        offset,
        length,
    }
}

/// Ask for a file to be forced to disk.
pub fn fsync_request(seq: u64, handle: u64, datasync: bool) -> (res: FsyncRequest)
    ensures
        res.op == OP_FSYNC,
        res.seq == seq,
        res.handle == handle,
        res.datasync == datasync,
{
    FsyncRequest {
        op: OP_FSYNC,
        seq,
        handle,
        datasync,
    }
}

/// Ask for a sign of life.
pub fn ping_request(seq: u64) -> (res: PingRequest)
    ensures
        res.op == OP_PING,
        res.seq == seq,
{
    PingRequest {
        op: OP_PING,
        seq,
    }
}

} // verus!
