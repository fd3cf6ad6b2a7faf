//! Routing of requests by their operation code.

use vstd::prelude::*;

use crate::common::frames::{
    Envelope, StatusResponse, OP_CREATE, OP_FSYNC, OP_GET_ATTR, OP_HANDSHAKE, OP_LINK, OP_MKDIR,
    OP_OPEN, OP_PING, OP_READ, OP_READLINK, OP_READ_DIR, OP_RELEASE, OP_RENAME, OP_RMDIR,
    OP_SET_ATTR, OP_STAT_FS, OP_SYMLINK, OP_UNLINK, OP_WRITE,
};
use crate::common::status::{status_code, Status};

verus! {

/// The handler that a request goes to.
#[derive(Debug, Clone, Copy, PartialEq, Eq, Structural)]
pub enum Route {
    Ping,
    GetAttr,
    SetAttr,
    ReadDir,
    MkDir,
    RmDir,
    Unlink,
    Rename,
    Symlink,
    ReadLink,
    Link,
    StatFs,
    Open,
    Release,
    Read,
    Write,
    Create,
    Fsync,
    /// No handler: reserved and unknown codes, and a handshake behind the first.
    Unhandled,
}

/// The code that a handler answers to.
pub open spec fn code_of(r: Route) -> Option<u8> {
    match r {
        Route::Ping => Some(OP_PING),
        Route::GetAttr => Some(OP_GET_ATTR),
        Route::SetAttr => Some(OP_SET_ATTR),
        Route::ReadDir => Some(OP_READ_DIR),
        Route::MkDir => Some(OP_MKDIR),
        Route::RmDir => Some(OP_RMDIR),
        Route::Unlink => Some(OP_UNLINK),
        Route::Rename => Some(OP_RENAME),
        Route::Symlink => Some(OP_SYMLINK),
        Route::ReadLink => Some(OP_READLINK),
        Route::Link => Some(OP_LINK),
        Route::StatFs => Some(OP_STAT_FS),
        Route::Open => Some(OP_OPEN),
        Route::Release => Some(OP_RELEASE),
        Route::Read => Some(OP_READ),
        Route::Write => Some(OP_WRITE),
        Route::Create => Some(OP_CREATE),
        Route::Fsync => Some(OP_FSYNC),
        Route::Unhandled => None,
    }
}

/// The handler for an operation code.
pub fn route(op: u8) -> (res: Route)
    ensures
        res != Route::Unhandled ==> code_of(res) == Some(op),
        res == Route::Unhandled ==> forall|r: Route| #[trigger] code_of(r) != Some(op),
{
    if op == OP_PING {
        Route::Ping
    } else if op == OP_GET_ATTR {
        Route::GetAttr
    } else if op == OP_SET_ATTR {
        Route::SetAttr
    } else if op == OP_READ_DIR {
        Route::ReadDir
    } else if op == OP_MKDIR {
        Route::MkDir
    } else if op == OP_RMDIR {
        Route::RmDir
    } else if op == OP_UNLINK {
        Route::Unlink
    } else if op == OP_RENAME {
        Route::Rename
    } else if op == OP_SYMLINK {
        Route::Symlink
    } else if op == OP_READLINK {
        Route::ReadLink
    } else if op == OP_LINK {
        Route::Link
    } else if op == OP_STAT_FS {
        Route::StatFs
    } else if op == OP_OPEN {
        Route::Open
    } else if op == OP_RELEASE {
        Route::Release
    } else if op == OP_READ {
        Route::Read
    } else if op == OP_WRITE {
        Route::Write
    } else if op == OP_CREATE {
        Route::Create
    } else if op == OP_FSYNC {
        Route::Fsync
    } else {
        Route::Unhandled
    }
}

/// No two handlers answer to one code.
pub proof fn law_codes_are_distinct(a: Route, b: Route)
    requires
        code_of(a) is Some,
        code_of(a) == code_of(b),
    ensures
        a == b,
{
}

/// Extended attributes, locks, watches and a repeated handshake have no handler.
pub proof fn law_reserved_codes_are_unhandled(op: u8, r: Route)
    requires
        0x30 <= op <= 0x33 || 0x40 <= op <= 0x41 || op == 0xF2 || op == OP_HANDSHAKE,
    ensures
        code_of(r) != Some(op),
{
}

/// The answer to a request without a handler: its own code and number, and
/// `InvalidArg`.
pub fn unhandled(env: &Envelope) -> (res: StatusResponse)
    ensures
        res == (StatusResponse {
            op: env.op,
            seq: env.seq,
            status: status_code(Status::InvalidArg),
        }),
{
    StatusResponse { op: env.op, seq: env.seq, status: Status::InvalidArg.code() }
}

/// The codes of the protocol and the handlers that they reach. Every other code has none.
pub proof fn law_codes_reach_their_handlers(op: u8, r: Route)
    requires
        call_ensures(route, (op,), r),
    ensures
        r is GetAttr <==> op == 0x01,
        r is SetAttr <==> op == 0x02,
        r is ReadDir <==> op == 0x03,
        r is MkDir <==> op == 0x04,
        r is RmDir <==> op == 0x05,
        r is Unlink <==> op == 0x06,
        r is Rename <==> op == 0x07,
        r is Symlink <==> op == 0x08,
        r is ReadLink <==> op == 0x09,
        r is Link <==> op == 0x0A,
        r is StatFs <==> op == 0x0B,
        r is Open <==> op == 0x10,
        r is Release <==> op == 0x11,
        r is Create <==> op == 0x12,
        r is Read <==> op == 0x20,
        r is Write <==> op == 0x21,
        r is Fsync <==> op == 0x22,
        r is Ping <==> op == 0xF1,
{
    if r is Unhandled {
        assert(code_of(Route::GetAttr) != Some(op));
        assert(code_of(Route::SetAttr) != Some(op));
        assert(code_of(Route::ReadDir) != Some(op));
        assert(code_of(Route::MkDir) != Some(op));
        assert(code_of(Route::RmDir) != Some(op));
        assert(code_of(Route::Unlink) != Some(op));
        assert(code_of(Route::Rename) != Some(op));
        assert(code_of(Route::Symlink) != Some(op));
        assert(code_of(Route::ReadLink) != Some(op));
        assert(code_of(Route::Link) != Some(op));
        assert(code_of(Route::StatFs) != Some(op));
        assert(code_of(Route::Open) != Some(op));
        assert(code_of(Route::Release) != Some(op));
        assert(code_of(Route::Create) != Some(op));
        assert(code_of(Route::Read) != Some(op));
        assert(code_of(Route::Write) != Some(op));
        assert(code_of(Route::Fsync) != Some(op));
        assert(code_of(Route::Ping) != Some(op));
    }
}

} // verus!
