//! Result codes carried in every response.

use vstd::prelude::*;
use vstd::std_specs::convert::FromSpecImpl;

verus! {

/// The outcome of an operation, as the peer is told.
#[derive(Debug, Clone, Copy, PartialEq, Eq, Structural)]
pub enum Status {
    /// The operation took effect.
    Success,
    NotFound,
    Permission,
    Io,
    Exists,
    NotEmpty,
    NotDir,
    IsDir,
    InvalidArg,
    NoSpace,
    TooLarge,
    Stale,
    Unknown,
}

/// Why an operation on the host's filesystem failed, as far as it is told apart.
#[derive(Debug, Clone, Copy, PartialEq, Eq, Structural)]
pub enum IoErrorKind {
    NotFound,
    PermissionDenied,
    AlreadyExists,
    InvalidInput,
    InvalidData,
    DirectoryNotEmpty,
    Other,
}

/// The byte that stands for a status on the wire.
pub open spec fn status_code(s: Status) -> u8 {
    match s {
        Status::Success => 0,
        Status::NotFound => 1,
        Status::Permission => 2,
        Status::Io => 3,
        Status::Exists => 4,
        Status::NotEmpty => 5,
        Status::NotDir => 6,
        Status::IsDir => 7,
        Status::InvalidArg => 8,
        Status::NoSpace => 9,
        Status::TooLarge => 10,
        Status::Stale => 11,
        Status::Unknown => 255,
    }
}

/// The status that a byte on the wire stands for; `Unknown` for a byte that no
/// status has.
pub open spec fn status_of_code(v: u8) -> Status {
    if v == 0 {
        Status::Success
    } else if v == 1 {
        Status::NotFound
    } else if v == 2 {
        Status::Permission
    } else if v == 3 {
        Status::Io
    } else if v == 4 {
        Status::Exists
    } else if v == 5 {
        Status::NotEmpty
    } else if v == 6 {
        Status::NotDir
    } else if v == 7 {
        Status::IsDir
    } else if v == 8 {
        Status::InvalidArg
    } else if v == 9 {
        Status::NoSpace
    } else if v == 10 {
        Status::TooLarge
    } else if v == 11 {
        Status::Stale
    } else {
        Status::Unknown
    }
}

/// The status reported for a failure of the host's filesystem.
pub open spec fn status_of_error(e: IoErrorKind) -> Status {
    match e {
        IoErrorKind::NotFound => Status::NotFound,
        IoErrorKind::PermissionDenied => Status::Permission,
        IoErrorKind::AlreadyExists => Status::Exists,
        IoErrorKind::InvalidInput => Status::InvalidArg,
        IoErrorKind::InvalidData => Status::InvalidArg,
        IoErrorKind::DirectoryNotEmpty => Status::Io,
        IoErrorKind::Other => Status::Io,
    }
}

/// A status survives the wire.
pub proof fn law_status_roundtrip(s: Status)
    ensures
        status_of_code(status_code(s)) == s,
{
}

/// Only the byte 0 reports success.
pub proof fn law_only_zero_is_ok(v: u8)
    ensures
        status_of_code(v) == Status::Success <==> v == 0,
{
}

/// A failure is never reported as success.
pub proof fn law_error_is_never_ok(e: IoErrorKind)
    ensures
        status_of_error(e) != Status::Success,
        status_code(status_of_error(e)) != 0,
{
}

impl Status {
    pub fn code(self) -> (res: u8)
        ensures
            res == status_code(self),
    {
        match self {
            Status::Success => 0,
            Status::NotFound => 1,
            Status::Permission => 2,
            Status::Io => 3,
            Status::Exists => 4,
            Status::NotEmpty => 5,
            Status::NotDir => 6,
            Status::IsDir => 7,
            Status::InvalidArg => 8,
            Status::NoSpace => 9,
            Status::TooLarge => 10,
            Status::Stale => 11,
            Status::Unknown => 255,
        }
    }
}

impl From<u8> for Status {
    fn from(v: u8) -> Self {
        match v {
            0 => Status::Success,
            1 => Status::NotFound,
            2 => Status::Permission,
            3 => Status::Io,
            4 => Status::Exists,
            5 => Status::NotEmpty,
            6 => Status::NotDir,
            7 => Status::IsDir,
            8 => Status::InvalidArg,
            9 => Status::NoSpace,
            10 => Status::TooLarge,
            11 => Status::Stale,
            _ => Status::Unknown,
        }
    }
}

impl FromSpecImpl<u8> for Status {
    open spec fn obeys_from_spec() -> bool {
        true
    }

    open spec fn from_spec(v: u8) -> Self {
        status_of_code(v)
    }
}

impl From<IoErrorKind> for Status {
    fn from(e: IoErrorKind) -> Self {
        match e {
            IoErrorKind::NotFound => Status::NotFound,
            IoErrorKind::PermissionDenied => Status::Permission,
            IoErrorKind::AlreadyExists => Status::Exists,
            IoErrorKind::InvalidInput => Status::InvalidArg,
            IoErrorKind::InvalidData => Status::InvalidArg,
            IoErrorKind::DirectoryNotEmpty => Status::Io,
            IoErrorKind::Other => Status::Io,
        }
    }
}

impl FromSpecImpl<IoErrorKind> for Status {
    open spec fn obeys_from_spec() -> bool {
        true
    }

    open spec fn from_spec(e: IoErrorKind) -> Self {
        status_of_error(e)
    }
}

/// The bytes that the protocol gives to each outcome.
pub proof fn law_outcomes_have_their_bytes(s: Status)
    ensures
        status_code(s) == 0 <==> s is Success,
        status_code(s) == 1 <==> s is NotFound,
        status_code(s) == 2 <==> s is Permission,
        status_code(s) == 3 <==> s is Io,
        status_code(s) == 4 <==> s is Exists,
        status_code(s) == 5 <==> s is NotEmpty,
        status_code(s) == 6 <==> s is NotDir,
        status_code(s) == 7 <==> s is IsDir,
        status_code(s) == 8 <==> s is InvalidArg,
        status_code(s) == 9 <==> s is NoSpace,
        status_code(s) == 10 <==> s is TooLarge,
        status_code(s) == 11 <==> s is Stale,
        status_code(s) == 255 <==> s is Unknown,
{
}

/// A failure of the host is told apart as far as the protocol does: a missing file, a
/// refusal, a file that is there already, an argument that makes no sense, and the rest.
pub proof fn law_host_failures_are_told_apart(e: IoErrorKind)
    ensures
        status_code(status_of_error(e)) == 1 <==> e is NotFound,
        status_code(status_of_error(e)) == 2 <==> e is PermissionDenied,
        status_code(status_of_error(e)) == 4 <==> e is AlreadyExists,
        status_code(status_of_error(e)) == 8 <==> e is InvalidInput || e is InvalidData,
        status_code(status_of_error(e)) == 3 <==> e is DirectoryNotEmpty || e is Other,
{
}

/// A byte that no outcome has is an outcome that is not known, and no success.
pub proof fn law_strange_bytes_are_unknown(v: u8)
    requires
        v > 11,
    ensures
        status_of_code(v) == Status::Unknown,
{
}

} // verus!
