//! Failures of remote operations, and the error numbers that the kernel is told.

use vstd::prelude::*;

use crate::common::status::{status_of_code, IoErrorKind, Status};
use crate::text::{chars_of, contains_text, copy_of, has_text, occurs_at};

verus! {

pub const ENOENT: i32 = 2;

pub const EIO: i32 = 5;

pub const EACCES: i32 = 13;

pub const EEXIST: i32 = 17;

pub const ENOTDIR: i32 = 20;

pub const EISDIR: i32 = 21;

pub const EINVAL: i32 = 22;

pub const ENOSPC: i32 = 28;

pub const ENOTEMPTY: i32 = 39;

pub const ESTALE: i32 = 116;

/// Why a remote operation failed, as far as the answer shows.
#[derive(Debug, Clone, Copy, PartialEq, Eq, Structural)]
pub enum RpcError {
    /// The server reported a failure.
    Server(Status),
    /// The answer lacks the attributes that it promises.
    MissingStat,
    /// The answer lacks the statistics that it promises.
    MissingStatFs,
    /// The server refused the handshake with this code.
    HandshakeRejected(u8),
}

/// The name of a status in messages.
pub open spec fn status_name(s: Status) -> Seq<char> {
    match s {
        Status::Success => "Ok"@,
        Status::NotFound => "NotFound"@,
        Status::Permission => "Permission"@,
        Status::Io => "Io"@,
        Status::Exists => "Exists"@,
        Status::NotEmpty => "NotEmpty"@,
        Status::NotDir => "NotDir"@,
        Status::IsDir => "IsDir"@,
        Status::InvalidArg => "InvalidArg"@,
        Status::NoSpace => "NoSpace"@,
        Status::TooLarge => "TooLarge"@,
        Status::Stale => "Stale"@,
        Status::Unknown => "Unknown"@,
    }
}

/// The message of a failure that the server reported.
pub open spec fn server_message(s: Status) -> Seq<char> {
    "server error: "@ + status_name(s)
}

pub fn server_error_message(s: Status) -> (res: String)
    ensures
        res@ == server_message(s),
{
    let name = match s {
        Status::Success => "Ok",
        Status::NotFound => "NotFound",
        Status::Permission => "Permission",
        Status::Io => "Io",
        Status::Exists => "Exists",
        Status::NotEmpty => "NotEmpty",
        Status::NotDir => "NotDir",
        Status::IsDir => "IsDir",
        Status::InvalidArg => "InvalidArg",
        Status::NoSpace => "NoSpace",
        Status::TooLarge => "TooLarge",
        Status::Stale => "Stale",
        Status::Unknown => "Unknown",
    };
    copy_of("server error: ").concat(name)
}

/// A response's status: success, or the failure that it reports.
pub fn check_status(status: u8) -> (res: Result<(), RpcError>)
    ensures
        match res {
            Ok(()) => status == 0,
            Err(e) => status != 0 && e == RpcError::Server(status_of_code(status)),
        },
{
    match Status::from(status) {
        Status::Success => Ok(()),
        s => Err(RpcError::Server(s)),
    }
}

/// The error number for a message: the first status that it names.
pub open spec fn message_errno(msg: Seq<char>) -> i32 {
    if has_text(msg, "NotFound"@) {
        ENOENT
    } else if has_text(msg, "Permission"@) {
        EACCES
    } else if has_text(msg, "Exists"@) {
        EEXIST
    } else if has_text(msg, "NotEmpty"@) {
        ENOTEMPTY
    } else if has_text(msg, "NotDir"@) {
        ENOTDIR
    } else if has_text(msg, "IsDir"@) {
        EISDIR
    } else if has_text(msg, "NoSpace"@) {
        ENOSPC
    } else if has_text(msg, "Stale"@) {
        ESTALE
    } else {
        EIO
    }
}

/// The error number for the message of a failed operation.
pub fn rpc_to_errno(msg: &str) -> (res: i32)
    ensures
        res == message_errno(msg@),
{
    let m = chars_of(msg);
    if contains_text(&m, &chars_of("NotFound")) {
        return ENOENT;
    }
    if contains_text(&m, &chars_of("Permission")) {
        return EACCES;
    }
    if contains_text(&m, &chars_of("Exists")) {
        return EEXIST;
    }
    if contains_text(&m, &chars_of("NotEmpty")) {
        return ENOTEMPTY;
    }
    if contains_text(&m, &chars_of("NotDir")) {
        return ENOTDIR;
    }
    if contains_text(&m, &chars_of("IsDir")) {
        return EISDIR;
    }
    if contains_text(&m, &chars_of("NoSpace")) {
        return ENOSPC;
    }
    if contains_text(&m, &chars_of("Stale")) {
        return ESTALE;
    }
    EIO
}

/// A path that is missing on the server: the message names `NotFound`.
pub fn is_not_found(msg: &str) -> (res: bool)
    ensures
        res == has_text(msg@, "NotFound"@),
{
    contains_text(&chars_of(msg), &chars_of("NotFound"))
}

/// The error number for a status that the server reported.
pub open spec fn status_errno(s: Status) -> i32 {
    match s {
        Status::NotFound => ENOENT,
        Status::Permission => EACCES,
        Status::Exists => EEXIST,
        Status::NotEmpty => ENOTEMPTY,
        Status::NotDir => ENOTDIR,
        Status::IsDir => EISDIR,
        Status::NoSpace => ENOSPC,
        Status::Stale => ESTALE,
        _ => EIO,
    }
}

/// A text without one of the pattern's characters does not hold the pattern.
proof fn lemma_absent(s: Seq<char>, pat: Seq<char>, k: int)
    requires
        0 <= k < pat.len(),
        forall|i: int| 0 <= i < s.len() ==> s[i] != pat[k],
    ensures
        !has_text(s, pat),
{
    if has_text(s, pat) {
        let i = choose|i: int| occurs_at(s, pat, i);
        assert(s.subrange(i, i + pat.len())[k] == pat[k]);
        assert(s[i + k] == pat[k]);
    }
}

proof fn lemma_present(s: Seq<char>, head: Seq<char>, pat: Seq<char>)
    requires
        s == head + pat,
    ensures
        has_text(s, pat),
{
    assert(s.subrange(head.len() as int, head.len() as int + pat.len()) =~= pat);
    assert(occurs_at(s, pat, head.len() as int));
}

proof fn reveal_names()
    ensures
        "server error: "@ =~= seq![
            's', 'e', 'r', 'v', 'e', 'r', ' ', 'e', 'r', 'r', 'o', 'r', ':', ' ',
        ],
        "NotFound"@ =~= seq!['N', 'o', 't', 'F', 'o', 'u', 'n', 'd'],
        "Permission"@ =~= seq!['P', 'e', 'r', 'm', 'i', 's', 's', 'i', 'o', 'n'],
        "Exists"@ =~= seq!['E', 'x', 'i', 's', 't', 's'],
        "NotEmpty"@ =~= seq!['N', 'o', 't', 'E', 'm', 'p', 't', 'y'],
        "NotDir"@ =~= seq!['N', 'o', 't', 'D', 'i', 'r'],
        "IsDir"@ =~= seq!['I', 's', 'D', 'i', 'r'],
        "NoSpace"@ =~= seq!['N', 'o', 'S', 'p', 'a', 'c', 'e'],
        "Stale"@ =~= seq!['S', 't', 'a', 'l', 'e'],
        "Ok"@ =~= seq!['O', 'k'],
        "Io"@ =~= seq!['I', 'o'],
        "InvalidArg"@ =~= seq!['I', 'n', 'v', 'a', 'l', 'i', 'd', 'A', 'r', 'g'],
        "TooLarge"@ =~= seq!['T', 'o', 'o', 'L', 'a', 'r', 'g', 'e'],
        "Unknown"@ =~= seq!['U', 'n', 'k', 'n', 'o', 'w', 'n'],
{
    reveal_strlit("server error: ");
    reveal_strlit("NotFound");
    reveal_strlit("Permission");
    reveal_strlit("Exists");
    reveal_strlit("NotEmpty");
    reveal_strlit("NotDir");
    reveal_strlit("IsDir");
    reveal_strlit("NoSpace");
    reveal_strlit("Stale");
    reveal_strlit("Ok");
    reveal_strlit("Io");
    reveal_strlit("InvalidArg");
    reveal_strlit("TooLarge");
    reveal_strlit("Unknown");
}

/// A character that occurs neither in the head of a message nor in the name.
spec fn lacks(name: Seq<char>, c: char) -> bool {
    &&& !"server error: "@.contains(c)
    &&& !name.contains(c)
}

proof fn lemma_message_lacks(name: Seq<char>, pat: Seq<char>, k: int)
    requires
        0 <= k < pat.len(),
        lacks(name, pat[k]),
    ensures
        !has_text("server error: "@ + name, pat),
{
    let h = "server error: "@;
    let m = h + name;
    assert forall|i: int| 0 <= i < m.len() implies m[i] != pat[k] by {
        if i < h.len() {
            assert(h.contains(h[i]));
        } else {
            assert(name.contains(name[i - h.len()]));
        }
    }
    lemma_absent(m, pat, k);
}

/// A status whose name stands for an error number of its own.
spec fn is_named(s: Status) -> bool {
    status_errno(s) != EIO
}

/// Where the name of `named` has a character that neither the head of a message nor the
/// name of `s` has.
spec fn telling(named: Status, s: Status) -> int {
    let not = s == Status::NotFound || s == Status::NotEmpty || s == Status::NotDir;
    match named {
        Status::NotFound | Status::NotEmpty | Status::NotDir => if not {
            3
        } else if s == Status::NoSpace {
            2
        } else {
            0
        },
        Status::NoSpace => if not {
            2
        } else {
            0
        },
        Status::IsDir => if s == Status::Io || s == Status::InvalidArg {
            2
        } else {
            0
        },
        Status::Exists => if s == Status::NotEmpty {
            1
        } else {
            0
        },
        Status::Stale => if s == Status::NoSpace {
            1
        } else {
            0
        },
        _ => 0,
    }
}

/// The message of a status holds the name of that status and none of the others.
proof fn lemma_names(named: Status, s: Status)
    requires
        is_named(named),
    ensures
        has_text(server_message(s), status_name(named)) == (s == named),
{
    reveal_names();
    let pat = status_name(named);
    if s == named {
        lemma_present(server_message(s), "server error: "@, pat);
    } else {
        lemma_message_lacks(status_name(s), pat, telling(named, s));
    }
}

/// A failure that the server reports reaches the kernel as the error number of its
/// status: the way through the message loses nothing.
pub proof fn law_server_errors_keep_their_number(s: Status)
    ensures
        message_errno(server_message(s)) == status_errno(s),
{
    lemma_names(Status::NotFound, s);
    lemma_names(Status::Permission, s);
    lemma_names(Status::Exists, s);
    lemma_names(Status::NotEmpty, s);
    lemma_names(Status::NotDir, s);
    lemma_names(Status::IsDir, s);
    lemma_names(Status::NoSpace, s);
    lemma_names(Status::Stale, s);
}

/// The error number for a failure on this side.
pub fn io_to_errno(e: IoErrorKind) -> (res: i32)
    ensures
        res == (match e {
            IoErrorKind::NotFound => ENOENT,
            IoErrorKind::PermissionDenied => EACCES,
            IoErrorKind::AlreadyExists => EEXIST,
            IoErrorKind::DirectoryNotEmpty => ENOTEMPTY,
            IoErrorKind::InvalidInput => EINVAL,
            IoErrorKind::InvalidData => EINVAL,
            IoErrorKind::Other => EIO,
        }),
{
    match e {
        IoErrorKind::NotFound => ENOENT,
        IoErrorKind::PermissionDenied => EACCES,
        IoErrorKind::AlreadyExists => EEXIST,
        IoErrorKind::DirectoryNotEmpty => ENOTEMPTY,
        IoErrorKind::InvalidInput => EINVAL,
        IoErrorKind::InvalidData => EINVAL,
        IoErrorKind::Other => EIO,
    }
}

/// What the server reports reaches the kernel under the number that Linux has for it.
pub proof fn law_reported_failures_have_their_numbers(s: Status)
    ensures
        ({
            let n = message_errno(server_message(s));
            &&& n == 2 <==> s is NotFound
            &&& n == 13 <==> s is Permission
            &&& n == 17 <==> s is Exists
            &&& n == 39 <==> s is NotEmpty
            &&& n == 20 <==> s is NotDir
            &&& n == 21 <==> s is IsDir
            &&& n == 28 <==> s is NoSpace
            &&& n == 116 <==> s is Stale
            &&& n == 5 <==> s is Success || s is Io || s is InvalidArg || s is TooLarge
                || s is Unknown
        }),
{
    law_server_errors_keep_their_number(s);
}

/// Each failure on this side has its number: 2 for a missing file, 13 for a refusal, 17
/// for a file that is there, 39 for a directory that is not empty, 22 for an argument that
/// makes no sense, 5 for the rest.
pub proof fn law_local_failures_have_their_numbers(e: IoErrorKind, n: i32)
    requires
        call_ensures(io_to_errno, (e,), n),
    ensures
        n == 2 <==> e is NotFound,
        n == 13 <==> e is PermissionDenied,
        n == 17 <==> e is AlreadyExists,
        n == 39 <==> e is DirectoryNotEmpty,
        n == 22 <==> e is InvalidInput || e is InvalidData,
        n == 5 <==> e is Other,
{
}

/// Any message that speaks of `NotFound` is 2, and one that names no status at all is 5.
pub proof fn law_messages_are_known_by_the_status_they_name(msg: &str, n: i32)
    requires
        call_ensures(rpc_to_errno, (msg,), n),
    ensures
        has_text(msg@, "NotFound"@) ==> n == 2,
        has_text(msg@, "Permission"@) && !has_text(msg@, "NotFound"@) ==> n == 13,
        !(has_text(msg@, "NotFound"@) || has_text(msg@, "Permission"@) || has_text(
            msg@,
            "Exists"@,
        ) || has_text(msg@, "NotEmpty"@) || has_text(msg@, "NotDir"@) || has_text(msg@, "IsDir"@)
            || has_text(msg@, "NoSpace"@) || has_text(msg@, "Stale"@)) ==> n == 5,
{
}

} // verus!
