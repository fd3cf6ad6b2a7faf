//! Read, write, create and fsync.

use vstd::prelude::*;

use crate::common::frames::{
    CreateRequest, FsyncRequest, OpenResponse, ReadRequest, ReadResponse, StatusResponse,
    WriteRequest, WriteResponse, OP_CREATE, OP_FSYNC, OP_READ, OP_WRITE,
};
use crate::common::stat::Stat;
use crate::common::status::{status_code, status_of_error, IoErrorKind, Status};
use crate::image::Run;
use crate::path::is_beneath;
use crate::server::handles::TooManyHandles;
use crate::server::sanitize::{
    is_resolved, permission_bits, resolve, resolved, Access, OpenHow, PathFacts,
};

verus! {

/// Maximum bytes read from the file at a time, and so carried by a frame.
pub const CHUNK: usize = 256 * 1024;

/// Maximum bytes that a client may ask for in one request.
pub const MAX_READ_REQUEST: u32 = 16 * 1024 * 1024;

/// The flag bit of an append handle.
pub const O_APPEND: u32 = 0x400;

/// The flag bit of a truncating open.
pub const O_TRUNC: u32 = 0x200;

/// The flag bit of an exclusive create.
pub const O_EXCL: u32 = 0x80;

pub open spec fn is_append(flags: u32) -> bool {
    flags & O_APPEND != 0
}

// ── read ─────────────────────────────────────────────────────────────────────
/// A read in progress: what is still to be read.
#[derive(Debug, Clone, Copy)]
pub struct ReadRun {
    pub seq: u64,
    pub offset: u64,
    pub remaining: u32,
    /// A frame was sent. A read owes at least one, if only to say that it is over.
    pub started: bool,
    /// The file ended.
    pub at_end: bool,
}

/// The answer that ends a read with an error.
pub open spec fn is_read_error(r: ReadResponse, seq: u64, offset: u64, status: Status) -> bool {
    &&& r.op == OP_READ
    &&& r.seq == seq
    &&& r.status == status_code(status)
    &&& r.offset == offset
    &&& r.data@.len() == 0
    &&& r.eof
}

fn read_error(seq: u64, offset: u64, status: Status) -> (res: ReadResponse)
    ensures
        is_read_error(res, seq, offset, status),
{
    ReadResponse { op: OP_READ, seq, status: status.code(), offset, data: Vec::new(), eof: true }
}

/// Start a read, or answer why not: too much was asked for, or the handle is stale.
pub fn read_begin(req: &ReadRequest, handle_known: bool) -> (res: Result<ReadRun, ReadResponse>)
    ensures
        match res {
            Ok(run) => req.length <= MAX_READ_REQUEST && handle_known && run == (ReadRun {
                seq: req.seq,
                offset: req.offset,
                remaining: req.length,
                started: false,
                at_end: false,
            }),
            Err(r) => if req.length > MAX_READ_REQUEST {
                is_read_error(r, req.seq, req.offset, Status::InvalidArg)
            } else {
                !handle_known && is_read_error(r, req.seq, req.offset, Status::Stale)
            },
        },
{
    if req.length > MAX_READ_REQUEST {
        return Err(read_error(req.seq, req.offset, Status::InvalidArg));
    }
    if !handle_known {
        return Err(read_error(req.seq, req.offset, Status::Stale));
    }
    Ok(
        ReadRun {
            seq: req.seq,
            offset: req.offset,
            remaining: req.length,
            started: false,
            at_end: false,
        },
    )
}

impl ReadRun {
    /// How much to read next, at the run's offset; `None` when the read is over. A read
    /// of nothing is over behind its one, empty, frame.
    pub open spec fn next_len(self) -> Option<nat> {
        if self.at_end || (self.started && self.remaining == 0) {
            None
        } else if self.remaining < CHUNK {
            Some(self.remaining as nat)
        } else {
            Some(CHUNK as nat)
        }
    }

    /// The run after `n` bytes were read.
    pub open spec fn advanced(self, n: int) -> ReadRun {
        ReadRun {
            seq: self.seq,
            offset: (self.offset + n) as u64,
            remaining: (self.remaining - n) as u32,
            started: true,
            at_end: n == 0,
        }
    }

    pub fn want(&self) -> (res: Option<usize>)
        ensures
            match res {
                Some(n) => self.next_len() == Some(n as nat),
                None => self.next_len() is None,
            },
    {
        if self.at_end || (self.started && self.remaining == 0) {
            None
        } else if (self.remaining as usize) < CHUNK {
            Some(self.remaining as usize)
        } else {
            Some(CHUNK)
        }
    }

    /// Bytes were read: the frame that carries them. No bytes mean that there are no more.
    /// The last frame says so, and no other.
    pub fn got(&mut self, data: Vec<u8>) -> (res: ReadResponse)
        requires
            old(self).next_len() is Some,
            data@.len() <= old(self).next_len()->0,
            old(self).offset + data@.len() <= u64::MAX,
        ensures
            *final(self) == old(self).advanced(data@.len() as int),
            res.op == OP_READ,
            res.seq == old(self).seq,
            res.status == status_code(Status::Success),
            res.offset == old(self).offset,
            res.data == data,
            res.eof == (final(self).next_len() is None),
    {
        let n: usize = data.len();
        let offset: u64 = self.offset;
        self.remaining = self.remaining - (n as u32);
        self.started = true;
        self.at_end = n == 0;
        self.offset = self.offset + (n as u64);
        ReadResponse {
            op: OP_READ,
            seq: self.seq,
            status: Status::Success.code(),
            offset,
            data,
            eof: self.at_end || self.remaining == 0,
        }
    }

    /// Reading failed: the answer that ends the read.
    pub fn failed(&self, e: IoErrorKind) -> (res: ReadResponse)
        ensures
            is_read_error(res, self.seq, self.offset, status_of_error(e)),
    {
        read_error(self.seq, self.offset, Status::from(e))
    }
}

/// The data of consecutive frames, put together.
pub open spec fn joined(frames: Seq<Seq<u8>>) -> Seq<u8>
    decreases frames.len(),
{
    if frames.len() == 0 {
        Seq::empty()
    } else {
        joined(frames.drop_last()) + frames.last()
    }
}

/// The bytes of a file in a range, as far as the file reaches.
pub open spec fn file_range(file: Seq<u8>, offset: int, len: int) -> Seq<u8> {
    if offset >= file.len() {
        Seq::empty()
    } else if offset + len >= file.len() {
        file.skip(offset)
    } else {
        file.subrange(offset, offset + len)
    }
}

/// `reads` are what a file yields to a run: each some of the bytes asked for at the
/// run's offset, none of them only at the end of the file or where none were asked for,
/// and the run is over behind the last.
pub open spec fn yields(file: Seq<u8>, run: ReadRun, reads: Seq<Seq<u8>>) -> bool
    decreases reads.len(),
{
    if reads.len() == 0 {
        run.next_len() is None
    } else {
        let d = reads[0];
        &&& run.next_len() is Some
        &&& d.len() <= run.next_len()->0
        &&& d == file_range(file, run.offset as int, d.len() as int)
        &&& (d.len() == 0 ==> run.offset >= file.len() || run.remaining == 0)
        &&& run.offset + d.len() <= u64::MAX
        &&& yields(file, run.advanced(d.len() as int), reads.drop_first())
    }
}

/// A run behind some reads.
pub open spec fn run_behind(run: ReadRun, reads: Seq<Seq<u8>>) -> ReadRun
    decreases reads.len(),
{
    if reads.len() == 0 {
        run
    } else {
        run_behind(run.advanced(reads[0].len() as int), reads.drop_first())
    }
}

proof fn lemma_joined_front(frames: Seq<Seq<u8>>)
    requires
        frames.len() > 0,
    ensures
        joined(frames) == frames[0] + joined(frames.drop_first()),
    decreases frames.len(),
{
    if frames.len() == 1 {
        assert(frames.drop_last() =~= Seq::empty());
        assert(frames.drop_first() =~= Seq::empty());
        assert(joined(frames.drop_last()) =~= Seq::empty());
        assert(joined(frames.drop_first()) =~= Seq::empty());
        assert(joined(frames) =~= frames[0]);
    } else {
        lemma_joined_front(frames.drop_last());
        assert(frames.drop_last().drop_first() =~= frames.drop_first().drop_last());
        assert(frames.drop_first().last() == frames.last());
        assert(joined(frames) =~= frames[0] + joined(frames.drop_first()));
    }
}

/// However the file's reads come out, short ones included, the frames that answer a
/// read carry exactly the range that was asked for, as far as the file reaches. There is
/// at least one.
pub proof fn law_read_frames_carry_the_range(file: Seq<u8>, run: ReadRun, reads: Seq<Seq<u8>>)
    requires
        yields(file, run, reads),
        !run.started,
        !run.at_end,
    ensures
        reads.len() > 0,
        joined(reads) == file_range(file, run.offset as int, run.remaining as int),
{
    lemma_reads_carry_the_range(file, run, reads);
}

proof fn lemma_reads_carry_the_range(file: Seq<u8>, run: ReadRun, reads: Seq<Seq<u8>>)
    requires
        yields(file, run, reads),
        !run.at_end,
    ensures
        joined(reads) == file_range(file, run.offset as int, run.remaining as int),
    decreases reads.len(),
{
    if reads.len() == 0 {
        assert(joined(reads) =~= file_range(file, run.offset as int, 0));
    } else {
        let d = reads[0];
        let next = run.advanced(d.len() as int);
        lemma_joined_front(reads);
        if d.len() == 0 {
            assert(reads.drop_first().len() == 0) by {
                assert(next.next_len() is None);
                assert(yields(file, next, reads.drop_first()));
            }
            assert(joined(reads) =~= Seq::empty());
            assert(file_range(file, run.offset as int, run.remaining as int) =~= Seq::empty());
        } else {
            lemma_reads_carry_the_range(file, next, reads.drop_first());
            assert(run.offset < file.len());
            assert(joined(reads) =~= file_range(
                file,
                run.offset as int,
                run.remaining as int,
            ));
        }
    }
}

/// The frames of a read run on without gaps, none is larger than a frame may be, and the
/// run is over behind the last and not before: so the last frame, and no other, says that
/// it is the last.
pub proof fn law_read_frames_run_on(file: Seq<u8>, run: ReadRun, reads: Seq<Seq<u8>>, i: int)
    requires
        yields(file, run, reads),
        0 <= i <= reads.len(),
    ensures
        run_behind(run, reads.take(i)).offset == run.offset + joined(reads.take(i)).len(),
        run_behind(run, reads.take(i)).next_len() is None <==> i == reads.len(),
        i < reads.len() ==> reads[i].len() <= CHUNK,
    decreases reads.len(),
{
    if i == 0 {
        assert(reads.take(0) =~= Seq::empty());
        assert(run_behind(run, reads.take(0)) == run);
    } else {
        let rest = reads.drop_first();
        let front = reads.take(i);
        law_read_frames_run_on(file, run.advanced(reads[0].len() as int), rest, i - 1);
        assert(front.drop_first() =~= rest.take(i - 1));
        assert(front[0] == reads[0]);
        lemma_joined_front(front);
        if i < reads.len() {
            assert(rest[i - 1] == reads[i]);
        }
    }
}

// ── write ────────────────────────────────────────────────────────────────────
/// A write in progress: the bytes committed so far.
#[derive(Debug, Clone, Copy)]
pub struct WriteRun {
    pub seq: u64,
    pub append: bool,
    pub total: u64,
    pub done: bool,
}

/// Start a write, or answer that the handle is stale. `flags` are those that the
/// handle was opened with.
pub fn write_begin(first: &WriteRequest, flags: Option<u32>) -> (res: Result<
    WriteRun,
    WriteResponse,
>)
    ensures
        match flags {
            Some(f) => res == Ok::<WriteRun, WriteResponse>(
                WriteRun { seq: first.seq, append: is_append(f), total: 0, done: false },
            ),
            None => res == Err::<WriteRun, WriteResponse>(
                WriteResponse {
                    op: OP_WRITE,
                    seq: first.seq,
                    status: status_code(Status::Stale),
                    written: 0,
                },
            ),
        },
{
    match flags {
        Some(f) => Ok(
            WriteRun { seq: first.seq, append: f & O_APPEND != 0, total: 0, done: false },
        ),
        None => Err(
            WriteResponse {
                op: OP_WRITE,
                seq: first.seq,
                status: Status::Stale.code(),
                written: 0,
            },
        ),
    }
}

impl WriteRun {
    /// Where a frame's bytes go: at its offset, or, on an append handle, wherever the
    /// file ends.
    pub fn position(&self, frame: &WriteRequest) -> (res: Option<u64>)
        ensures
            res == (if self.append {
                None
            } else {
                Some(frame.offset)
            }),
    {
        if self.append {
            None
        } else {
            Some(frame.offset)
        }
    }

    /// A frame's bytes were written. The total stops at the largest number rather
    /// than wrap.
    pub open spec fn after(self, len: nat, done: bool) -> WriteRun {
        WriteRun {
            total: (if self.total + len > u64::MAX {
                u64::MAX as int
            } else {
                self.total + len
            }) as u64,
            done,
            ..self
        }
    }

    pub fn wrote(&mut self, frame: &WriteRequest)
        ensures
            *final(self) == old(self).after(frame.data@.len(), frame.done),
    {
        let len: usize = frame.data.len();
        self.total = self.total.saturating_add(len as u64);
        self.done = frame.done;
    }

    /// Writing a frame failed: the answer that ends the write, with what was
    /// committed before.
    pub fn failed(&self, e: IoErrorKind) -> (res: WriteResponse)
        ensures
            res == (WriteResponse {
                op: OP_WRITE,
                seq: self.seq,
                status: status_code(status_of_error(e)),
                written: self.total,
            }),
    {
        WriteResponse {
            op: OP_WRITE,
            seq: self.seq,
            status: Status::from(e).code(),
            written: self.total,
        }
    }

    /// The answer behind the last frame.
    pub fn finish(&self) -> (res: WriteResponse)
        ensures
            res == (WriteResponse {
                op: OP_WRITE,
                seq: self.seq,
                status: status_code(Status::Success),
                written: self.total,
            }),
    {
        WriteResponse {
            op: OP_WRITE,
            seq: self.seq,
            status: Status::Success.code(),
            written: self.total,
        }
    }
}

/// The bytes of some frames.
pub open spec fn frames_len(frames: Seq<Run>) -> nat
    decreases frames.len(),
{
    if frames.len() == 0 {
        0
    } else {
        frames_len(frames.drop_last()) + frames.last().data.len()
    }
}

/// A write run behind some frames that were all written.
pub open spec fn run_over(run: WriteRun, frames: Seq<Run>) -> WriteRun
    decreases frames.len(),
{
    if frames.len() == 0 {
        run
    } else {
        run_over(run, frames.drop_last()).after(frames.last().data.len(), false)
    }
}

/// The count that a write reports is the number of bytes in its frames.
pub proof fn law_written_counts_all_frames(run: WriteRun, frames: Seq<Run>)
    requires
        run.total == 0,
        frames_len(frames) <= u64::MAX,
    ensures
        run_over(run, frames).total == frames_len(frames),
    decreases frames.len(),
{
    if frames.len() > 0 {
        law_written_counts_all_frames(run, frames.drop_last());
    }
}

// ── create ───────────────────────────────────────────────────────────────────
pub open spec fn is_open_response(
    r: OpenResponse,
    op: u8,
    seq: u64,
    status: Status,
    handle: u64,
    stat: Option<Stat>,
) -> bool {
    r == OpenResponse { op, seq, status: status_code(status), handle, stat }
}

/// How a file is created: readable and writable, never through a symbolic link, and
/// with no more than the permission bits of the mode.
pub open spec fn create_open(flags: u32, mode: u32) -> OpenHow {
    OpenHow {
        access: Access::ReadWrite,
        create: true,
        exclusive: flags & O_EXCL != 0,
        truncate: flags & O_TRUNC != 0,
        append: flags & O_APPEND != 0,
        no_follow: true,
        path_only: false,
        directory: false,
        mode: mode & 0o777,
    }
}

pub fn create_how(flags: u32, mode: u32) -> (res: OpenHow)
    ensures
        res == create_open(flags, mode),
        res.mode <= 0o777,
{
    OpenHow {
        access: Access::ReadWrite,
        create: true,
        exclusive: flags & O_EXCL != 0,
        truncate: flags & O_TRUNC != 0,
        append: flags & O_APPEND != 0,
        no_follow: true,
        path_only: false,
        directory: false,
        mode: permission_bits(mode),
    }
}

/// Each flag of a create does its own part, whatever the others say: 0x80 refuses a file
/// that is there, 0x200 drops what it held, 0x400 makes every write go to its end. The
/// handle is good for reading and writing, a symbolic link is never followed, and the
/// file gets the permission bits of the mode and no more.
pub proof fn law_create_flags_act_alone(flags: u32, mode: u32, how: OpenHow)
    requires
        call_ensures(create_how, (flags, mode), how),
    ensures
        how.exclusive <==> flags & 0x80 != 0,
        how.truncate <==> flags & 0x200 != 0,
        how.append <==> flags & 0x400 != 0,
        how.create && how.no_follow && !how.path_only && !how.directory,
        how.access == Access::ReadWrite,
        how.mode == mode & 0o777,
        how == create_open(flags, mode),
{
}

/// What a create asks for: the file to open and how, or the answer where the path is
/// refused.
pub fn create_begin(req: &CreateRequest, root: &str, facts: &PathFacts) -> (res: Result<
    (String, OpenHow),
    OpenResponse,
>)
    ensures
        match res {
            Ok((p, how)) => is_resolved(root@, req.path@, *facts, p@) && is_beneath(root@, p@)
                && how == create_open(req.flags, req.mode),
            Err(r) => resolved(root@, req.path@, *facts) is Err && is_open_response(
                r,
                OP_CREATE,
                req.seq,
                Status::Permission,
                0,
                None,
            ),
        },
{
    match resolve(root, req.path.as_str(), facts) {
        Ok(p) => Ok((p, create_how(req.flags, req.mode))),
        Err(_) => Err(
            OpenResponse {
                op: OP_CREATE,
                seq: req.seq,
                status: Status::Permission.code(),
                handle: 0,
                stat: None,
            },
        ),
    }
}

/// The permission bits to set on a file behind a successful create, whether the file is
/// new or was there before: exactly those of the mode, which the host's own mask may have
/// narrowed when it opened the file.
pub fn create_bits(req: &CreateRequest) -> (res: u32)
    ensures
        res == req.mode & 0o777,
        res == create_open(req.flags, req.mode).mode,
        res <= 0o777,
{
    permission_bits(req.mode)
}

/// The answer to a create: the file could not be opened, the session holds too many
/// handles, or here is its handle. The second result says whether the new entry is
/// there under a handle, and so is worth forcing to disk.
pub fn create_reply(
    req: &CreateRequest,
    opened: Result<(Option<Stat>, Result<u64, TooManyHandles>), IoErrorKind>,
) -> (res: (OpenResponse, bool))
    ensures
        match opened {
            Err(e) => is_open_response(res.0, OP_CREATE, req.seq, status_of_error(e), 0, None)
                && !res.1,
            Ok((stat, Ok(handle))) => is_open_response(
                res.0,
                OP_CREATE,
                req.seq,
                Status::Success,
                handle,
                stat,
            ) && res.1,
            Ok((_, Err(_))) => is_open_response(
                res.0,
                OP_CREATE,
                req.seq,
                Status::NoSpace,
                0,
                None,
            ) && !res.1,
        },
{
    match opened {
        Err(e) => (
            OpenResponse {
                op: OP_CREATE,
                seq: req.seq,
                status: Status::from(e).code(),
                handle: 0,
                stat: None,
            },
            false,
        ),
        Ok((stat, Ok(handle))) => (
            OpenResponse {
                op: OP_CREATE,
                seq: req.seq,
                status: Status::Success.code(),
                handle,
                stat,
            },
            true,
        ),
        Ok((_, Err(_))) => (
            OpenResponse {
                op: OP_CREATE,
                seq: req.seq,
                status: Status::NoSpace.code(),
                handle: 0,
                stat: None,
            },
            false,
        ),
    }
}

// ── fsync ────────────────────────────────────────────────────────────────────
/// How a file is forced to disk.
#[derive(Debug, Clone, Copy, PartialEq, Eq, Structural)]
pub enum SyncKind {
    DataOnly,
    All,
}

/// What an fsync asks for, or the answer where the handle is stale.
pub fn fsync_begin(req: &FsyncRequest, handle_known: bool) -> (res: Result<SyncKind, StatusResponse>)
    ensures
        if !handle_known {
            res == Err::<SyncKind, StatusResponse>(
                StatusResponse {
                    op: OP_FSYNC,
                    seq: req.seq,
                    status: status_code(Status::Stale),
                },
            )
        } else {
            res == Ok::<SyncKind, StatusResponse>(
                if req.datasync {
                    SyncKind::DataOnly
                } else {
                    SyncKind::All
                },
            )
        },
{
    if !handle_known {
        return Err(
            StatusResponse { op: OP_FSYNC, seq: req.seq, status: Status::Stale.code() },
        );
    }
    if req.datasync {
        Ok(SyncKind::DataOnly)
    } else {
        Ok(SyncKind::All)
    }
}

/// The answer to an fsync.
pub fn fsync_reply(req: &FsyncRequest, outcome: Result<(), IoErrorKind>) -> (res: StatusResponse)
    ensures
        res == (StatusResponse {
            op: OP_FSYNC,
            seq: req.seq,
            status: status_code(outcome_status(outcome)),
        }),
{
    StatusResponse { op: OP_FSYNC, seq: req.seq, status: status_of(outcome).code() }
}

/// The status of an operation that either worked or failed.
pub open spec fn outcome_status(outcome: Result<(), IoErrorKind>) -> Status {
    match outcome {
        Ok(()) => Status::Success,
        Err(e) => status_of_error(e),
    }
}

pub fn status_of(outcome: Result<(), IoErrorKind>) -> (res: Status)
    ensures
        res == outcome_status(outcome),
{
    match outcome {
        Ok(()) => Status::Success,
        Err(e) => Status::from(e),
    }
}

// ── what the answers say ─────────────────────────────────────────────────────
/// A read starts exactly where the handle is open and no more than 16 MiB are asked for,
/// and then at the offset and for the length of the request. Otherwise it is over with one
/// answer without bytes: 8 for too much, 11 for a handle that is not open.
pub proof fn law_read_starts_as_asked(
    req: ReadRequest,
    known: bool,
    res: Result<ReadRun, ReadResponse>,
)
    requires
        call_ensures(read_begin, (&req, known), res),
    ensures
        res is Ok <==> known && req.length <= 16_777_216,
        res matches Ok(run) ==> {
            &&& run.seq == req.seq
            &&& run.offset == req.offset
            &&& run.remaining == req.length
            &&& !run.started
            &&& !run.at_end
        },
        res matches Err(r) ==> {
            &&& r.op == 0x20 && r.seq == req.seq && r.offset == req.offset
            &&& r.data@.len() == 0
            &&& r.eof
            &&& r.status == (if req.length > 16_777_216 {
                8u8
            } else {
                11
            })
        },
{
}

/// A read that failed on the way is over, and says so with an answer without bytes.
pub proof fn law_failed_read_ends(run: ReadRun, e: IoErrorKind, r: ReadResponse)
    requires
        call_ensures(ReadRun::failed, (&run, e), r),
    ensures
        r.op == 0x20 && r.seq == run.seq && r.offset == run.offset,
        r.status != 0,
        r.data@.len() == 0,
        r.eof,
{
    crate::common::status::law_error_is_never_ok(e);
}

/// As long as a read is not over, more is read: up to what is left of it, and no more than
/// 256 KiB at a time. It is over when nothing is left, or the file ended.
pub proof fn law_read_goes_on_until_it_is_over(run: ReadRun)
    ensures
        run.next_len() is None <==> run.at_end || (run.started && run.remaining == 0),
        run.next_len() matches Some(n) ==> n <= run.remaining && n <= 262_144 && (n
            == run.remaining || n == 262_144),
{
}

/// What was read moves the read on by its length; nothing means that the file ended.
pub proof fn law_read_moves_on(run: ReadRun, n: int)
    requires
        0 <= n <= run.remaining,
        run.offset + n <= u64::MAX,
    ensures
        run.advanced(n).offset == run.offset + n,
        run.advanced(n).remaining == run.remaining - n,
        run.advanced(n).seq == run.seq,
        run.advanced(n).started,
        run.advanced(n).at_end <==> n == 0,
{
}

/// On a handle that was opened with 0x400, and on no other, bytes go to the end of the
/// file. Elsewhere they go where their frame says.
pub proof fn law_appending_goes_to_the_end(
    first: WriteRequest,
    flags: u32,
    run: WriteRun,
    frame: WriteRequest,
    at: Option<u64>,
)
    requires
        call_ensures(write_begin, (&first, Some(flags)), Ok(run)),
        call_ensures(WriteRun::position, (&run, &frame), at),
    ensures
        run.seq == first.seq && run.total == 0 && !run.done,
        flags & 0x400 != 0 ==> at is None,
        flags & 0x400 == 0 ==> at == Some(frame.offset),
{
}

/// Each frame adds its bytes to the count, and the last one ends the write.
pub proof fn law_written_frame_counts(run: WriteRun, len: nat, done: bool)
    ensures
        run.after(len, done).seq == run.seq,
        run.after(len, done).append == run.append,
        run.after(len, done).done == done,
        run.total + len <= u64::MAX ==> run.after(len, done).total == run.total + len,
        run.total + len > u64::MAX ==> run.after(len, done).total == u64::MAX,
{
}

/// A create succeeds exactly where the file was opened and the session could keep a handle
/// for it; only then is the new entry worth forcing to disk.
pub proof fn law_create_hands_out_the_handle(
    req: CreateRequest,
    opened: Result<(Option<Stat>, Result<u64, TooManyHandles>), IoErrorKind>,
    r: (OpenResponse, bool),
)
    requires
        call_ensures(create_reply, (&req, opened), r),
    ensures
        r.0.op == 0x12 && r.0.seq == req.seq,
        r.0.status == 0 <==> opened is Ok && (opened->Ok_0).1 is Ok,
        r.1 <==> r.0.status == 0,
        opened matches Ok((stat, Ok(handle))) ==> r.0.handle == handle && r.0.stat == stat,
        opened matches Ok((_, Err(_))) ==> r.0.status == 9,
        r.0.status != 0 ==> r.0.handle == 0 && r.0.stat is None,
{
    if opened is Err {
        crate::common::status::law_error_is_never_ok(opened->Err_0);
    }
}

/// A create whose path is refused is answered with 2, and opens nothing.
pub proof fn law_refused_create_opens_nothing(
    req: CreateRequest,
    root: &str,
    facts: PathFacts,
    res: Result<(String, OpenHow), OpenResponse>,
)
    requires
        call_ensures(create_begin, (&req, root, &facts), res),
    ensures
        res is Ok <==> resolved(root@, req.path@, facts) is Ok,
        res matches Ok((_, how)) ==> {
            &&& how.exclusive <==> req.flags & 0x80 != 0
            &&& how.truncate <==> req.flags & 0x200 != 0
            &&& how.append <==> req.flags & 0x400 != 0
            &&& how.mode == req.mode & 0o777
        },
        res matches Err(r) ==> r.op == 0x12 && r.seq == req.seq && r.status == 2 && r.handle == 0
            && r.stat is None,
{
}

} // verus!
