//! Attributes, directories, links, and the opening and closing of files.

use vstd::prelude::*;
use vstd::utf8::encode_utf8;

use crate::common::frames::{
    GetAttrRequest, GetAttrResponse, LinkRequest, MkDirRequest, OpenRequest, OpenResponse,
    PathRequest, ReadDirRequest, ReadDirResponse, ReadLinkResponse, ReleaseRequest,
    ReleaseResponse, RenameRequest, SetAttrRequest, SetAttrResponse, StatFsResponse,
    StatusResponse, SymlinkRequest, OP_GET_ATTR, OP_LINK, OP_MKDIR, OP_OPEN, OP_READLINK,
    OP_READ_DIR, OP_RELEASE, OP_RENAME, OP_RMDIR, OP_SET_ATTR, OP_STAT_FS, OP_SYMLINK, OP_UNLINK,
};
use crate::common::stat::{DirEntry, Stat, StatFs};
use crate::common::status::{status_code, status_of_error, IoErrorKind, Status};
use crate::path::is_beneath;
use crate::server::handles::TooManyHandles;
use crate::server::ops::data::{is_open_response, outcome_status, status_of, O_APPEND};
use crate::server::sanitize::{
    is_resolved, permission_bits, resolve, resolved, Access, OpenHow, PathFacts,
};
use crate::text::{byte_len, utf8_len};
use crate::time::{low_i64, Duration};

verus! {

// ── answers ──────────────────────────────────────────────────────────────────
pub open spec fn stat_answer(op: u8, seq: u64, status: Status, stat: Option<Stat>) -> GetAttrResponse {
    GetAttrResponse { op, seq, status: status_code(status), stat }
}

pub fn stat_response(op: u8, seq: u64, status: Status, stat: Option<Stat>) -> (res: GetAttrResponse)
    ensures
        res == stat_answer(op, seq, status, stat),
{
    GetAttrResponse { op, seq, status: status.code(), stat }
}

pub open spec fn status_answer(op: u8, seq: u64, status: Status) -> StatusResponse {
    StatusResponse { op, seq, status: status_code(status) }
}

pub fn status_response(op: u8, seq: u64, status: Status) -> (res: StatusResponse)
    ensures
        res == status_answer(op, seq, status),
{
    StatusResponse { op, seq, status: status.code() }
}

// ── attributes ───────────────────────────────────────────────────────────────
/// What the host says about a file. A time is the span since the Unix epoch; it is
/// missing where it could not be read or lies before the epoch.
#[derive(Debug, Clone, Copy)]
pub struct FileMeta {
    pub ino: u64,
    pub mode: u32,
    pub nlink: u64,
    pub uid: u32,
    pub gid: u32,
    pub size: u64,
    pub accessed: Option<Duration>,
    pub modified: Option<Duration>,
}

/// A time in nanoseconds since the epoch; zero where there is none.
pub open spec fn time_ns(t: Option<Duration>) -> int {
    match t {
        Some(d) => low_i64(d.nanos() as int),
        None => 0,
    }
}

fn ns_of(t: Option<Duration>) -> (res: i64)
    ensures
        res == time_ns(t),
{
    match t {
        Some(d) => d.wrapped_nanos(),
        None => 0,
    }
}

/// The attributes sent for a file. The modification time stands in for the change
/// time; blocks are 512 bytes, the last one counted whole.
pub open spec fn stat_of(m: FileMeta) -> Stat {
    Stat {
        ino: m.ino,
        mode: m.mode,
        nlink: (if m.nlink > u32::MAX {
            u32::MAX as u64
        } else {
            m.nlink
        }) as u32,
        uid: m.uid,
        gid: m.gid,
        size: m.size,
        atime: time_ns(m.accessed) as i64,
        mtime: time_ns(m.modified) as i64,
        ctime: time_ns(m.modified) as i64,
        blksz: 4096,
        blocks: ((m.size + 511) / 512) as u64,
    }
}

pub fn metadata_to_stat(m: &FileMeta) -> (res: Stat)
    ensures
        res == stat_of(*m),
{
    let tail: u64 = if m.size % 512 == 0 {
        0
    } else {
        1
    };
    Stat {
        ino: m.ino,
        mode: m.mode,
        nlink: if m.nlink > 0xFFFF_FFFF {
            0xFFFF_FFFF
        } else {
            m.nlink as u32
        },
        uid: m.uid,
        gid: m.gid,
        size: m.size,
        atime: ns_of(m.accessed),
        mtime: ns_of(m.modified),
        ctime: ns_of(m.modified),
        blksz: 4096,
        blocks: m.size / 512 + tail,
    }
}

/// What came of asking for a file's attributes.
pub open spec fn stat_outcome(m: Result<FileMeta, IoErrorKind>) -> (Status, Option<Stat>) {
    match m {
        Ok(meta) => (Status::Success, Some(stat_of(meta))),
        Err(e) => (status_of_error(e), None),
    }
}

fn stat_result(m: &Result<FileMeta, IoErrorKind>) -> (res: (Status, Option<Stat>))
    ensures
        res == stat_outcome(*m),
{
    match m {
        Ok(meta) => (Status::Success, Some(metadata_to_stat(meta))),
        Err(e) => (Status::from(*e), None),
    }
}

/// The file whose attributes are asked for, or the answer where its path is refused.
pub fn getattr_begin(req: &GetAttrRequest, root: &str, facts: &PathFacts) -> (res: Result<
    String,
    GetAttrResponse,
>)
    ensures
        match res {
            Ok(p) => is_resolved(root@, req.path@, *facts, p@) && is_beneath(root@, p@),
            Err(r) => resolved(root@, req.path@, *facts) is Err && r == stat_answer(
                OP_GET_ATTR,
                req.seq,
                Status::Permission,
                None,
            ),
        },
{
    match resolve(root, req.path.as_str(), facts) {
        Ok(p) => Ok(p),
        Err(_) => Err(stat_response(OP_GET_ATTR, req.seq, Status::Permission, None)),
    }
}

/// The answer to a request for attributes.
pub fn getattr_reply(req: &GetAttrRequest, meta: &Result<FileMeta, IoErrorKind>) -> (res:
    GetAttrResponse)
    ensures
        res == stat_answer(OP_GET_ATTR, req.seq, stat_outcome(*meta).0, stat_outcome(*meta).1),
{
    let (status, stat) = stat_result(meta);
    stat_response(OP_GET_ATTR, req.seq, status, stat)
}

// ── setattr ──────────────────────────────────────────────────────────────────
/// A point in time as the host takes it: seconds, and nanoseconds of the same sign.
#[derive(Debug, Clone, Copy, PartialEq, Eq, Structural)]
pub struct TimeSpec {
    pub sec: i64,
    pub nsec: i64,
}

/// A time in nanoseconds, split towards zero.
pub open spec fn timespec_of(ns: i64) -> TimeSpec {
    if ns >= 0 {
        TimeSpec { sec: (ns as int / 1_000_000_000) as i64, nsec: (ns as int % 1_000_000_000) as i64 }
    } else {
        TimeSpec {
            sec: (-(-(ns as int) / 1_000_000_000)) as i64,
            nsec: (-(-(ns as int) % 1_000_000_000)) as i64,
        }
    }
}

pub fn ns_to_timespec(ns: i64) -> (res: TimeSpec)
    ensures
        res == timespec_of(ns),
        res.sec * 1_000_000_000 + res.nsec == ns,
        -1_000_000_000 < res.nsec < 1_000_000_000,
{
    if ns >= 0 {
        TimeSpec { sec: ns / 1_000_000_000, nsec: ns % 1_000_000_000 }
    } else {
        let n: i128 = -(ns as i128);
        let sec: i128 = -(n / 1_000_000_000);
        let nsec: i128 = -(n % 1_000_000_000);
        TimeSpec { sec: sec as i64, nsec: nsec as i64 }
    }
}

/// One step of changing a file's attributes. Each is confined below the root, and
/// those that follow `OpenRef` work on the file that it opened.
#[derive(Debug, Clone, Copy, PartialEq, Eq, Structural)]
pub enum SetAttrStep {
    /// Open for writing, refusing a symbolic link, and set the size.
    Truncate(u64),
    /// Take a reference to the file.
    OpenRef,
    /// Set the permission bits.
    Chmod(u32),
    /// Set access and modification time; one that is missing is left alone.
    SetTimes(Option<TimeSpec>, Option<TimeSpec>),
    /// Read the attributes back.
    ReadBack,
}

/// The bits that say which attributes a request changes.
pub const VALID_MODE: u32 = 0x1;

pub const VALID_UID: u32 = 0x2;

pub const VALID_GID: u32 = 0x4;

pub const VALID_SIZE: u32 = 0x8;

pub const VALID_ATIME: u32 = 0x10;

pub const VALID_MTIME: u32 = 0x20;

/// The times that a request sets.
pub open spec fn times_step(req: SetAttrRequest) -> SetAttrStep {
    SetAttrStep::SetTimes(
        if req.valid & VALID_ATIME != 0 {
            Some(timespec_of(req.atime))
        } else {
            None
        },
        if req.valid & VALID_MTIME != 0 {
            Some(timespec_of(req.mtime))
        } else {
            None
        },
    )
}

/// The steps that a request asks for, in order: the size, then mode and times over
/// one reference to the file, then the attributes are read back. Owner and group are
/// never changed.
pub open spec fn setattr_steps(req: SetAttrRequest) -> Seq<SetAttrStep> {
    let size = req.valid & VALID_SIZE != 0;
    let mode = req.valid & VALID_MODE != 0;
    let times = req.valid & VALID_ATIME != 0 || req.valid & VALID_MTIME != 0;
    let s0 = Seq::<SetAttrStep>::empty();
    let s1 = if size {
        s0.push(SetAttrStep::Truncate(req.size))
    } else {
        s0
    };
    let s2 = if mode || times {
        s1.push(SetAttrStep::OpenRef)
    } else {
        s1
    };
    let s3 = if mode {
        s2.push(SetAttrStep::Chmod(req.mode & 0o777))
    } else {
        s2
    };
    let s4 = if times {
        s3.push(times_step(req))
    } else {
        s3
    };
    s4.push(SetAttrStep::ReadBack)
}

/// A change of attributes in progress.
pub struct SetAttrRun {
    seq: u64,
    steps: Vec<SetAttrStep>,
    at: usize,
}

/// What follows a step.
pub enum SetAttrNext {
    Do(SetAttrStep),
    Answer(SetAttrResponse),
}

pub open spec fn setattr_answer(seq: u64, status: Status, stat: Option<Stat>) -> SetAttrResponse {
    SetAttrResponse { op: OP_SET_ATTR, seq, status: status_code(status), stat }
}

fn setattr_response(seq: u64, status: Status, stat: Option<Stat>) -> (res: SetAttrResponse)
    ensures
        res == setattr_answer(seq, status, stat),
{
    SetAttrResponse { op: OP_SET_ATTR, seq, status: status.code(), stat }
}

/// Plan a change of attributes, or answer where the path is refused.
pub fn setattr_begin(req: &SetAttrRequest, root: &str, facts: &PathFacts) -> (res: Result<
    (String, SetAttrRun),
    SetAttrResponse,
>)
    ensures
        match res {
            Ok((p, run)) => {
                &&& is_resolved(root@, req.path@, *facts, p@)
                &&& is_beneath(root@, p@)
                &&& run.wf()
                &&& run.seq() == req.seq
                &&& run.steps() == setattr_steps(*req)
                &&& run.done() == 0
            },
            Err(r) => resolved(root@, req.path@, *facts) is Err && r == setattr_answer(
                req.seq,
                Status::Permission,
                None,
            ),
        },
{
    let path = match resolve(root, req.path.as_str(), facts) {
        Ok(p) => p,
        Err(_) => {
            return Err(setattr_response(req.seq, Status::Permission, None));
        },
    };
    let size = req.valid & VALID_SIZE != 0;
    let mode = req.valid & VALID_MODE != 0;
    let atime = req.valid & VALID_ATIME != 0;
    let mtime = req.valid & VALID_MTIME != 0;
    let mut steps: Vec<SetAttrStep> = Vec::new();
    if size {
        steps.push(SetAttrStep::Truncate(req.size));
    }
    if mode || atime || mtime {
        steps.push(SetAttrStep::OpenRef);
    }
    if mode {
        steps.push(SetAttrStep::Chmod(permission_bits(req.mode)));
    }
    if atime || mtime {
        let a = if atime {
            Some(ns_to_timespec(req.atime))
        } else {
            None
        };
        let m = if mtime {
            Some(ns_to_timespec(req.mtime))
        } else {
            None
        };
        steps.push(SetAttrStep::SetTimes(a, m));
    }
    steps.push(SetAttrStep::ReadBack);
    assert(steps@ =~= setattr_steps(*req));
    Ok((path, SetAttrRun { seq: req.seq, steps, at: 0 }))
}

impl SetAttrRun {
    pub closed spec fn seq(&self) -> u64 {
        self.seq
    }

    pub closed spec fn steps(&self) -> Seq<SetAttrStep> {
        self.steps@
    }

    /// How many steps have succeeded.
    pub closed spec fn done(&self) -> int {
        self.at as int
    }

    /// The run is not over, and reads the attributes back last.
    pub open spec fn wf(&self) -> bool {
        &&& 0 <= self.done() < self.steps().len()
        &&& self.steps().last() == SetAttrStep::ReadBack
        &&& forall|i: int|
            0 <= i < self.steps().len() - 1 ==> #[trigger] self.steps()[i]
                != SetAttrStep::ReadBack
    }

    /// The step to perform now.
    pub fn step(&self) -> (res: SetAttrStep)
        requires
            self.wf(),
        ensures
            res == self.steps()[self.done()],
    {
        self.steps[self.at]
    }

    /// A step other than the last was performed: go on, or answer with its failure.
    pub fn stepped(&mut self, outcome: Result<(), IoErrorKind>) -> (res: SetAttrNext)
        requires
            old(self).wf(),
            old(self).steps()[old(self).done()] != SetAttrStep::ReadBack,
        ensures
            final(self).wf(),
            final(self).seq() == old(self).seq(),
            final(self).steps() == old(self).steps(),
            match outcome {
                Ok(()) => final(self).done() == old(self).done() + 1 && res
                    == SetAttrNext::Do(final(self).steps()[final(self).done()]),
                Err(e) => final(self).done() == old(self).done() && res == SetAttrNext::Answer(
                    setattr_answer(old(self).seq(), status_of_error(e), None),
                ),
            },
    {
        match outcome {
            Ok(()) => {
                assert(self.at + 1 < self.steps.len());
                self.at = self.at + 1;
                SetAttrNext::Do(self.steps[self.at])
            },
            Err(e) => SetAttrNext::Answer(setattr_response(self.seq, Status::from(e), None)),
        }
    }

    /// The attributes were read back: the answer.
    pub fn finish(&self, meta: &Result<FileMeta, IoErrorKind>) -> (res: SetAttrResponse)
        ensures
            res == setattr_answer(self.seq(), stat_outcome(*meta).0, stat_outcome(*meta).1),
    {
        let (status, stat) = stat_result(meta);
        setattr_response(self.seq, status, stat)
    }
}

/// No request can set more than permission bits on a file.
pub proof fn law_setattr_sets_permission_bits_only(req: SetAttrRequest, i: int)
    requires
        0 <= i < setattr_steps(req).len(),
    ensures
        setattr_steps(req)[i] matches SetAttrStep::Chmod(m) ==> m <= 0o777,
{
    let mode = req.mode;
    assert(mode & 0o777 <= 0o777) by (bit_vector);
}

/// Mode and times are set on the file that one reference names: each of these steps stands
/// behind the step that takes the reference, which is there once, and only for them. The
/// size is set first, so that setting it never touches times that were asked for, and the
/// attributes are read back once, at the end. No step is there twice.
pub proof fn law_setattr_steps_are_in_order(req: SetAttrRequest)
    ensures
        ({
            let steps = setattr_steps(req);
            &&& forall|i: int|
                0 <= i < steps.len() && (steps[i] is Chmod || steps[i] is SetTimes) ==> exists|j: int|
                    0 <= j < i && #[trigger] steps[j] is OpenRef
            &&& steps.contains(SetAttrStep::OpenRef) ==> exists|i: int|
                0 <= i < steps.len() && (#[trigger] steps[i] is Chmod || steps[i] is SetTimes)
            &&& forall|i: int|
                0 <= i < steps.len() && #[trigger] steps[i] is Truncate ==> i == 0
            &&& forall|i: int|
                0 <= i < steps.len() ==> (#[trigger] steps[i] is ReadBack <==> i == steps.len() - 1)
            &&& forall|i: int, j: int|
                0 <= i < j < steps.len() ==> {
                    &&& !(#[trigger] steps[i] is OpenRef && #[trigger] steps[j] is OpenRef)
                    &&& !(steps[i] is Chmod && steps[j] is Chmod)
                    &&& !(steps[i] is SetTimes && steps[j] is SetTimes)
                    &&& !(steps[i] is SetTimes && steps[j] is Chmod)
                }
        }),
{
    let steps = setattr_steps(req);
    let size = req.valid & VALID_SIZE != 0;
    let at: int = if size {
        1
    } else {
        0
    };
    assert forall|i: int|
        0 <= i < steps.len() && (steps[i] is Chmod || steps[i] is SetTimes) implies exists|j: int|
        0 <= j < i && #[trigger] steps[j] is OpenRef by {
        assert(steps[at] is OpenRef);
    }
    if steps.contains(SetAttrStep::OpenRef) {
        assert(steps[at + 1] is Chmod || steps[at + 1] is SetTimes);
    }
}

/// Each attribute of a request is set exactly where its own bit is: the size by 0x8, the
/// permission bits by 0x1, the times by 0x10 and 0x20. What is set is what the request
/// holds.
pub proof fn law_setattr_bits_select_steps(req: SetAttrRequest)
    ensures
        ({
            let steps = setattr_steps(req);
            &&& forall|n: u64| #[trigger]
                steps.contains(SetAttrStep::Truncate(n)) <==> req.valid & 0x8 != 0 && n == req.size
            &&& forall|m: u32| #[trigger]
                steps.contains(SetAttrStep::Chmod(m)) <==> req.valid & 0x1 != 0 && m == req.mode
                    & 0o777
            &&& forall|a: Option<TimeSpec>, m: Option<TimeSpec>| #[trigger]
                steps.contains(SetAttrStep::SetTimes(a, m)) ==> {
                    &&& a is Some <==> req.valid & 0x10 != 0
                    &&& m is Some <==> req.valid & 0x20 != 0
                    &&& a is Some ==> a->0.sec * 1_000_000_000 + a->0.nsec == req.atime
                    &&& m is Some ==> m->0.sec * 1_000_000_000 + m->0.nsec == req.mtime
                }
            &&& req.valid & 0x10 != 0 || req.valid & 0x20 != 0 ==> exists|
                a: Option<TimeSpec>,
                m: Option<TimeSpec>,
            | #[trigger] steps.contains(SetAttrStep::SetTimes(a, m))
        }),
{
    let steps = setattr_steps(req);
    let size = req.valid & 0x8 != 0;
    let mode = req.valid & 0x1 != 0;
    let times = req.valid & 0x10 != 0 || req.valid & 0x20 != 0;
    let at: int = if size {
        1
    } else {
        0
    };
    if size {
        assert(steps[0] == SetAttrStep::Truncate(req.size));
    }
    if mode {
        assert(steps[at + 1] == SetAttrStep::Chmod(req.mode & 0o777));
    }
    if times {
        assert(steps[steps.len() - 2] == times_step(req));
        assert(times_step(req) matches SetAttrStep::SetTimes(a, m) && steps.contains(
            SetAttrStep::SetTimes(a, m),
        ));
    }
}

/// A time is split towards zero: its parts add up to it, and neither points away from it.
pub proof fn law_time_is_split_towards_zero(ns: i64)
    ensures
        timespec_of(ns).sec * 1_000_000_000 + timespec_of(ns).nsec == ns,
        -1_000_000_000 < timespec_of(ns).nsec < 1_000_000_000,
        ns >= 0 ==> timespec_of(ns).sec >= 0 && timespec_of(ns).nsec >= 0,
        ns <= 0 ==> timespec_of(ns).sec <= 0 && timespec_of(ns).nsec <= 0,
{
}

/// How the size step opens the file.
pub fn truncate_how() -> (res: OpenHow)
    ensures
        res == (OpenHow {
            access: Access::WriteOnly,
            create: false,
            exclusive: false,
            truncate: false,
            append: false,
            no_follow: true,
            path_only: false,
            directory: false,
            mode: 0,
        }),
{
    OpenHow {
        access: Access::WriteOnly,
        create: false,
        exclusive: false,
        truncate: false,
        append: false,
        no_follow: true,
        path_only: false,
        directory: false,
        mode: 0,
    }
}

/// How the reference for mode and times is opened.
pub fn reference_how() -> (res: OpenHow)
    ensures
        res == (OpenHow {
            access: Access::ReadOnly,
            create: false,
            exclusive: false,
            truncate: false,
            append: false,
            no_follow: false,
            path_only: true,
            directory: false,
            mode: 0,
        }),
{
    OpenHow {
        access: Access::ReadOnly,
        create: false,
        exclusive: false,
        truncate: false,
        append: false,
        no_follow: false,
        path_only: true,
        directory: false,
        mode: 0,
    }
}

// ── readdir ──────────────────────────────────────────────────────────────────
/// Most entries that one answer carries.
pub const MAX_DIR_ENTRIES: usize = 256;

/// A page of a directory listing in the making.
pub struct DirPage {
    skip: u64,
    entries: Vec<DirEntry>,
}

impl DirPage {
    /// How many entries are still to be skipped.
    pub closed spec fn to_skip(&self) -> int {
        self.skip as int
    }

    pub closed spec fn page(&self) -> Seq<DirEntry> {
        self.entries@
    }

    pub open spec fn wf(&self) -> bool {
        self.page().len() <= MAX_DIR_ENTRIES && (self.to_skip() > 0 ==> self.page().len() == 0)
    }

    pub open spec fn is_full(&self) -> bool {
        self.page().len() >= MAX_DIR_ENTRIES
    }

    pub fn new(cursor: u64) -> (res: Self)
        ensures
            res.wf(),
            res.to_skip() == cursor,
            res.page() == Seq::<DirEntry>::empty(),
    {
        DirPage { skip: cursor, entries: Vec::new() }
    }

    /// The next entry of the directory lies before the cursor; it is passed over
    /// without a look at its attributes.
    pub fn skip_one(&mut self) -> (res: bool)
        requires
            old(self).wf(),
        ensures
            final(self).wf(),
            final(self).page() == old(self).page(),
            res == (old(self).to_skip() > 0),
            final(self).to_skip() == (if res {
                old(self).to_skip() - 1
            } else {
                0
            }),
    {
        if self.skip > 0 {
            self.skip = self.skip - 1;
            true
        } else {
            false
        }
    }

    /// Put the next entry on the page; true when the page is then full.
    pub fn push(&mut self, entry: DirEntry) -> (res: bool)
        requires
            old(self).wf(),
            old(self).to_skip() == 0,
            !old(self).is_full(),
        ensures
            final(self).wf(),
            final(self).to_skip() == 0,
            final(self).page() == old(self).page().push(entry),
            res == final(self).is_full(),
    {
        self.entries.push(entry);
        self.entries.len() >= MAX_DIR_ENTRIES
    }

    /// The cursor behind the page that starts at `cursor`, where a cursor can hold it.
    pub fn next_cursor(&self, cursor: u64) -> (res: Option<u64>)
        requires
            self.wf(),
        ensures
            match res {
                Some(c) => c == cursor + self.page().len(),
                None => cursor + self.page().len() > u64::MAX,
            },
    {
        cursor.checked_add(self.entries.len() as u64)
    }
}

/// The page of a listing that starts behind `cursor` entries.
pub open spec fn dir_page(all: Seq<DirEntry>, cursor: int) -> Seq<DirEntry> {
    if cursor >= all.len() {
        Seq::empty()
    } else if all.len() - cursor > MAX_DIR_ENTRIES {
        all.subrange(cursor, cursor + MAX_DIR_ENTRIES)
    } else {
        all.skip(cursor)
    }
}

/// The page for a listing that is already at hand.
pub fn page_of(all: Vec<DirEntry>, cursor: u64) -> (res: DirPage)
    ensures
        res.wf(),
        res.page() == dir_page(all@, cursor as int),
{
    let mut page = DirPage::new(cursor);
    let ghost whole = all@;
    for entry in it: all
        invariant
            it.seq() == whole,
            page.wf(),
            page.to_skip() == (if it.index() < cursor {
                cursor - it.index()
            } else {
                0
            }),
            page.page() == dir_page(whole.take(it.index()), cursor as int),
    {
        let ghost n = it.index();
        proof {
            assert(whole.take(n + 1) =~= whole.take(n).push(whole[n]));
        }
        if !page.skip_one() {
            if page.entries.len() < MAX_DIR_ENTRIES {
                page.push(entry);
            }
        }
        assert(page.page() =~= dir_page(whole.take(n + 1), cursor as int));
    }
    assert(whole.take(whole.len() as int) =~= whole);
    page
}

pub open spec fn is_dir_response(
    r: ReadDirResponse,
    seq: u64,
    status: Status,
    entries: Seq<DirEntry>,
    cursor: int,
    eof: bool,
) -> bool {
    &&& r.op == OP_READ_DIR
    &&& r.seq == seq
    &&& r.status == status_code(status)
    &&& r.entries@ == entries
    &&& r.cursor == cursor
    &&& r.eof == eof
}

/// The directory to list, or the answer where its path is refused.
pub fn readdir_begin(req: &ReadDirRequest, root: &str, facts: &PathFacts) -> (res: Result<
    String,
    ReadDirResponse,
>)
    ensures
        match res {
            Ok(p) => is_resolved(root@, req.path@, *facts, p@) && is_beneath(root@, p@),
            Err(r) => resolved(root@, req.path@, *facts) is Err && is_dir_response(
                r,
                req.seq,
                Status::Permission,
                Seq::empty(),
                0,
                true,
            ),
        },
{
    match resolve(root, req.path.as_str(), facts) {
        Ok(p) => Ok(p),
        Err(_) => Err(
            ReadDirResponse {
                op: OP_READ_DIR,
                seq: req.seq,
                status: Status::Permission.code(),
                entries: Vec::new(),
                cursor: 0,
                eof: true,
            },
        ),
    }
}

/// The answer that carries a page: the cursor moves behind it, and a page that is not
/// full is the last.
pub fn readdir_reply(req: &ReadDirRequest, listed: Result<DirPage, IoErrorKind>) -> (res:
    ReadDirResponse)
    requires
        listed matches Ok(page) ==> page.wf() && req.cursor + page.page().len() <= u64::MAX,
    ensures
        match listed {
            Ok(page) => is_dir_response(
                res,
                req.seq,
                Status::Success,
                page.page(),
                req.cursor + page.page().len(),
                !page.is_full(),
            ),
            Err(e) => is_dir_response(
                res,
                req.seq,
                status_of_error(e),
                Seq::empty(),
                req.cursor as int,
                true,
            ),
        },
{
    match listed {
        Ok(page) => {
            let n: usize = page.entries.len();
            ReadDirResponse {
                op: OP_READ_DIR,
                seq: req.seq,
                status: Status::Success.code(),
                entries: page.entries,
                cursor: req.cursor + (n as u64),
                eof: n < MAX_DIR_ENTRIES,
            }
        },
        Err(e) => ReadDirResponse {
            op: OP_READ_DIR,
            seq: req.seq,
            status: Status::from(e).code(),
            entries: Vec::new(),
            cursor: req.cursor,
            eof: true,
        },
    }
}

/// What a client collects that asks page after page from `cursor` on, until one is
/// not full.
pub open spec fn collected(all: Seq<DirEntry>, cursor: int) -> Seq<DirEntry>
    decreases all.len() - cursor,
{
    let page = dir_page(all, cursor);
    if cursor < 0 || page.len() < MAX_DIR_ENTRIES || cursor >= all.len() {
        page
    } else {
        page + collected(all, cursor + page.len())
    }
}

/// Paging through a directory that does not change gives every entry once, in order.
pub proof fn law_paging_lists_everything(all: Seq<DirEntry>, cursor: int)
    requires
        0 <= cursor <= all.len(),
    ensures
        collected(all, cursor) == all.skip(cursor),
    decreases all.len() - cursor,
{
    let page = dir_page(all, cursor);
    if page.len() < MAX_DIR_ENTRIES || cursor >= all.len() {
        assert(page =~= all.skip(cursor));
    } else {
        law_paging_lists_everything(all, cursor + page.len());
        assert(page + all.skip(cursor + page.len()) =~= all.skip(cursor));
    }
}

// ── namespace changes ────────────────────────────────────────────────────────
/// The directory to make, with its permission bits, or the answer where its path is
/// refused.
pub fn mkdir_begin(req: &MkDirRequest, root: &str, facts: &PathFacts) -> (res: Result<
    (String, u32),
    GetAttrResponse,
>)
    ensures
        match res {
            Ok((p, mode)) => is_resolved(root@, req.path@, *facts, p@) && is_beneath(root@, p@)
                && mode == req.mode & 0o777,
            Err(r) => resolved(root@, req.path@, *facts) is Err && r == stat_answer(
                OP_MKDIR,
                req.seq,
                Status::Permission,
                None,
            ),
        },
{
    match resolve(root, req.path.as_str(), facts) {
        Ok(p) => Ok((p, permission_bits(req.mode))),
        Err(_) => Err(stat_response(OP_MKDIR, req.seq, Status::Permission, None)),
    }
}

/// The attributes to answer with, for an operation that made an entry: those of the
/// entry where the operation worked and they could be read.
pub open spec fn made_answer(
    op: u8,
    seq: u64,
    outcome: Result<(), IoErrorKind>,
    meta: Option<FileMeta>,
) -> GetAttrResponse {
    stat_answer(
        op,
        seq,
        outcome_status(outcome),
        match (outcome, meta) {
            (Ok(()), Some(m)) => Some(stat_of(m)),
            _ => None,
        },
    )
}

fn made_reply(op: u8, seq: u64, outcome: Result<(), IoErrorKind>, meta: &Option<FileMeta>) -> (res:
    GetAttrResponse)
    ensures
        res == made_answer(op, seq, outcome, *meta),
{
    let stat = match (outcome, meta) {
        (Ok(()), Some(m)) => Some(metadata_to_stat(m)),
        _ => None,
    };
    stat_response(op, seq, status_of(outcome), stat)
}

pub fn mkdir_reply(
    req: &MkDirRequest,
    outcome: Result<(), IoErrorKind>,
    meta: &Option<FileMeta>,
) -> (res: GetAttrResponse)
    ensures
        res == made_answer(OP_MKDIR, req.seq, outcome, *meta),
{
    made_reply(OP_MKDIR, req.seq, outcome, meta)
}

/// The directory to remove, or the answer where its path is refused.
pub fn rmdir_begin(req: &PathRequest, root: &str, facts: &PathFacts) -> (res: Result<
    String,
    StatusResponse,
>)
    ensures
        match res {
            Ok(p) => is_resolved(root@, req.path@, *facts, p@) && is_beneath(root@, p@),
            Err(r) => resolved(root@, req.path@, *facts) is Err && r == status_answer(
                OP_RMDIR,
                req.seq,
                Status::Permission,
            ),
        },
{
    match resolve(root, req.path.as_str(), facts) {
        Ok(p) => Ok(p),
        Err(_) => Err(status_response(OP_RMDIR, req.seq, Status::Permission)),
    }
}

pub fn rmdir_reply(req: &PathRequest, outcome: Result<(), IoErrorKind>) -> (res: StatusResponse)
    ensures
        res == status_answer(OP_RMDIR, req.seq, outcome_status(outcome)),
{
    status_response(OP_RMDIR, req.seq, status_of(outcome))
}

/// The file to remove, or the answer where its path is refused.
pub fn unlink_begin(req: &PathRequest, root: &str, facts: &PathFacts) -> (res: Result<
    String,
    StatusResponse,
>)
    ensures
        match res {
            Ok(p) => is_resolved(root@, req.path@, *facts, p@) && is_beneath(root@, p@),
            Err(r) => resolved(root@, req.path@, *facts) is Err && r == status_answer(
                OP_UNLINK,
                req.seq,
                Status::Permission,
            ),
        },
{
    match resolve(root, req.path.as_str(), facts) {
        Ok(p) => Ok(p),
        Err(_) => Err(status_response(OP_UNLINK, req.seq, Status::Permission)),
    }
}

pub fn unlink_reply(req: &PathRequest, outcome: Result<(), IoErrorKind>) -> (res: StatusResponse)
    ensures
        res == status_answer(OP_UNLINK, req.seq, outcome_status(outcome)),
{
    status_response(OP_UNLINK, req.seq, status_of(outcome))
}

/// The two names of a rename, or the answer where either path is refused.
pub fn rename_begin(req: &RenameRequest, root: &str, old_facts: &PathFacts, new_facts: &PathFacts) -> (res:
    Result<(String, String), StatusResponse>)
    ensures
        match res {
            Ok((a, b)) => {
                &&& is_resolved(root@, req.old@, *old_facts, a@)
                &&& is_resolved(root@, req.new@, *new_facts, b@)
                &&& is_beneath(root@, a@)
                &&& is_beneath(root@, b@)
            },
            Err(r) => {
                &&& resolved(root@, req.old@, *old_facts) is Err || resolved(
                    root@,
                    req.new@,
                    *new_facts,
                ) is Err
                &&& r == status_answer(OP_RENAME, req.seq, Status::Permission)
            },
        },
{
    let a = match resolve(root, req.old.as_str(), old_facts) {
        Ok(p) => p,
        Err(_) => {
            return Err(status_response(OP_RENAME, req.seq, Status::Permission));
        },
    };
    match resolve(root, req.new.as_str(), new_facts) {
        Ok(b) => Ok((a, b)),
        Err(_) => Err(status_response(OP_RENAME, req.seq, Status::Permission)),
    }
}

pub fn rename_reply(req: &RenameRequest, outcome: Result<(), IoErrorKind>) -> (res: StatusResponse)
    ensures
        res == status_answer(OP_RENAME, req.seq, outcome_status(outcome)),
{
    status_response(OP_RENAME, req.seq, status_of(outcome))
}

/// Maximum byte length of a symbolic link's target.
pub const MAX_SYMLINK_TARGET_LEN: usize = 4096;

/// The link to make, or the answer where the target is too long or the path refused.
pub fn symlink_begin(req: &SymlinkRequest, root: &str, facts: &PathFacts) -> (res: Result<
    String,
    GetAttrResponse,
>)
    ensures
        match res {
            Ok(p) => {
                &&& utf8_len(req.target@) <= MAX_SYMLINK_TARGET_LEN
                &&& is_resolved(root@, req.link@, *facts, p@)
                &&& is_beneath(root@, p@)
            },
            Err(r) => if utf8_len(req.target@) > MAX_SYMLINK_TARGET_LEN {
                r == stat_answer(OP_SYMLINK, req.seq, Status::InvalidArg, None)
            } else {
                &&& resolved(root@, req.link@, *facts) is Err
                &&& r == stat_answer(OP_SYMLINK, req.seq, Status::Permission, None)
            },
        },
{
    if byte_len(req.target.as_str()) > MAX_SYMLINK_TARGET_LEN {
        return Err(stat_response(OP_SYMLINK, req.seq, Status::InvalidArg, None));
    }
    match resolve(root, req.link.as_str(), facts) {
        Ok(p) => Ok(p),
        Err(_) => Err(stat_response(OP_SYMLINK, req.seq, Status::Permission, None)),
    }
}

pub fn symlink_reply(
    req: &SymlinkRequest,
    outcome: Result<(), IoErrorKind>,
    meta: &Option<FileMeta>,
) -> (res: GetAttrResponse)
    ensures
        res == made_answer(OP_SYMLINK, req.seq, outcome, *meta),
{
    made_reply(OP_SYMLINK, req.seq, outcome, meta)
}

pub open spec fn is_readlink_response(
    r: ReadLinkResponse,
    seq: u64,
    status: Status,
    target: Seq<char>,
) -> bool {
    r.op == OP_READLINK && r.seq == seq && r.status == status_code(status) && r.target@ == target
}

/// The link to read, or the answer where its path is refused.
pub fn readlink_begin(req: &PathRequest, root: &str, facts: &PathFacts) -> (res: Result<
    String,
    ReadLinkResponse,
>)
    ensures
        match res {
            Ok(p) => is_resolved(root@, req.path@, *facts, p@) && is_beneath(root@, p@),
            Err(r) => resolved(root@, req.path@, *facts) is Err && is_readlink_response(
                r,
                req.seq,
                Status::Permission,
                Seq::empty(),
            ),
        },
{
    match resolve(root, req.path.as_str(), facts) {
        Ok(p) => Ok(p),
        Err(_) => Err(
            ReadLinkResponse {
                op: OP_READLINK,
                seq: req.seq,
                status: Status::Permission.code(),
                target: String::new(),
            },
        ),
    }
}

/// The target of a link is answered as it is: text, not access.
pub fn readlink_reply(req: &PathRequest, target: Result<String, IoErrorKind>) -> (res:
    ReadLinkResponse)
    ensures
        match target {
            Ok(t) => is_readlink_response(res, req.seq, Status::Success, t@),
            Err(e) => is_readlink_response(res, req.seq, status_of_error(e), Seq::empty()),
        },
{
    match target {
        Ok(t) => ReadLinkResponse {
            op: OP_READLINK,
            seq: req.seq,
            status: Status::Success.code(),
            target: t,
        },
        Err(e) => ReadLinkResponse {
            op: OP_READLINK,
            seq: req.seq,
            status: Status::from(e).code(),
            target: String::new(),
        },
    }
}

/// The two names of a hard link, or the answer where either path is refused.
pub fn link_begin(req: &LinkRequest, root: &str, path_facts: &PathFacts, link_facts: &PathFacts) -> (res:
    Result<(String, String), GetAttrResponse>)
    ensures
        match res {
            Ok((a, b)) => {
                &&& is_resolved(root@, req.path@, *path_facts, a@)
                &&& is_resolved(root@, req.link@, *link_facts, b@)
                &&& is_beneath(root@, a@)
                &&& is_beneath(root@, b@)
            },
            Err(r) => {
                &&& resolved(root@, req.path@, *path_facts) is Err || resolved(
                    root@,
                    req.link@,
                    *link_facts,
                ) is Err
                &&& r == stat_answer(OP_LINK, req.seq, Status::Permission, None)
            },
        },
{
    let a = match resolve(root, req.path.as_str(), path_facts) {
        Ok(p) => p,
        Err(_) => {
            return Err(stat_response(OP_LINK, req.seq, Status::Permission, None));
        },
    };
    match resolve(root, req.link.as_str(), link_facts) {
        Ok(b) => Ok((a, b)),
        Err(_) => Err(stat_response(OP_LINK, req.seq, Status::Permission, None)),
    }
}

pub fn link_reply(
    req: &LinkRequest,
    outcome: Result<(), IoErrorKind>,
    meta: &Option<FileMeta>,
) -> (res: GetAttrResponse)
    ensures
        res == made_answer(OP_LINK, req.seq, outcome, *meta),
{
    made_reply(OP_LINK, req.seq, outcome, meta)
}

// ── open and release ─────────────────────────────────────────────────────────
/// How a client's flags open a file: the access mode, and appending. Nothing is ever
/// created or truncated, and links below the root are followed.
pub open spec fn open_flags(flags: u32) -> OpenHow {
    OpenHow {
        access: if flags & 0x3 == 1 {
            Access::WriteOnly
        } else if flags & 0x3 == 2 {
            Access::ReadWrite
        } else {
            Access::ReadOnly
        },
        create: false,
        exclusive: false,
        truncate: false,
        append: flags & O_APPEND != 0,
        no_follow: false,
        path_only: false,
        directory: false,
        mode: 0,
    }
}

pub fn open_how(flags: u32) -> (res: OpenHow)
    ensures
        res == open_flags(flags),
{
    let access = if flags & 0x3 == 1 {
        Access::WriteOnly
    } else if flags & 0x3 == 2 {
        Access::ReadWrite
    } else {
        Access::ReadOnly
    };
    OpenHow {
        access,
        create: false,
        exclusive: false,
        truncate: false,
        append: flags & O_APPEND != 0,
        no_follow: false,
        path_only: false,
        directory: false,
        mode: 0,
    }
}

/// The file to open and how, or the answer where its path is refused.
pub fn open_begin(req: &OpenRequest, root: &str, facts: &PathFacts) -> (res: Result<
    (String, OpenHow),
    OpenResponse,
>)
    ensures
        match res {
            Ok((p, how)) => is_resolved(root@, req.path@, *facts, p@) && is_beneath(root@, p@)
                && how == open_flags(req.flags),
            Err(r) => resolved(root@, req.path@, *facts) is Err && is_open_response(
                r,
                OP_OPEN,
                req.seq,
                Status::Permission,
                0,
                None,
            ),
        },
{
    match resolve(root, req.path.as_str(), facts) {
        Ok(p) => Ok((p, open_how(req.flags))),
        Err(_) => Err(
            OpenResponse {
                op: OP_OPEN,
                seq: req.seq,
                status: Status::Permission.code(),
                handle: 0,
                stat: None,
            },
        ),
    }
}

/// The answer to an open: the file could not be opened, the session holds too many
/// handles, or here is its handle.
pub fn open_reply(
    req: &OpenRequest,
    opened: Result<(Option<Stat>, Result<u64, TooManyHandles>), IoErrorKind>,
) -> (res: OpenResponse)
    ensures
        match opened {
            Err(e) => is_open_response(res, OP_OPEN, req.seq, status_of_error(e), 0, None),
            Ok((stat, Ok(handle))) => is_open_response(
                res,
                OP_OPEN,
                req.seq,
                Status::Success,
                handle,
                stat,
            ),
            Ok((_, Err(_))) => is_open_response(res, OP_OPEN, req.seq, Status::NoSpace, 0, None),
        },
{
    match opened {
        Err(e) => OpenResponse {
            op: OP_OPEN,
            seq: req.seq,
            status: Status::from(e).code(),
            handle: 0,
            stat: None,
        },
        Ok((stat, Ok(handle))) => OpenResponse {
            op: OP_OPEN,
            seq: req.seq,
            status: Status::Success.code(),
            handle,
            stat,
        },
        Ok((_, Err(_))) => OpenResponse {
            op: OP_OPEN,
            seq: req.seq,
            status: Status::NoSpace.code(),
            handle: 0,
            stat: None,
        },
    }
}

/// A released file is forced to disk first: where the configuration asks for it and
/// the handle was open.
pub fn sync_on_release(sync_on_close: bool, was_open: bool) -> (res: bool)
    ensures
        res == (sync_on_close && was_open),
{
    sync_on_close && was_open
}

/// The answer to a release. Releasing a handle that is not open does nothing and
/// succeeds; `synced` is how forcing the file to disk went, where that was asked for.
pub fn release_reply(req: &ReleaseRequest, synced: Option<Result<(), IoErrorKind>>) -> (res:
    ReleaseResponse)
    ensures
        res == (ReleaseResponse {
            op: OP_RELEASE,
            seq: req.seq,
            status: status_code(
                match synced {
                    Some(outcome) => outcome_status(outcome),
                    None => Status::Success,
                },
            ),
        }),
{
    let status = match synced {
        Some(outcome) => status_of(outcome),
        None => Status::Success,
    };
    ReleaseResponse { op: OP_RELEASE, seq: req.seq, status: status.code() }
}

// ── statfs ───────────────────────────────────────────────────────────────────
/// The path whose filesystem is asked about, or the answer where it is refused.
pub fn statfs_begin(req: &PathRequest, root: &str, facts: &PathFacts) -> (res: Result<
    String,
    StatFsResponse,
>)
    ensures
        match res {
            Ok(p) => is_resolved(root@, req.path@, *facts, p@) && is_beneath(root@, p@),
            Err(r) => resolved(root@, req.path@, *facts) is Err && r == (StatFsResponse {
                op: OP_STAT_FS,
                seq: req.seq,
                status: status_code(Status::Permission),
                statfs: None,
            }),
        },
{
    match resolve(root, req.path.as_str(), facts) {
        Ok(p) => Ok(p),
        Err(_) => Err(
            StatFsResponse {
                op: OP_STAT_FS,
                seq: req.seq,
                status: Status::Permission.code(),
                statfs: None,
            },
        ),
    }
}

/// The statistics to report: zeros where the host gave none.
pub fn query_statfs(found: Option<StatFs>) -> (res: StatFs)
    ensures
        res == (match found {
            Some(fs) => fs,
            None => StatFs::zero(),
        }),
{
    match found {
        Some(fs) => fs,
        None => StatFs::default(),
    }
}

pub fn statfs_reply(req: &PathRequest, fs: StatFs) -> (res: StatFsResponse)
    ensures
        res == (StatFsResponse {
            op: OP_STAT_FS,
            seq: req.seq,
            status: status_code(Status::Success),
            statfs: Some(fs),
        }),
{
    StatFsResponse {
        op: OP_STAT_FS,
        seq: req.seq,
        status: Status::Success.code(),
        statfs: Some(fs),
    }
}

// ── what the answers say ─────────────────────────────────────────────────────
/// An answer says what came of the operation, under the request's own number: it reports
/// success exactly where the operation worked, and carries attributes exactly where they
/// were read. A refused path is answered with 2.
pub proof fn law_answers_tell_the_outcome(
    op: u8,
    seq: u64,
    outcome: Result<(), IoErrorKind>,
    made: Option<FileMeta>,
    read: Result<FileMeta, IoErrorKind>,
)
    ensures
        ({
            let r = status_answer(op, seq, outcome_status(outcome));
            r.op == op && r.seq == seq && (r.status == 0 <==> outcome is Ok)
        }),
        ({
            let r = made_answer(op, seq, outcome, made);
            &&& r.op == op && r.seq == seq && (r.status == 0 <==> outcome is Ok)
            &&& r.stat is Some <==> outcome is Ok && made is Some
            &&& r.stat is Some ==> r.stat->0 == stat_of(made->0)
        }),
        ({
            let r = stat_answer(op, seq, stat_outcome(read).0, stat_outcome(read).1);
            &&& r.op == op && r.seq == seq && (r.status == 0 <==> read is Ok)
            &&& r.stat is Some <==> read is Ok
            &&& r.stat is Some ==> r.stat->0 == stat_of(read->Ok_0)
        }),
        ({
            let r = setattr_answer(seq, stat_outcome(read).0, stat_outcome(read).1);
            &&& r.op == 0x02 && r.seq == seq && (r.status == 0 <==> read is Ok)
            &&& r.stat is Some <==> read is Ok
            &&& r.stat is Some ==> r.stat->0 == stat_of(read->Ok_0)
        }),
        status_answer(op, seq, Status::Permission).status == 2,
        stat_answer(op, seq, Status::Permission, None).status == 2,
        setattr_answer(seq, Status::Permission, None).status == 2,
{
}

/// The attributes that are sent are those of the file. The count of links stops at the
/// largest number that fits, the blocks are as many of 512 bytes as the size takes, and a
/// time is its distance from the epoch in nanoseconds, zero where it is not known.
pub proof fn law_attributes_are_those_of_the_file(m: FileMeta)
    ensures
        ({
            let s = stat_of(m);
            &&& s.ino == m.ino && s.mode == m.mode && s.uid == m.uid && s.gid == m.gid && s.size
                == m.size
            &&& m.nlink <= 0xFFFF_FFFF ==> s.nlink == m.nlink
            &&& m.nlink > 0xFFFF_FFFF ==> s.nlink == 0xFFFF_FFFF
            &&& m.size <= s.blocks * 512 < m.size + 512
            &&& m.accessed is None ==> s.atime == 0
            &&& m.modified is None ==> s.mtime == 0
            &&& m.accessed matches Some(d) ==> d.nanos() < 0x8000_0000_0000_0000 ==> s.atime
                == d.nanos()
            &&& m.modified matches Some(d) ==> d.nanos() < 0x8000_0000_0000_0000 ==> s.mtime
                == d.nanos()
            &&& s.ctime == s.mtime
            &&& s.blksz == 4096
        }),
{
}

/// A page holds the entries behind the cursor in their order, as many as there are but no
/// more than 256.
pub proof fn law_page_holds_the_entries_behind_the_cursor(
    all: Seq<DirEntry>,
    cursor: int,
    i: int,
)
    requires
        0 <= cursor,
    ensures
        dir_page(all, cursor).len() == (if cursor >= all.len() {
            0int
        } else if all.len() - cursor > 256 {
            256
        } else {
            all.len() - cursor
        }),
        0 <= i < dir_page(all, cursor).len() ==> dir_page(all, cursor)[i] == all[cursor + i],
{
}

/// The answer to a listing carries the page as it is, moves the cursor behind it and says
/// that it is the last one exactly where there is room left on it.
pub proof fn law_listing_goes_on_behind_the_page(
    req: ReadDirRequest,
    page: DirPage,
    r: ReadDirResponse,
)
    requires
        call_ensures(readdir_reply, (&req, Ok(page)), r),
    ensures
        r.op == 0x03 && r.seq == req.seq && r.status == 0,
        r.entries@ == page.page(),
        r.cursor == req.cursor + page.page().len(),
        r.eof <==> page.page().len() < 256,
{
}

/// A listing that failed says so, and is over.
pub proof fn law_failed_listing_ends(req: ReadDirRequest, e: IoErrorKind, r: ReadDirResponse)
    requires
        call_ensures(readdir_reply, (&req, Err(e)), r),
    ensures
        r.op == 0x03 && r.seq == req.seq && r.status != 0,
        r.entries@.len() == 0,
        r.cursor == req.cursor,
        r.eof,
{
    crate::common::status::law_error_is_never_ok(e);
}

/// An open does what its flags ask for and no more: the lowest two bits say how the file
/// is accessed, 0x400 makes every write go to its end. Nothing is created, and nothing is
/// cut off.
pub proof fn law_open_flags_act_alone(flags: u32, how: OpenHow)
    requires
        call_ensures(open_how, (flags,), how),
    ensures
        how.access == Access::WriteOnly <==> flags & 0x3 == 1,
        how.access == Access::ReadWrite <==> flags & 0x3 == 2,
        how.append <==> flags & 0x400 != 0,
        !how.create && !how.exclusive && !how.truncate,
        !how.path_only && !how.directory && !how.no_follow,
        how.mode == 0,
        how == open_flags(flags),
{
}

/// An open succeeds exactly where the file was opened and the session could keep a handle
/// for it, and is answered with that handle. A full session is answered with 9.
pub proof fn law_open_hands_out_the_handle(
    req: OpenRequest,
    opened: Result<(Option<Stat>, Result<u64, TooManyHandles>), IoErrorKind>,
    r: OpenResponse,
)
    requires
        call_ensures(open_reply, (&req, opened), r),
    ensures
        r.op == 0x10 && r.seq == req.seq,
        r.status == 0 <==> opened is Ok && (opened->Ok_0).1 is Ok,
        opened matches Ok((stat, Ok(handle))) ==> r.handle == handle && r.stat == stat,
        opened matches Ok((_, Err(_))) ==> r.status == 9,
        r.status != 0 ==> r.handle == 0 && r.stat is None,
{
    if opened is Err {
        crate::common::status::law_error_is_never_ok(opened->Err_0);
    }
}

/// A symbolic link is made exactly where its target has no more than 4096 bytes and its
/// path is accepted. The target may be anything else: it is text, not access.
pub proof fn law_link_targets_are_bounded(
    req: SymlinkRequest,
    root: &str,
    facts: PathFacts,
    res: Result<String, GetAttrResponse>,
)
    requires
        call_ensures(symlink_begin, (&req, root, &facts), res),
    ensures
        res is Ok <==> encode_utf8(req.target@).len() <= 4096 && resolved(
            root@,
            req.link@,
            facts,
        ) is Ok,
        res matches Err(r) ==> r.op == 0x08 && r.seq == req.seq && r.stat is None && r.status
            == (if encode_utf8(req.target@).len() > 4096 {
            8u8
        } else {
            2
        }),
{
}

/// A path that is refused is answered with 2 under the request's number, and with nothing
/// else: no entry, no target, no handle.
pub proof fn law_refused_paths_get_nothing(
    list: ReadDirRequest,
    link: PathRequest,
    open: OpenRequest,
    root: &str,
    facts: PathFacts,
    listed: Result<String, ReadDirResponse>,
    read: Result<String, ReadLinkResponse>,
    opened: Result<(String, OpenHow), OpenResponse>,
)
    requires
        call_ensures(readdir_begin, (&list, root, &facts), listed),
        call_ensures(readlink_begin, (&link, root, &facts), read),
        call_ensures(open_begin, (&open, root, &facts), opened),
    ensures
        listed is Ok <==> resolved(root@, list.path@, facts) is Ok,
        listed matches Err(r) ==> {
            &&& r.op == 0x03 && r.seq == list.seq && r.status == 2
            &&& r.entries@.len() == 0 && r.cursor == 0 && r.eof
        },
        read is Ok <==> resolved(root@, link.path@, facts) is Ok,
        read matches Err(r) ==> r.op == 0x09 && r.seq == link.seq && r.status == 2
            && r.target@.len() == 0,
        opened is Ok <==> resolved(root@, open.path@, facts) is Ok,
        opened matches Err(r) ==> r.op == 0x10 && r.seq == open.seq && r.status == 2 && r.handle
            == 0 && r.stat is None,
{
}

/// The target of a link is sent as the link holds it.
pub proof fn law_link_targets_are_sent_as_they_are(
    req: PathRequest,
    target: Result<String, IoErrorKind>,
    r: ReadLinkResponse,
)
    requires
        call_ensures(readlink_reply, (&req, target), r),
    ensures
        r.op == 0x09 && r.seq == req.seq,
        r.status == 0 <==> target is Ok,
        target matches Ok(t) ==> r.target@ == t@,
        target is Err ==> r.target@.len() == 0,
{
    if target is Err {
        crate::common::status::law_error_is_never_ok(target->Err_0);
    }
}

} // verus!
