//! What the FUSE callbacks decide: attributes as the kernel sees them, what is cached,
//! and what has to be flushed first.

use vstd::prelude::*;

use crate::client::errno::is_not_found;
use crate::client::inodes::{
    lemma_strip_slashes, lemma_strip_slashes_components, strip_slashes, without_slashes,
};
use crate::common::frames::{SetAttrRequest, OP_SET_ATTR};
use crate::common::stat::{DirEntry, Stat};
use crate::common::status::IoErrorKind;
use crate::path::{components, is_name, join, law_join_adds_component};
use crate::server::ops::data::O_TRUNC;
use crate::server::ops::meta::{
    VALID_ATIME, VALID_GID, VALID_MODE, VALID_MTIME, VALID_SIZE, VALID_UID,
};
use crate::text::{chars_of, copy_of, has_text, string_of};
use crate::time::{low_i64, Duration};

verus! {

/// How long the kernel may keep attributes: not at all, whatever the cache's own lifetime
/// is. The kernel asks again each time, so that a change shows in the very next call.
pub fn fuse_ttl_from_cache_ms(ms: u64) -> (res: Duration)
    ensures
        res.nanos() == 0,
{
    Duration::from_millis(0)
}

// ── attributes ───────────────────────────────────────────────────────────────
/// What kind of file a mode describes.
#[derive(Clone, Copy, Debug, PartialEq, Eq, Structural)]
pub enum FileKind {
    Directory,
    RegularFile,
    Symlink,
    NamedPipe,
    CharDevice,
    BlockDevice,
    Socket,
}

/// The file type bits of a mode.
pub open spec fn type_bits(mode: u32) -> u32 {
    (mode >> 12) & 0xF
}

/// The kind of a file; a type that is not known counts as a regular file.
pub open spec fn kind_of(mode: u32) -> FileKind {
    if type_bits(mode) == 0x4 {
        FileKind::Directory
    } else if type_bits(mode) == 0xA {
        FileKind::Symlink
    } else if type_bits(mode) == 0x1 {
        FileKind::NamedPipe
    } else if type_bits(mode) == 0x2 {
        FileKind::CharDevice
    } else if type_bits(mode) == 0x6 {
        FileKind::BlockDevice
    } else if type_bits(mode) == 0xC {
        FileKind::Socket
    } else {
        FileKind::RegularFile
    }
}

pub fn mode_to_file_type(mode: u32) -> (res: FileKind)
    ensures
        res == kind_of(mode),
{
    let bits: u32 = (mode >> 12) & 0xF;
    match bits {
        0x4 => FileKind::Directory,
        0xA => FileKind::Symlink,
        0x1 => FileKind::NamedPipe,
        0x2 => FileKind::CharDevice,
        0x6 => FileKind::BlockDevice,
        0xC => FileKind::Socket,
        _ => FileKind::RegularFile,
    }
}

/// The attributes are those of a directory.
pub fn is_dir(stat: &Stat) -> (res: bool)
    ensures
        res == (type_bits(stat.mode) == 0x4),
{
    (stat.mode >> 12) & 0xF == 0x4
}

/// A point in time: a span before or behind the Unix epoch.
#[derive(Clone, Copy, Debug)]
pub struct Timestamp {
    pub before_epoch: bool,
    pub span: Duration,
}

pub open spec fn is_timestamp(t: Timestamp, ns: i64) -> bool {
    &&& t.before_epoch == (ns < 0)
    &&& t.span.nanos() == (if ns < 0 {
        -(ns as int)
    } else {
        ns as int
    })
}

pub fn ns_to_timestamp(ns: i64) -> (res: Timestamp)
    ensures
        is_timestamp(res, ns),
{
    let n: u64 = if ns < 0 {
        (-(ns as i128)) as u64
    } else {
        ns as u64
    };
    Timestamp {
        before_epoch: ns < 0,
        span: Duration { secs: n / 1_000_000_000, nanos: (n % 1_000_000_000) as u32 },
    }
}

/// The nanoseconds of a time, as the wire carries them: a time before the epoch counts as
/// the epoch, and one that 63 bits do not hold wraps.
pub open spec fn wire_ns(t: Timestamp) -> int {
    if t.before_epoch {
        0
    } else {
        low_i64(t.span.nanos() as int)
    }
}

pub fn timestamp_to_ns(t: &Timestamp) -> (res: i64)
    ensures
        res == wire_ns(*t),
{
    if t.before_epoch {
        0
    } else {
        t.span.wrapped_nanos()
    }
}

/// A time that the wire carried comes back as it was.
pub proof fn law_times_survive_the_wire(t: Timestamp, ns: i64)
    requires
        is_timestamp(t, ns),
        ns >= 0,
    ensures
        wire_ns(t) == ns,
{
}

/// A file's attributes as the kernel is told.
#[derive(Clone, Copy, Debug)]
pub struct FileAttr {
    pub ino: u64,
    pub size: u64,
    pub blocks: u64,
    pub atime: Timestamp,
    pub mtime: Timestamp,
    pub ctime: Timestamp,
    pub crtime: Timestamp,
    pub kind: FileKind,
    pub perm: u16,
    pub nlink: u32,
    pub uid: u32,
    pub gid: u32,
    pub rdev: u32,
    pub blksize: u32,
    pub flags: u32,
}

/// `a` are the attributes of the file `ino`, with owner and group replaced where the
/// mount asks for it.
pub open spec fn is_file_attr(
    a: FileAttr,
    stat: Stat,
    ino: u64,
    uid_override: Option<u32>,
    gid_override: Option<u32>,
) -> bool {
    &&& a.ino == ino
    &&& a.size == stat.size
    &&& a.blocks == stat.blocks
    &&& is_timestamp(a.atime, stat.atime)
    &&& is_timestamp(a.mtime, stat.mtime)
    &&& is_timestamp(a.ctime, stat.ctime)
    &&& is_timestamp(a.crtime, stat.ctime)
    &&& a.kind == kind_of(stat.mode)
    &&& a.perm == stat.mode & 0xFFF
    &&& a.nlink == stat.nlink
    &&& a.uid == (match uid_override {
        Some(u) => u,
        None => stat.uid,
    })
    &&& a.gid == (match gid_override {
        Some(g) => g,
        None => stat.gid,
    })
    &&& a.rdev == 0
    &&& a.blksize == stat.blksz
    &&& a.flags == 0
}

/// The attributes of the file `ino` as the kernel is told.
pub fn stat_to_file_attr(
    stat: &Stat,
    ino: u64,
    uid_override: Option<u32>,
    gid_override: Option<u32>,
) -> (res: FileAttr)
    ensures
        is_file_attr(res, *stat, ino, uid_override, gid_override),
{
    let mode: u32 = stat.mode;
    assert(mode & 0xFFF <= 0xFFF) by (bit_vector);
    FileAttr {
        ino,
        size: stat.size,
        blocks: stat.blocks,
        atime: ns_to_timestamp(stat.atime),
        mtime: ns_to_timestamp(stat.mtime),
        ctime: ns_to_timestamp(stat.ctime),
        crtime: ns_to_timestamp(stat.ctime),
        kind: mode_to_file_type(stat.mode),
        perm: (mode & 0xFFF) as u16,
        nlink: stat.nlink,
        uid: match uid_override {
            Some(u) => u,
            None => stat.uid,
        },
        gid: match gid_override {
            Some(g) => g,
            None => stat.gid,
        },
        rdev: 0,
        blksize: stat.blksz,
        flags: 0,
    }
}

// ── stat ─────────────────────────────────────────────────────────────────────
/// What a lookup of attributes answers and what it leaves in the cache.
#[derive(Clone, Copy, Debug)]
pub enum StatNext {
    /// Answer with these attributes.
    Found(Stat),
    /// Answer with these attributes and cache them.
    FoundAndCache(Stat),
    /// The path does not exist; the cache knows.
    Missing,
    /// The path does not exist; cache that.
    MissingAndCache,
    /// Ask the server.
    Ask,
    /// Answer with a failure.
    Failed,
}

/// What the cache's answer means.
pub open spec fn cached_means(cached: Option<Result<Stat, ()>>) -> StatNext {
    match cached {
        None => StatNext::Ask,
        Some(Ok(s)) => StatNext::Found(s),
        Some(Err(_)) => StatNext::Missing,
    }
}

pub fn stat_cached(cached: Option<Result<Stat, ()>>) -> (res: StatNext)
    ensures
        res == cached_means(cached),
{
    match cached {
        None => StatNext::Ask,
        Some(Ok(s)) => StatNext::Found(s),
        Some(Err(_)) => StatNext::Missing,
    }
}

/// What the server's answer means. Attributes are cached only where every buffered
/// write had reached the server before they were read: otherwise their size is too
/// small. A message that names `NotFound` says that the path does not exist.
pub fn stat_answered(flushed: bool, answer: Result<Stat, &str>) -> (res: StatNext)
    ensures
        res == (match answer {
            Ok(s) => if flushed {
                StatNext::FoundAndCache(s)
            } else {
                StatNext::Found(s)
            },
            Err(msg) => if has_text(msg@, "NotFound"@) {
                StatNext::MissingAndCache
            } else {
                StatNext::Failed
            },
        }),
{
    match answer {
        Ok(s) => if flushed {
            StatNext::FoundAndCache(s)
        } else {
            StatNext::Found(s)
        },
        Err(msg) => if is_not_found(msg) {
            StatNext::MissingAndCache
        } else {
            StatNext::Failed
        },
    }
}

/// The error of a path that does not exist.
pub fn not_found_err() -> (res: IoErrorKind)
    ensures
        res == IoErrorKind::NotFound,
{
    IoErrorKind::NotFound
}

// ── setattr ──────────────────────────────────────────────────────────────────
/// The attributes that the kernel asks to change. Times are nanoseconds since the epoch.
#[derive(Clone, Copy, Debug)]
pub struct AttrChange {
    pub mode: Option<u32>,
    pub uid: Option<u32>,
    pub gid: Option<u32>,
    pub size: Option<u64>,
    pub atime: Option<i64>,
    pub mtime: Option<i64>,
}

/// Which buffered writes must have reached the server before an operation.
#[derive(Clone, Copy, Debug, PartialEq, Eq, Structural)]
pub enum Fence {
    Nothing,
    File(u64),
    Everything,
}

/// A change of size comes behind the buffered writes: one that came later would make the
/// file grow again. Where the open file is not known, all of them are meant.
pub fn setattr_fence(change: &AttrChange, fh: Option<u64>) -> (res: Fence)
    ensures
        res == (if change.size is None {
            Fence::Nothing
        } else {
            match fh {
                Some(f) => Fence::File(f),
                None => Fence::Everything,
            }
        }),
{
    if change.size.is_none() {
        Fence::Nothing
    } else {
        match fh {
            Some(f) => Fence::File(f),
            None => Fence::Everything,
        }
    }
}

/// A truncating open or create comes behind all buffered writes, where there are any.
pub fn fence_truncating_open(flags: u32, buffered: usize) -> (res: Fence)
    ensures
        res == (if flags & O_TRUNC != 0 && buffered > 0 {
            Fence::Everything
        } else {
            Fence::Nothing
        }),
{
    if flags & O_TRUNC == 0 {
        return Fence::Nothing;
    }
    if buffered == 0 {
        return Fence::Nothing;
    }
    Fence::Everything
}

/// A stat comes behind all buffered writes, where there are any: the size that the server
/// has does not count them yet.
pub fn stat_fence(buffered: usize) -> (res: Fence)
    ensures
        res == (if buffered > 0 {
            Fence::Everything
        } else {
            Fence::Nothing
        }),
{
    if buffered > 0 {
        Fence::Everything
    } else {
        Fence::Nothing
    }
}

/// A bit where an attribute is changed.
pub open spec fn bit_if(set: bool, bit: u32) -> u32 {
    if set {
        bit
    } else {
        0
    }
}

/// The bits of the attributes that a change names.
pub open spec fn valid_bits(c: AttrChange) -> u32 {
    bit_if(c.mode is Some, VALID_MODE) | bit_if(c.uid is Some, VALID_UID) | bit_if(
        c.gid is Some,
        VALID_GID,
    ) | bit_if(c.size is Some, VALID_SIZE) | bit_if(c.atime is Some, VALID_ATIME) | bit_if(
        c.mtime is Some,
        VALID_MTIME,
    )
}

fn flag(set: bool, bit: u32) -> (res: u32)
    ensures
        res == bit_if(set, bit),
{
    if set {
        bit
    } else {
        0
    }
}

/// Each bit of a request stands for exactly the attribute that was named.
pub proof fn law_valid_bits_name_attributes(c: AttrChange)
    ensures
        valid_bits(c) & VALID_MODE != 0 <==> c.mode is Some,
        valid_bits(c) & VALID_UID != 0 <==> c.uid is Some,
        valid_bits(c) & VALID_GID != 0 <==> c.gid is Some,
        valid_bits(c) & VALID_SIZE != 0 <==> c.size is Some,
        valid_bits(c) & VALID_ATIME != 0 <==> c.atime is Some,
        valid_bits(c) & VALID_MTIME != 0 <==> c.mtime is Some,
{
    let a = bit_if(c.mode is Some, VALID_MODE);
    let b = bit_if(c.uid is Some, VALID_UID);
    let d = bit_if(c.gid is Some, VALID_GID);
    let e = bit_if(c.size is Some, VALID_SIZE);
    let f = bit_if(c.atime is Some, VALID_ATIME);
    let g = bit_if(c.mtime is Some, VALID_MTIME);
    assert((a == 0 || a == 0x1) && (b == 0 || b == 0x2) && (d == 0 || d == 0x4) && (e == 0 || e
        == 0x8) && (f == 0 || f == 0x10) && (g == 0 || g == 0x20) ==> {
        &&& ((a | b | d | e | f | g) & 0x1 != 0 <==> a == 0x1)
        &&& ((a | b | d | e | f | g) & 0x2 != 0 <==> b == 0x2)
        &&& ((a | b | d | e | f | g) & 0x4 != 0 <==> d == 0x4)
        &&& ((a | b | d | e | f | g) & 0x8 != 0 <==> e == 0x8)
        &&& ((a | b | d | e | f | g) & 0x10 != 0 <==> f == 0x10)
        &&& ((a | b | d | e | f | g) & 0x20 != 0 <==> g == 0x20)
    }) by (bit_vector);
}

/// `r` asks for a change: an attribute that is not named is zero, without its bit.
pub open spec fn asks_for(r: SetAttrRequest, c: AttrChange) -> bool {
    &&& r.op == OP_SET_ATTR
    &&& r.valid == valid_bits(c)
    &&& r.mode == (match c.mode {
        Some(v) => v,
        None => 0,
    })
    &&& r.uid == (match c.uid {
        Some(v) => v,
        None => 0,
    })
    &&& r.gid == (match c.gid {
        Some(v) => v,
        None => 0,
    })
    &&& r.size == (match c.size {
        Some(v) => v,
        None => 0,
    })
    &&& r.atime == (match c.atime {
        Some(v) => v,
        None => 0,
    })
    &&& r.mtime == (match c.mtime {
        Some(v) => v,
        None => 0,
    })
}

/// The request for a change of attributes.
pub fn setattr_request(seq: u64, path: &str, c: &AttrChange) -> (res: SetAttrRequest)
    ensures
        asks_for(res, *c),
        res.seq == seq,
        res.path@ == path@,
{
    let valid: u32 = flag(c.mode.is_some(), VALID_MODE) | flag(c.uid.is_some(), VALID_UID) | flag(
        c.gid.is_some(),
        VALID_GID,
    ) | flag(c.size.is_some(), VALID_SIZE) | flag(c.atime.is_some(), VALID_ATIME) | flag(
        c.mtime.is_some(),
        VALID_MTIME,
    );
    SetAttrRequest {
        op: OP_SET_ATTR,
        seq,
        path: copy_of(path),
        valid,
        mode: match c.mode {
            Some(v) => v,
            None => 0,
        },
        uid: match c.uid {
            Some(v) => v,
            None => 0,
        },
        gid: match c.gid {
            Some(v) => v,
            None => 0,
        },
        size: match c.size {
            Some(v) => v,
            None => 0,
        },
        atime: match c.atime {
            Some(v) => v,
            None => 0,
        },
        mtime: match c.mtime {
            Some(v) => v,
            None => 0,
        },
    }
}

// ── readdir ──────────────────────────────────────────────────────────────────
/// The path of an entry in a listing.
pub open spec fn listed_path(dir: Seq<char>, name: Seq<char>) -> Seq<char> {
    strip_slashes(dir).push('/') + name
}

pub fn listed_child(dir: &str, name: &str) -> (res: String)
    ensures
        res@ == listed_path(dir@, name@),
{
    let d = without_slashes(chars_of(dir));
    let mut out = string_of(d.as_slice());
    out.push('/');
    out.append(name);
    out
}

/// One entry as the kernel is told.
pub struct ListedEntry {
    /// The entry's path, whose inode number goes with it.
    pub path: String,
    /// Where a listing that stops behind this entry goes on.
    pub next_offset: u64,
    pub kind: FileKind,
    pub name: String,
}

pub open spec fn is_listed(e: ListedEntry, dir: Seq<char>, d: DirEntry, i: int) -> bool {
    &&& e.path@ == listed_path(dir, d.name@)
    &&& e.next_offset == i + 1
    &&& e.kind == kind_of(d.mode)
    &&& e.name@ == d.name@
}

/// The entries from `offset` on: every entry behind it once, in order, with the offset
/// that follows it.
pub fn dir_listing(dir: &str, entries: &Vec<DirEntry>, offset: u64) -> (res: Vec<ListedEntry>)
    ensures
        res@.len() == (if offset < entries@.len() {
            entries@.len() - offset
        } else {
            0
        }),
        forall|i: int|
            0 <= i < res@.len() ==> is_listed(
                #[trigger] res@[i],
                dir@,
                entries@[offset + i],
                offset + i,
            ),
{
    let mut out: Vec<ListedEntry> = Vec::new();
    if offset >= entries.len() as u64 {
        return out;
    }
    let mut i: usize = offset as usize;
    while i < entries.len()
        invariant
            offset <= i <= entries.len(),
            out@.len() == i - offset,
            forall|k: int|
                0 <= k < out@.len() ==> is_listed(
                    #[trigger] out@[k],
                    dir@,
                    entries@[offset + k],
                    offset + k,
                ),
        decreases entries.len() - i,
    {
        out.push(
            ListedEntry {
                path: listed_child(dir, entries[i].name.as_str()),
                next_offset: (i as u64) + 1,
                kind: mode_to_file_type(entries[i].mode),
                name: copy_of(entries[i].name.as_str()),
            },
        );
        i = i + 1;
    }
    out
}

// ── laws ─────────────────────────────────────────────────────────────────────
/// The kind of a file stands in the four bits that POSIX gives it.
pub proof fn law_kinds_follow_the_type_bits(mode: u32)
    ensures
        kind_of(mode) is Directory <==> mode & 0o170000 == 0o040000,
        kind_of(mode) is Symlink <==> mode & 0o170000 == 0o120000,
        kind_of(mode) is NamedPipe <==> mode & 0o170000 == 0o010000,
        kind_of(mode) is CharDevice <==> mode & 0o170000 == 0o020000,
        kind_of(mode) is BlockDevice <==> mode & 0o170000 == 0o060000,
        kind_of(mode) is Socket <==> mode & 0o170000 == 0o140000,
        mode & 0o170000 == 0o100000 ==> kind_of(mode) is RegularFile,
        type_bits(mode) == 0x4 <==> mode & 0o170000 == 0o040000,
{
    assert((mode >> 12) & 0xF == 0x4 <==> mode & 0o170000 == 0o040000) by (bit_vector);
    assert((mode >> 12) & 0xF == 0xA <==> mode & 0o170000 == 0o120000) by (bit_vector);
    assert((mode >> 12) & 0xF == 0x1 <==> mode & 0o170000 == 0o010000) by (bit_vector);
    assert((mode >> 12) & 0xF == 0x2 <==> mode & 0o170000 == 0o020000) by (bit_vector);
    assert((mode >> 12) & 0xF == 0x6 <==> mode & 0o170000 == 0o060000) by (bit_vector);
    assert((mode >> 12) & 0xF == 0xC <==> mode & 0o170000 == 0o140000) by (bit_vector);
}

/// The kernel is told the attributes that the server sent: size, links, permission bits
/// and times, each time as its distance from the epoch on its side of it. Owner and group
/// are the server's, except where the mount replaces them.
pub proof fn law_kernel_is_told_what_the_server_sent(
    stat: Stat,
    ino: u64,
    uid: Option<u32>,
    gid: Option<u32>,
    a: FileAttr,
)
    requires
        call_ensures(stat_to_file_attr, (&stat, ino, uid, gid), a),
    ensures
        a.ino == ino && a.size == stat.size && a.blocks == stat.blocks && a.nlink == stat.nlink,
        a.perm == stat.mode & 0o7777,
        a.kind == kind_of(stat.mode),
        a.uid == (if uid is Some {
            uid->0
        } else {
            stat.uid
        }),
        a.gid == (if gid is Some {
            gid->0
        } else {
            stat.gid
        }),
        a.mtime.before_epoch <==> stat.mtime < 0,
        stat.mtime >= 0 ==> a.mtime.span.nanos() == stat.mtime,
        stat.mtime < 0 ==> a.mtime.span.nanos() == -stat.mtime,
        a.atime.before_epoch <==> stat.atime < 0,
        stat.atime >= 0 ==> a.atime.span.nanos() == stat.atime,
        stat.atime < 0 ==> a.atime.span.nanos() == -stat.atime,
        a.ctime.before_epoch <==> stat.ctime < 0,
        stat.ctime >= 0 ==> a.ctime.span.nanos() == stat.ctime,
        stat.ctime < 0 ==> a.ctime.span.nanos() == -stat.ctime,
        a.crtime.before_epoch == a.ctime.before_epoch,
        a.crtime.span.nanos() == a.ctime.span.nanos(),
        a.blksize == stat.blksz,
        a.rdev == 0 && a.flags == 0,
{
}

/// A time that the kernel sets is sent as it is, as long as 63 bits hold it; one before
/// the epoch is sent as the epoch.
pub proof fn law_set_times_are_sent_as_they_are(t: Timestamp)
    ensures
        t.before_epoch ==> wire_ns(t) == 0,
        !t.before_epoch && t.span.nanos() < 0x8000_0000_0000_0000 ==> wire_ns(t)
            == t.span.nanos(),
{
}

/// What the cache knows is answered without asking, and what it does not know is asked.
pub proof fn law_cache_answers_what_it_knows(cached: Option<Result<Stat, ()>>, next: StatNext)
    requires
        call_ensures(stat_cached, (cached,), next),
    ensures
        next is Ask <==> cached is None,
        next matches StatNext::Found(s) ==> cached == Some(Ok::<Stat, ()>(s)),
        next is Found <==> cached is Some && cached->0 is Ok,
        next is Missing <==> cached is Some && cached->0 is Err,
{
}

/// An entry of a listing is shown under the path that leads to it from the directory, with
/// its name, its kind and the place behind it.
pub proof fn law_listed_entries_lie_in_the_directory(
    e: ListedEntry,
    dir: Seq<char>,
    d: DirEntry,
    i: int,
)
    requires
        is_listed(e, dir, d, i),
        dir.len() > 0,
        dir[0] == '/',
        is_name(d.name@),
    ensures
        components(e.path@) == components(dir).push(d.name@),
        e.name@ == d.name@,
        e.kind == kind_of(d.mode),
        e.next_offset == i + 1,
{
    lemma_strip_slashes(dir);
    lemma_strip_slashes_components(dir);
    let t = strip_slashes(dir);
    let name = d.name@;
    assert(name.contains(name[0]));
    if t.len() == 0 {
        assert(t.push('/') + name =~= join(seq!['/'], name));
        law_join_adds_component(seq!['/'], name);
    } else {
        assert(t.push('/') + name =~= join(t, name));
        law_join_adds_component(t, name);
    }
}

/// What would cut a file short waits for the bytes that are buffered: a change of size for
/// those of its file, or for all where the file is not known, and a truncating open, which
/// has 0x200 among its flags, for all. Nothing else waits, and nothing waits for nothing.
pub proof fn law_cutting_waits_for_buffered_bytes(
    change: AttrChange,
    fh: Option<u64>,
    flags: u32,
    buffered: usize,
    set: Fence,
    open: Fence,
)
    requires
        call_ensures(setattr_fence, (&change, fh), set),
        call_ensures(fence_truncating_open, (flags, buffered), open),
    ensures
        set is Nothing <==> change.size is None,
        change.size is Some ==> (fh matches Some(f) ==> set == Fence::File(f)),
        change.size is Some && fh is None ==> set is Everything,
        open is Everything <==> flags & 0x200 != 0 && buffered > 0,
        open is Nothing <==> !(flags & 0x200 != 0 && buffered > 0),
{
}

/// The request for a change names each attribute by its bit: 0x1 the mode, 0x2 the owner,
/// 0x4 the group, 0x8 the size, 0x10 and 0x20 the times, and carries what was asked for.
pub proof fn law_changes_are_sent_as_asked(
    seq: u64,
    path: &str,
    c: AttrChange,
    r: SetAttrRequest,
)
    requires
        call_ensures(setattr_request, (seq, path, &c), r),
    ensures
        r.op == 0x02 && r.seq == seq && r.path@ == path@,
        r.valid & 0x1 != 0 <==> c.mode is Some,
        r.valid & 0x2 != 0 <==> c.uid is Some,
        r.valid & 0x4 != 0 <==> c.gid is Some,
        r.valid & 0x8 != 0 <==> c.size is Some,
        r.valid & 0x10 != 0 <==> c.atime is Some,
        r.valid & 0x20 != 0 <==> c.mtime is Some,
        c.mode matches Some(v) ==> r.mode == v,
        c.uid matches Some(v) ==> r.uid == v,
        c.gid matches Some(v) ==> r.gid == v,
        c.size matches Some(v) ==> r.size == v,
        c.atime matches Some(v) ==> r.atime == v,
        c.mtime matches Some(v) ==> r.mtime == v,
        c.mode is None ==> r.mode == 0,
        c.uid is None ==> r.uid == 0,
        c.gid is None ==> r.gid == 0,
        c.size is None ==> r.size == 0,
        c.atime is None ==> r.atime == 0,
        c.mtime is None ==> r.mtime == 0,
{
    law_valid_bits_name_attributes(c);
}

} // verus!
