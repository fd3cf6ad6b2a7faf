//! Open files and their buffered writes.
//!
//! The kernel holds a stable number for every open file; the server's handle behind
//! it changes with every reconnect. Buffered writes go out through that handle and
//! leave the buffer only when they are acknowledged. Where bytes are given up, the
//! file is marked, and the mark is reported when it is next flushed.

use std::collections::{HashMap, HashSet};

use vstd::prelude::*;

use crate::client::errno::{EIO, ESTALE};
use crate::client::writebuf::{
    acked, buffered_bytes, law_push_keeps_chunks, lemma_total_len_split, lists_older, push_outcome,
    runs_of, state_of, Chunk, FlushBatch, HandleState, Limits, PushDecision, WriteBuffer,
};
use crate::image::{coalesce, sorted_by_offset, Run};
use crate::server::ops::data::{is_append, O_APPEND};
use crate::text::copy_of;
use crate::time::{Clock, Duration};

verus! {

broadcast use vstd::std_specs::hash::group_hash_axioms;

/// How long acknowledged-to-the-application bytes may wait for the server before they
/// are given up: 120 seconds.
pub const MAX_UNACKED_AGE_SECS: u64 = 120;

/// Configuration for the write buffer.
#[derive(Clone, Copy, Debug)]
pub struct WriteBufConfig {
    /// Bytes buffered per file before a flush is asked for.
    pub max_per_handle_bytes: usize,
    /// Bytes buffered over all files before a flush is asked for.
    pub max_total_bytes: usize,
    /// Coalesce window in milliseconds.
    pub window_ms: u64,
}

impl Default for WriteBufConfig {
    fn default() -> (res: Self)
        ensures
            res.max_per_handle_bytes == 4 * 1024 * 1024,
            res.max_total_bytes == 32 * 1024 * 1024,
            res.window_ms == 10,
    {
        WriteBufConfig {
            max_per_handle_bytes: 4 * 1024 * 1024,
            max_total_bytes: 32 * 1024 * 1024,
            window_ms: 10,
        }
    }
}

/// What flush and fsync reply, given whether the flush failed and whether the file was
/// marked before. Bytes that did not reach the server are never passed over: the
/// failure of this flush comes first, a mark is `EIO`.
pub fn flush_reply(flush_err: Option<i32>, had_sticky: bool) -> (res: Result<(), i32>)
    ensures
        res == (match flush_err {
            Some(errno) => Err::<(), i32>(errno),
            None => if had_sticky {
                Err(EIO)
            } else {
                Ok(())
            },
        }),
        res is Ok <==> flush_err is None && !had_sticky,
{
    match flush_err {
        Some(errno) => Err(errno),
        None => if had_sticky {
            Err(EIO)
        } else {
            Ok(())
        },
    }
}

/// An open file.
pub struct OpenFile {
    /// Remote path, for opening it again after a reconnect.
    pub path: String,
    /// The flags that it was opened with.
    pub flags: u32,
    /// The server's handle now.
    pub server_handle: u64,
    /// The connection's generation that the handle belongs to.
    pub opened_gen: u64,
    /// The file is appended to: its bytes are never sent twice.
    pub is_append: bool,
}

/// How a file can be reached.
pub enum Live {
    /// It is not open.
    Unknown,
    /// Through this handle.
    Ready(u64),
    /// Its handle is of an earlier connection and may not be renewed here.
    Stale,
    /// Its handle is of an earlier connection: open this path with these flags.
    Reopen { path: String, flags: u32, is_append: bool },
}

/// The flags to open a file again with: access mode and appending stay, what created
/// or truncated it the first time goes.
pub open spec fn reopen_flags(flags: u32) -> u32 {
    (flags & 0x3) | (flags & O_APPEND)
}

/// Opening again never creates, never truncates, and appends where it did before.
pub proof fn law_reopen_is_harmless(flags: u32)
    ensures
        reopen_flags(flags) & 0x40 == 0,
        reopen_flags(flags) & 0x80 == 0,
        reopen_flags(flags) & 0x200 == 0,
        reopen_flags(flags) & 0x3 == flags & 0x3,
        is_append(reopen_flags(flags)) == is_append(flags),
{
    assert(((flags & 0x3) | (flags & 0x400)) & 0x40 == 0) by (bit_vector);
    assert(((flags & 0x3) | (flags & 0x400)) & 0x80 == 0) by (bit_vector);
    assert(((flags & 0x3) | (flags & 0x400)) & 0x200 == 0) by (bit_vector);
    assert(((flags & 0x3) | (flags & 0x400)) & 0x3 == flags & 0x3) by (bit_vector);
    assert(((flags & 0x3) | (flags & 0x400)) & 0x400 == flags & 0x400) by (bit_vector);
}

/// Why a flush failed.
#[derive(Clone, Copy, Debug, PartialEq, Eq, Structural)]
pub enum FlushError {
    /// The file cannot be reached; its bytes stay buffered.
    NotLive,
    /// The server did not take the bytes.
    SendFailed,
}

/// A flush in progress.
#[derive(Clone, Copy, Debug)]
pub struct FlushRun {
    pub fh: u64,
    /// A stale handle may be renewed.
    pub allow_reopen: bool,
    /// Sends that may still be tried.
    pub tries_left: u32,
}

/// What a flush does next.
pub enum FlushNext {
    /// Find out how the file is reached.
    Resolve,
    /// Send a batch through a handle, and report how that went.
    Send { handle: u64, batch: FlushBatch },
    /// The flush is over.
    Finished(Result<(), FlushError>),
}

impl FlushRun {
    pub fn new(fh: u64, allow_reopen: bool) -> (res: Self)
        ensures
            res == (FlushRun { fh, allow_reopen, tries_left: 2 }),
    {
        FlushRun { fh, allow_reopen, tries_left: 2 }
    }
}

/// What a write replies.
#[derive(Clone, Copy, Debug, PartialEq, Eq, Structural)]
pub enum WriteReply {
    /// The bytes are buffered.
    Accepted,
    /// The bytes are buffered; flush this file to reclaim memory, and accept whatever
    /// comes of that.
    FlushFirst(u64),
    /// The bytes could not be buffered.
    Failed,
}

/// The open files of a mount and what is buffered for them.
pub struct WriteBack {
    files: HashMap<u64, OpenFile>,
    buf: WriteBuffer,
    errors: HashSet<u64>,
    next_fh: u64,
}

/// Bytes that were buffered are still there, in their order and before any later ones,
/// or their file is marked.
pub open spec fn kept_or_reported(
    before: Map<u64, HandleState>,
    after: Map<u64, HandleState>,
    marked: Set<u64>,
) -> bool {
    forall|k: u64|
        #![trigger marked.contains(k)]
        #![trigger state_of(after, k)]
        state_of(before, k).bytes() > 0 ==> state_of(before, k).chunks.is_prefix_of(
            state_of(after, k).chunks,
        ) || marked.contains(k)
}

proof fn lemma_same_is_prefix(s: Seq<Chunk>)
    ensures
        s.is_prefix_of(s),
{
    assert(s.subrange(0, s.len() as int) =~= s);
}

proof fn lemma_prefix_bytes(a: HandleState, b: HandleState)
    requires
        a.chunks.is_prefix_of(b.chunks),
    ensures
        a.bytes() <= b.bytes(),
{
    lemma_total_len_split(b.runs(), a.chunks.len() as int);
    assert(b.runs().take(a.chunks.len() as int) =~= a.runs());
}

/// Steps that keep or report what is buffered do so together: whatever was buffered
/// before several of them is still there after the last, or its file is marked.
pub proof fn law_loss_is_reported_across_steps(
    before: Map<u64, HandleState>,
    mid: Map<u64, HandleState>,
    after: Map<u64, HandleState>,
    marked_mid: Set<u64>,
    marked_after: Set<u64>,
)
    requires
        kept_or_reported(before, mid, marked_mid),
        kept_or_reported(mid, after, marked_after),
        marked_mid.subset_of(marked_after),
    ensures
        kept_or_reported(before, after, marked_after),
{
    assert forall|k: u64|
        #![trigger marked_after.contains(k)]
        #![trigger state_of(after, k)]
        state_of(before, k).bytes() > 0 implies state_of(before, k).chunks.is_prefix_of(
        state_of(after, k).chunks,
    ) || marked_after.contains(k) by {
        if !marked_mid.contains(k) {
            lemma_prefix_bytes(state_of(before, k), state_of(mid, k));
            let (a, b, c) = (
                state_of(before, k).chunks,
                state_of(mid, k).chunks,
                state_of(after, k).chunks,
            );
            if !marked_after.contains(k) {
                assert(a =~= c.subrange(0, a.len() as int)) by {
                    assert(a == b.subrange(0, a.len() as int));
                    assert(b == c.subrange(0, b.len() as int));
                }
            }
        }
    }
}

/// The files that lose bytes when some are given up, and how many.
pub open spec fn losses(before: Map<u64, HandleState>, fhs: Seq<u64>) -> Seq<(u64, usize)>
    decreases fhs.len(),
{
    if fhs.len() == 0 {
        Seq::empty()
    } else {
        let rest = losses(before, fhs.drop_last());
        let bytes = state_of(before, fhs.last()).bytes();
        if bytes > 0 {
            rest.push((fhs.last(), bytes as usize))
        } else {
            rest
        }
    }
}

impl WriteBack {
    /// The open files.
    pub closed spec fn files(&self) -> Map<u64, OpenFile> {
        self.files@
    }

    /// What is buffered for them.
    pub closed spec fn buffered(&self) -> Map<u64, HandleState> {
        self.buf@
    }

    /// The files that lost bytes and have not reported it yet.
    pub closed spec fn marked(&self) -> Set<u64> {
        self.errors@
    }

    pub closed spec fn limits(&self) -> Limits {
        self.buf.limits()
    }

    /// The clock that the age of buffered bytes is measured by.
    pub closed spec fn clock(&self) -> Clock {
        self.buf.clock()
    }

    /// The number that the next file gets.
    pub closed spec fn next_number(&self) -> u64 {
        self.next_fh
    }

    pub closed spec fn wf(&self) -> bool {
        self.buf.wf()
    }

    /// Nothing but the buffered writes and the marks differs.
    pub open spec fn same_files(&self, other: &WriteBack) -> bool {
        &&& self.files() == other.files()
        &&& self.next_number() == other.next_number()
        &&& self.limits() == other.limits()
        &&& self.clock() == other.clock()
    }

    pub fn new(cfg: &WriteBufConfig) -> (res: Self)
        ensures
            res.wf(),
            res.files() == Map::<u64, OpenFile>::empty(),
            res.buffered() == Map::<u64, HandleState>::empty(),
            res.marked() == Set::<u64>::empty(),
            res.next_number() == 1,
            res.limits().per_handle == cfg.max_per_handle_bytes,
            res.limits().total == cfg.max_total_bytes,
            res.limits().hard == (if 2 * cfg.max_total_bytes <= usize::MAX {
                2 * cfg.max_total_bytes
            } else {
                usize::MAX as int
            }),
            res.limits().window.nanos() == cfg.window_ms * 1_000_000,
            res.clock().is_started(),
    {
        WriteBack {
            files: HashMap::new(),
            buf: WriteBuffer::new(cfg.max_per_handle_bytes, cfg.max_total_bytes, cfg.window_ms),
            errors: HashSet::new(),
            next_fh: 1,
        }
    }

    /// Register a file that was just opened at generation `gen`; returns the kernel's
    /// number for it.
    pub fn register_open(&mut self, path: String, flags: u32, server_handle: u64, gen: u64) -> (res:
        u64)
        requires
            old(self).wf(),
        ensures
            final(self).wf(),
            res == old(self).next_number(),
            final(self).next_number() == res.wrapping_add(1),
            final(self).files() == old(self).files().insert(
                res,
                (OpenFile {
                    path,
                    flags,
                    server_handle,
                    opened_gen: gen,
                    is_append: is_append(flags),
                }),
            ),
            final(self).buffered() == old(self).buffered(),
            final(self).marked() == old(self).marked(),
            final(self).limits() == old(self).limits(),
            final(self).clock() == old(self).clock(),
    {
        let fh: u64 = self.next_fh;
        self.next_fh = fh.wrapping_add(1);
        self.files.insert(
            fh,
            OpenFile {
                path,
                flags,
                server_handle,
                opened_gen: gen,
                is_append: flags & O_APPEND != 0,
            },
        );
        fh
    }

    /// How a file is reached at generation `gen`.
    pub fn live(&self, fh: u64, gen: u64, allow_reopen: bool) -> (res: Live)
        ensures
            if !self.files().contains_key(fh) {
                res is Unknown
            } else if self.files()[fh].opened_gen == gen {
                res == Live::Ready(self.files()[fh].server_handle)
            } else if !allow_reopen {
                res is Stale
            } else {
                res matches Live::Reopen { path, flags, is_append } && path@
                    == self.files()[fh].path@ && flags == reopen_flags(self.files()[fh].flags)
                    && is_append == self.files()[fh].is_append
            },
    {
        match self.files.get(&fh) {
            None => Live::Unknown,
            Some(of) => {
                if of.opened_gen == gen {
                    return Live::Ready(of.server_handle);
                }
                if !allow_reopen {
                    return Live::Stale;
                }
                Live::Reopen {
                    path: copy_of(of.path.as_str()),
                    flags: (of.flags & 0x3) | (of.flags & O_APPEND),
                    is_append: of.is_append,
                }
            },
        }
    }

    /// A file was opened again: its new handle belongs to the generation `gen` that was
    /// read before. What is buffered for an appended file is given up, and the file
    /// marked; returns the bytes given up.
    pub fn reopened(&mut self, fh: u64, gen: u64, new_handle: u64, is_append: bool) -> (res: usize)
        requires
            old(self).wf(),
        ensures
            final(self).wf(),
            final(self).next_number() == old(self).next_number(),
            final(self).limits() == old(self).limits(),
            final(self).clock() == old(self).clock(),
            final(self).files() == (if old(self).files().contains_key(fh) {
                old(self).files().insert(
                    fh,
                    (OpenFile {
                        server_handle: new_handle,
                        opened_gen: gen,
                        ..old(self).files()[fh]
                    }),
                )
            } else {
                old(self).files()
            }),
            if is_append {
                &&& res == state_of(old(self).buffered(), fh).bytes()
                &&& final(self).buffered() == old(self).buffered().remove(fh)
                &&& final(self).marked() == (if res > 0 {
                    old(self).marked().insert(fh)
                } else {
                    old(self).marked()
                })
            } else {
                &&& res == 0
                &&& final(self).buffered() == old(self).buffered()
                &&& final(self).marked() == old(self).marked()
            },
            kept_or_reported(old(self).buffered(), final(self).buffered(), final(self).marked()),
    {
        let ghost before = self.buffered();
        match self.files.remove(&fh) {
            Some(of) => {
                let ghost files = self.files@;
                self.files.insert(
                    fh,
                    OpenFile {
                        path: of.path,
                        flags: of.flags,
                        server_handle: new_handle,
                        opened_gen: gen,
                        is_append: of.is_append,
                    },
                );
                assert(self.files() =~= old(self).files().insert(
                    fh,
                    OpenFile {
                        server_handle: new_handle,
                        opened_gen: gen,
                        ..old(self).files()[fh]
                    },
                ));
            },
            None => {
                assert(self.files() =~= old(self).files());
            },
        }
        if !is_append {
            return 0;
        }
        let dropped: usize = self.buf.drop_handle(fh);
        if dropped > 0 {
            self.errors.insert(fh);
        }
        assert forall|k: u64|
            #![trigger self.marked().contains(k)]
            #![trigger state_of(self.buffered(), k)]
            state_of(before, k).bytes() > 0 implies state_of(before, k).chunks.is_prefix_of(
            state_of(self.buffered(), k).chunks,
        ) || self.marked().contains(k) by {
            if k == fh {
                assert(dropped > 0);
            } else {
                lemma_same_is_prefix(state_of(before, k).chunks);
            }
        }
        dropped
    }

    /// It was found out how the file is reached: `handle`, or not at all. Takes a batch
    /// to send, if there is one. Bytes of a file that cannot be reached stay buffered,
    /// and the flush fails.
    pub fn flush_resolved(&mut self, run: &FlushRun, handle: Option<u64>) -> (res: FlushNext)
        requires
            old(self).wf(),
        ensures
            final(self).wf(),
            final(self).same_files(old(self)),
            final(self).marked() == old(self).marked(),
            match handle {
                None => {
                    &&& final(self).buffered() == old(self).buffered()
                    &&& res == FlushNext::Finished(
                        if old(self).buffered().contains_key(run.fh) {
                            Err::<(), FlushError>(FlushError::NotLive)
                        } else {
                            Ok::<(), FlushError>(())
                        },
                    )
                },
                Some(h) => if !old(self).buffered().contains_key(run.fh)
                    || old(self).buffered()[run.fh].sending {
                    &&& final(self).buffered() == old(self).buffered()
                    &&& res == FlushNext::Finished(Ok::<(), FlushError>(()))
                } else {
                    let st = old(self).buffered()[run.fh];
                    &&& final(self).buffered() == old(self).buffered().insert(
                        run.fh,
                        (HandleState { chunks: st.chunks, sending: true }),
                    )
                    &&& res matches FlushNext::Send { handle: to, batch } && to == h
                        && batch.sent_count == st.chunks.len() && runs_of(batch.chunks@)
                        == coalesce(sorted_by_offset(st.runs()))
                },
            },
            kept_or_reported(old(self).buffered(), final(self).buffered(), final(self).marked()),
    {
        match handle {
            None => {
                if self.buf.has_buffered(run.fh) {
                    FlushNext::Finished(Err(FlushError::NotLive))
                } else {
                    FlushNext::Finished(Ok(()))
                }
            },
            Some(h) => match self.buf.begin_flush(run.fh) {
                Some(batch) => FlushNext::Send { handle: h, batch },
                None => FlushNext::Finished(Ok(())),
            },
        }
    }

    /// A batch of `sent_count` chunks was sent, and `delivered` or not.
    ///
    /// Delivered chunks leave the buffer. Otherwise an appended file gives its bytes
    /// up, marked, because part of them may be in the file already; any other file
    /// keeps them, and they are sent again where the connection was renewed meanwhile
    /// (its generation went from `gen_before` to `gen_now`).
    pub fn flush_sent(
        &mut self,
        run: &mut FlushRun,
        sent_count: usize,
        delivered: bool,
        gen_before: u64,
        gen_now: u64,
    ) -> (res: FlushNext)
        requires
            old(self).wf(),
            old(run).tries_left > 0,
        ensures
            final(self).wf(),
            final(self).same_files(old(self)),
            final(run).fh == old(run).fh,
            final(run).allow_reopen == old(run).allow_reopen,
            final(run).tries_left == old(run).tries_left - 1,
            ({
                let fh = old(run).fh;
                let appended = old(self).files().contains_key(fh)
                    && old(self).files()[fh].is_append;
                if delivered {
                    &&& res == FlushNext::Finished(Ok::<(), FlushError>(()))
                    &&& final(self).buffered() == acked(
                        old(self).buffered(),
                        fh,
                        sent_count as int,
                    )
                    &&& final(self).marked() == old(self).marked()
                } else if appended {
                    &&& res == FlushNext::Finished(
                        Err::<(), FlushError>(FlushError::SendFailed),
                    )
                    &&& final(self).buffered() == old(self).buffered().remove(fh)
                    &&& final(self).marked() == old(self).marked().insert(fh)
                } else {
                    &&& final(self).marked() == old(self).marked()
                    &&& final(self).buffered() == (if old(self).buffered().contains_key(fh) {
                        old(self).buffered().insert(
                            fh,
                            (HandleState {
                                chunks: old(self).buffered()[fh].chunks,
                                sending: false,
                            }),
                        )
                    } else {
                        old(self).buffered()
                    })
                    &&& if old(run).allow_reopen && gen_now != gen_before && old(run).tries_left
                        > 1 {
                        res is Resolve
                    } else {
                        res == FlushNext::Finished(
                            Err::<(), FlushError>(FlushError::SendFailed),
                        )
                    }
                }
            }),
            !delivered ==> kept_or_reported(
                old(self).buffered(),
                final(self).buffered(),
                final(self).marked(),
            ),
    {
        let fh: u64 = run.fh;
        run.tries_left = run.tries_left - 1;
        if delivered {
            self.buf.ack_flush(fh, sent_count);
            return FlushNext::Finished(Ok(()));
        }
        let appended = match self.files.get(&fh) {
            Some(of) => of.is_append,
            None => false,
        };
        if appended {
            self.buf.drop_handle(fh);
            self.errors.insert(fh);
            return FlushNext::Finished(Err(FlushError::SendFailed));
        }
        self.buf.fail_flush(fh);
        if run.allow_reopen && gen_now != gen_before && run.tries_left > 0 {
            FlushNext::Resolve
        } else {
            FlushNext::Finished(Err(FlushError::SendFailed))
        }
    }

    /// Buffer the bytes of a write. A file whose bytes could not be buffered is marked.
    pub fn write(&mut self, fh: u64, offset: u64, data: Vec<u8>) -> (res: WriteReply)
        requires
            old(self).wf(),
        ensures
            final(self).wf(),
            final(self).same_files(old(self)),
            exists|now: Duration, decision: PushDecision|
                {
                    &&& #[trigger] old(self).clock().may_read(now)
                    &&& #[trigger] push_outcome(
                        old(self).buffered(),
                        old(self).limits(),
                        fh,
                        Chunk {
                            run: Run { offset: offset as int, data: data@ },
                            queued_at: now.nanos(),
                        },
                        decision,
                        final(self).buffered(),
                    )
                    &&& res == reply_to(decision)
                },
            final(self).marked() == (if res is Failed {
                old(self).marked().insert(fh)
            } else {
                old(self).marked()
            }),
            res is Failed <==> buffered_bytes(old(self).buffered()) + data@.len()
                > old(self).limits().hard,
            kept_or_reported(old(self).buffered(), final(self).buffered(), final(self).marked()),
    {
        let ghost run = Run { offset: offset as int, data: data@ };
        let decision = self.buf.push(fh, offset, data);
        let ghost d = decision;
        let ghost now = choose|now: Duration|
            #[trigger] old(self).buf.clock().may_read(now) && push_outcome(
                old(self).buf@,
                old(self).buf.limits(),
                fh,
                Chunk { run, queued_at: now.nanos() },
                decision,
                self.buf@,
            );
        let reply = match decision {
            PushDecision::Buffered => WriteReply::Accepted,
            PushDecision::FlushThis(h) => WriteReply::FlushFirst(h),
            PushDecision::FlushOther(h) => WriteReply::FlushFirst(h),
            PushDecision::Reject => WriteReply::Failed,
        };
        if reply == WriteReply::Failed {
            self.errors.insert(fh);
        }
        assert(old(self).clock().may_read(now) && push_outcome(
            old(self).buffered(),
            old(self).limits(),
            fh,
            Chunk { run, queued_at: now.nanos() },
            d,
            self.buffered(),
        ) && reply == reply_to(d));
        proof {
            let chunk = Chunk { run, queued_at: now.nanos() };
            assert forall|k: u64|
                #![trigger self.marked().contains(k)]
                #![trigger state_of(self.buffered(), k)]
                state_of(old(self).buffered(), k).bytes() > 0 implies state_of(
                old(self).buffered(),
                k,
            ).chunks.is_prefix_of(state_of(self.buffered(), k).chunks) || self.marked().contains(
                k,
            ) by {
                law_push_keeps_chunks(
                    old(self).buffered(),
                    old(self).limits(),
                    fh,
                    chunk,
                    d,
                    self.buffered(),
                    k,
                );
            }
        }
        reply
    }

    /// A file is flushed by its last or any other close, or synced: its mark is taken
    /// away to be reported.
    pub fn take_error(&mut self, fh: u64) -> (res: bool)
        requires
            old(self).wf(),
        ensures
            final(self).wf(),
            final(self).same_files(old(self)),
            final(self).buffered() == old(self).buffered(),
            res == old(self).marked().contains(fh),
            final(self).marked() == old(self).marked().remove(fh),
    {
        self.errors.remove(&fh)
    }

    /// A file is closed for good: nothing of it stays behind. Returns the server's
    /// handle to release.
    pub fn release(&mut self, fh: u64) -> (res: Option<u64>)
        requires
            old(self).wf(),
        ensures
            final(self).wf(),
            final(self).next_number() == old(self).next_number(),
            final(self).limits() == old(self).limits(),
            final(self).clock() == old(self).clock(),
            final(self).files() == old(self).files().remove(fh),
            final(self).buffered() == old(self).buffered().remove(fh),
            final(self).marked() == old(self).marked().remove(fh),
            res == (if old(self).files().contains_key(fh) {
                Some(old(self).files()[fh].server_handle)
            } else {
                None
            }),
    {
        self.errors.remove(&fh);
        let handle = match self.files.remove(&fh) {
            Some(of) => Some(of.server_handle),
            None => None,
        };
        self.buf.drop_handle(fh);
        handle
    }

    /// True if bytes of the file are buffered.
    pub fn has_buffered(&self, fh: u64) -> (res: bool)
        requires
            self.wf(),
        ensures
            res == self.buffered().contains_key(fh),
    {
        self.buf.has_buffered(fh)
    }

    /// The bytes buffered over all files.
    pub fn total_bytes(&self) -> (res: usize)
        requires
            self.wf(),
        ensures
            res == buffered_bytes(self.buffered()),
    {
        self.buf.total_bytes()
    }

    /// The files with buffered bytes, each once.
    pub fn handles(&self) -> (res: Vec<u64>)
        requires
            self.wf(),
        ensures
            res@.no_duplicates(),
            res@.to_set() == self.buffered().dom(),
    {
        self.buf.handles()
    }

    /// The files whose oldest bytes have waited for the coalesce window.
    pub fn expired_handles(&self) -> (res: Vec<u64>)
        requires
            self.wf(),
        ensures
            exists|now: Duration|
                #[trigger] self.clock().may_read(now) && lists_older(
                    self.buffered(),
                    self.limits().window.nanos(),
                    now.nanos(),
                    res@,
                ),
    {
        let res = self.buf.expired_handles();
        proof {
            let now = choose|now: Duration|
                #[trigger] self.buf.clock().may_read(now) && lists_older(
                    self.buf@,
                    self.buf.limits().window.nanos(),
                    now.nanos(),
                    res@,
                );
            assert(self.clock().may_read(now));
        }
        res
    }

    /// Give up what has waited for the server too long, and mark the files. Returns the
    /// files and how many bytes each lost.
    pub fn reclaim(&mut self, max_age: Duration) -> (res: Vec<(u64, usize)>)
        requires
            old(self).wf(),
        ensures
            final(self).wf(),
            final(self).same_files(old(self)),
            exists|old_ones: Seq<u64>, now: Duration|
                {
                    &&& #[trigger] old(self).clock().may_read(now)
                    &&& #[trigger] lists_older(
                        old(self).buffered(),
                        max_age.nanos(),
                        now.nanos(),
                        old_ones,
                    )
                    &&& final(self).buffered() == old(self).buffered().remove_keys(
                        old_ones.to_set(),
                    )
                    &&& forall|k: u64| #[trigger]
                        final(self).marked().contains(k) <==> old(self).marked().contains(k) || (
                        old_ones.contains(k) && state_of(old(self).buffered(), k).bytes() > 0)
                    &&& res@ == losses(old(self).buffered(), old_ones)
                },
            kept_or_reported(old(self).buffered(), final(self).buffered(), final(self).marked()),
    {
        let too_old = self.buf.older_than(max_age);
        proof {
            let now = choose|now: Duration|
                #[trigger] self.buf.clock().may_read(now) && lists_older(
                    self.buf@,
                    max_age.nanos(),
                    now.nanos(),
                    too_old@,
                );
            assert(old(self).clock().may_read(now));
            assert(lists_older(old(self).buffered(), max_age.nanos(), now.nanos(), too_old@));
        }
        self.give_up(too_old)
    }

    /// Give up what is buffered for some files, and mark those that lose bytes.
    pub fn give_up(&mut self, old_ones: Vec<u64>) -> (res: Vec<(u64, usize)>)
        requires
            old(self).wf(),
            old_ones@.no_duplicates(),
        ensures
            final(self).wf(),
            final(self).same_files(old(self)),
            final(self).buffered() == old(self).buffered().remove_keys(old_ones@.to_set()),
            forall|k: u64| #[trigger]
                final(self).marked().contains(k) <==> old(self).marked().contains(k) || (
                old_ones@.contains(k) && state_of(old(self).buffered(), k).bytes() > 0),
            kept_or_reported(old(self).buffered(), final(self).buffered(), final(self).marked()),
            res@ == losses(old(self).buffered(), old_ones@),
    {
        let ghost start = self.buffered();
        let ghost marks = self.marked();
        let ghost all = old_ones@;
        let mut lost: Vec<(u64, usize)> = Vec::new();
        let mut i: usize = 0;
        proof {
            assert(all.take(0).to_set() =~= Set::empty());
            assert(start.remove_keys(Set::empty()) =~= start);
        }
        while i < old_ones.len()
            invariant
                i <= old_ones.len(),
                all == old_ones@,
                all.no_duplicates(),
                start == old(self).buffered(),
                marks == old(self).marked(),
                self.wf(),
                self.same_files(old(self)),
                self.buffered() == start.remove_keys(all.take(i as int).to_set()),
                forall|k: u64| #[trigger]
                    self.marked().contains(k) <==> marks.contains(k) || (all.take(
                        i as int,
                    ).contains(k) && state_of(start, k).bytes() > 0),
                lost@ == losses(start, all.take(i as int)),
            decreases old_ones.len() - i,
        {
            let fh: u64 = old_ones[i];
            let ghost prev = all.take(i as int);
            let ghost next = all.take(i + 1);
            let ghost before = self.buffered();
            let ghost marked_before = self.marked();
            proof {
                assert(next =~= prev.push(fh));
                assert(next.drop_last() =~= prev);
                assert(!prev.contains(fh)) by {
                    if prev.contains(fh) {
                        let j = choose|j: int| 0 <= j < prev.len() && prev[j] == fh;
                        assert(all[j] == all[i as int]);
                    }
                }
                assert(state_of(before, fh) == state_of(start, fh));
                assert forall|k: u64| next.contains(k) <==> prev.contains(k) || k == fh by {
                    if prev.contains(k) {
                        let j = choose|j: int| 0 <= j < prev.len() && prev[j] == k;
                        assert(next[j] == k);
                    }
                    if k == fh {
                        assert(next[prev.len() as int] == fh);
                    }
                }
                assert(next.to_set() =~= prev.to_set().insert(fh));
                assert(start.remove_keys(next.to_set()) =~= before.remove(fh));
            }
            let dropped: usize = self.buf.drop_handle(fh);
            if dropped > 0 {
                self.errors.insert(fh);
                lost.push((fh, dropped));
            }
            i = i + 1;
        }
        proof {
            assert(all.take(i as int) =~= all);
            assert forall|k: u64|
                #![trigger self.marked().contains(k)]
                #![trigger state_of(self.buffered(), k)]
                state_of(start, k).bytes() > 0 implies state_of(start, k).chunks.is_prefix_of(
                state_of(self.buffered(), k).chunks,
            ) || self.marked().contains(k) by {
                if all.contains(k) {
                    assert(self.marked().contains(k));
                } else {
                    assert(!all.to_set().contains(k));
                    lemma_same_is_prefix(state_of(start, k).chunks);
                }
            }
        }
        lost
    }
}

/// The reply to a write, by what the buffer decided.
pub open spec fn reply_to(decision: PushDecision) -> WriteReply {
    match decision {
        PushDecision::Buffered => WriteReply::Accepted,
        PushDecision::FlushThis(h) => WriteReply::FlushFirst(h),
        PushDecision::FlushOther(h) => WriteReply::FlushFirst(h),
        PushDecision::Reject => WriteReply::Failed,
    }
}

/// The handle to read from or to sync; a file that cannot be reached is stale.
pub fn live_or_stale(live: Option<u64>) -> (res: Result<u64, i32>)
    ensures
        res == (match live {
            Some(h) => Ok::<u64, i32>(h),
            None => Err(ESTALE),
        }),
{
    match live {
        Some(h) => Ok(h),
        None => Err(ESTALE),
    }
}

// ── flushing several files ───────────────────────────────────────────────────
/// A flush of several files: each is tried, whatever came of the others.
pub struct FlushAll {
    pub pending: Vec<u64>,
    pub first_err: Option<i32>,
}

impl FlushAll {
    pub fn new(handles: Vec<u64>) -> (res: Self)
        ensures
            res.pending == handles,
            res.first_err is None,
    {
        FlushAll { pending: handles, first_err: None }
    }

    /// The file to flush next; `None` when all were tried.
    pub fn next(&mut self) -> (res: Option<u64>)
        ensures
            final(self).first_err == old(self).first_err,
            match res {
                Some(fh) => old(self).pending@ == final(self).pending@.push(fh),
                None => old(self).pending@.len() == 0 && final(self).pending@.len() == 0,
            },
    {
        let ghost before = self.pending@;
        let res = self.pending.pop();
        proof {
            if before.len() > 0 {
                assert(before =~= before.drop_last().push(before.last()));
            }
        }
        res
    }

    /// What came of a file: the first failure is kept.
    pub fn flushed(&mut self, err: Option<i32>)
        ensures
            final(self).pending == old(self).pending,
            final(self).first_err == (if old(self).first_err is Some {
                old(self).first_err
            } else {
                err
            }),
    {
        if self.first_err.is_none() {
            self.first_err = err;
        }
    }

    pub fn finish(&self) -> (res: Result<(), i32>)
        ensures
            res == (match self.first_err {
                Some(e) => Err::<(), i32>(e),
                None => Ok(()),
            }),
    {
        match self.first_err {
            Some(e) => Err(e),
            None => Ok(()),
        }
    }
}

// ── terminal flushes ─────────────────────────────────────────────────────────
/// How often a flush that must drain the buffer is repeated before it is given up.
pub const DRAIN_ROUNDS: u32 = 500;

/// What a draining flush does next.
#[derive(Clone, Copy, Debug, PartialEq, Eq, Structural)]
pub enum DrainNext {
    /// Nothing is buffered any more.
    Drained,
    /// The flush failed.
    Failed,
    /// Another flush of the file is in flight: wait a little and flush again.
    Again,
    /// The rounds are used up and bytes are still buffered.
    GaveUp,
}

/// After a round of a draining flush: `flushed` or not, and what is still buffered. Only
/// an empty buffer counts as drained.
pub fn drain_next(rounds_left: u32, flushed: bool, still_buffered: bool) -> (res: DrainNext)
    ensures
        res == (if !flushed {
            DrainNext::Failed
        } else if !still_buffered {
            DrainNext::Drained
        } else if rounds_left > 0 {
            DrainNext::Again
        } else {
            DrainNext::GaveUp
        }),
{
    if !flushed {
        DrainNext::Failed
    } else if !still_buffered {
        DrainNext::Drained
    } else if rounds_left > 0 {
        DrainNext::Again
    } else {
        DrainNext::GaveUp
    }
}

/// A file is opened again with its access mode and for appending where it was, and with
/// nothing else.
pub proof fn law_reopen_asks_for_nothing_else(flags: u32)
    ensures
        reopen_flags(flags) & !0x403u32 == 0,
        reopen_flags(flags) & 0x3 == flags & 0x3,
        reopen_flags(flags) & 0x400 == flags & 0x400,
{
    assert(((flags & 0x3) | (flags & 0x400)) & !0x403u32 == 0) by (bit_vector);
    assert(((flags & 0x3) | (flags & 0x400)) & 0x3 == flags & 0x3) by (bit_vector);
    assert(((flags & 0x3) | (flags & 0x400)) & 0x400 == flags & 0x400) by (bit_vector);
}

/// A loss is reported for exactly the files that are given up with bytes in the buffer,
/// and with their number.
pub proof fn law_losses_are_counted(
    before: Map<u64, HandleState>,
    fhs: Seq<u64>,
    fh: u64,
    n: usize,
)
    requires
        state_of(before, fh).bytes() <= usize::MAX,
    ensures
        losses(before, fhs).contains((fh, n)) <==> fhs.contains(fh) && n > 0 && n == state_of(
            before,
            fh,
        ).bytes(),
    decreases fhs.len(),
{
    if fhs.len() > 0 {
        let p = fhs.drop_last();
        let rest = losses(before, p);
        let all = losses(before, fhs);
        law_losses_are_counted(before, p, fh, n);
        if all.contains((fh, n)) {
            let i = choose|i: int| 0 <= i < all.len() && all[i] == (fh, n);
            if i < rest.len() {
                assert(rest[i] == (fh, n));
                assert(p.contains(fh));
                let j = choose|j: int| 0 <= j < p.len() && p[j] == fh;
                assert(fhs[j] == fh);
            } else {
                assert(fhs[fhs.len() - 1] == fh);
            }
        }
        if fhs.contains(fh) && n > 0 && n == state_of(before, fh).bytes() {
            let j = choose|j: int| 0 <= j < fhs.len() && fhs[j] == fh;
            if j < p.len() {
                assert(p[j] == fh);
                assert(rest.contains((fh, n)));
                let i = choose|i: int| 0 <= i < rest.len() && rest[i] == (fh, n);
                assert(all[i] == (fh, n));
            } else {
                assert(all[all.len() - 1] == (fh, n));
            }
        }
    }
}

/// A write fails exactly where its bytes were refused, and otherwise asks for the flush
/// that the buffer asks for.
pub proof fn law_writes_reply_what_the_buffer_decided(decision: PushDecision)
    ensures
        reply_to(decision) is Failed <==> decision is Reject,
        reply_to(decision) is Accepted <==> decision is Buffered,
        decision matches PushDecision::FlushThis(h) ==> reply_to(decision)
            == WriteReply::FlushFirst(h),
        decision matches PushDecision::FlushOther(h) ==> reply_to(decision)
            == WriteReply::FlushFirst(h),
{
}

/// Where nothing but the buffered writes and the marks differs, the open files, the number
/// of the next one, the limits and the clock are the same.
pub proof fn law_same_files_are_the_same(a: WriteBack, b: WriteBack)
    requires
        a.same_files(&b),
    ensures
        a.files() == b.files(),
        a.next_number() == b.next_number(),
        a.limits() == b.limits(),
        a.clock() == b.clock(),
{
}

} // verus!
