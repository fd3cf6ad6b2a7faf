//! From a write on the client to a read: what the server's file holds.
//!
//! The server performs the frames of a write at their offsets, and answers a read from
//! the file. The laws follow bytes from the write buffer over the wire into the file
//! and back, and a change of attributes from the kernel to the server's steps.

use vstd::prelude::*;

use crate::client::conn::{
    frame_count, frame_runs, is_write_frame, law_frames_write_the_data, opens_connection,
};
use crate::client::errno::{
    law_reported_failures_have_their_numbers, message_errno, server_message,
};
use crate::client::fileops::{resolved, FileStep, FileWork};
use crate::client::fuse_ops::{asks_for, law_valid_bits_name_attributes, AttrChange};
use crate::client::requests::{fsync_request, read_request};
use crate::client::writebuf::{law_batch_writes_what_was_pushed, HandleState};
use crate::common::frames::{
    FsyncRequest, HandshakeRequest, ReadRequest, SetAttrRequest, WriteRequest,
};
use crate::common::status::{
    law_status_roundtrip, status_code, status_of_code, status_of_error, IoErrorKind,
};
use crate::image::{
    byte_at, coalesce, law_replay_is_idempotent, lemma_byte_at_append, same_image,
    sorted_by_offset, Run,
};
use crate::server::ops::ctrl::{handshake_refusal, MAX_CHUNK_SIZE};
use crate::server::ops::data::{
    file_range, fsync_begin, joined, law_read_frames_carry_the_range, read_begin, yields, ReadRun,
    SyncKind,
};
use crate::server::ops::meta::{setattr_steps, timespec_of, times_step, SetAttrStep, TimeSpec};

verus! {

/// A file after a write: the bytes are at their offset, and a gap before them reads as
/// zeros. A write of nothing changes nothing.
pub open spec fn written(file: Seq<u8>, w: Run) -> Seq<u8> {
    if w.data.len() == 0 {
        file
    } else {
        Seq::new(
            (if w.end() > file.len() {
                w.end()
            } else {
                file.len() as int
            }) as nat,
            |i: int|
                if w.covers(i) {
                    w.data[i - w.offset]
                } else if i < file.len() {
                    file[i]
                } else {
                    0u8
                },
        )
    }
}

/// A file after some writes, performed in order.
pub open spec fn all_written(file: Seq<u8>, ws: Seq<Run>) -> Seq<u8>
    decreases ws.len(),
{
    if ws.len() == 0 {
        file
    } else {
        written(all_written(file, ws.drop_last()), ws.last())
    }
}

/// No write starts before the file.
pub open spec fn in_file(ws: Seq<Run>) -> bool {
    forall|i: int| 0 <= i < ws.len() ==> (#[trigger] ws[i]).offset >= 0
}

/// The byte of a file after some writes.
pub open spec fn byte_after(file: Seq<u8>, ws: Seq<Run>, i: int) -> u8 {
    match byte_at(ws, i) {
        Some(b) => b,
        None => if i < file.len() {
            file[i]
        } else {
            0
        },
    }
}

/// Which bytes a file holds after some writes, and how many.
proof fn lemma_all_written(file: Seq<u8>, ws: Seq<Run>)
    requires
        in_file(ws),
    ensures
        ({
            let after = all_written(file, ws);
            &&& after.len() >= file.len()
            &&& forall|i: int| 0 <= i < after.len() ==> #[trigger] after[i] == byte_after(file, ws, i)
            &&& forall|i: int| i >= after.len() ==> (#[trigger] byte_at(ws, i)) is None
            &&& after.len() > file.len() ==> byte_at(ws, after.len() - 1) is Some
        }),
    decreases ws.len(),
{
    if ws.len() > 0 {
        let p = ws.drop_last();
        assert forall|i: int| 0 <= i < p.len() implies (#[trigger] p[i]).offset >= 0 by {
            assert(p[i] == ws[i]);
        }
        lemma_all_written(file, p);
        let before = all_written(file, p);
        let after = all_written(file, ws);
        let w = ws.last();
        assert(ws[ws.len() - 1].offset >= 0);
        assert forall|i: int| 0 <= i < after.len() implies #[trigger] after[i] == byte_after(
            file,
            ws,
            i,
        ) by {
            if w.data.len() > 0 && !w.covers(i) && i < before.len() {
                assert(before[i] == byte_after(file, p, i));
            }
            if w.data.len() == 0 {
                assert(before[i] == byte_after(file, p, i));
            }
        }
        assert forall|i: int| i >= after.len() implies (#[trigger] byte_at(ws, i)) is None by {
            assert(byte_at(p, i) is None);
        }
        if after.len() > file.len() {
            if w.data.len() > 0 && w.end() >= before.len() {
                assert(w.covers(after.len() - 1));
            }
        }
    }
}

/// Writes that leave the same image leave the same file, whatever it held before.
pub proof fn law_same_image_same_file(file: Seq<u8>, a: Seq<Run>, b: Seq<Run>)
    requires
        in_file(a),
        in_file(b),
        same_image(a, b),
    ensures
        all_written(file, a) == all_written(file, b),
{
    lemma_all_written(file, a);
    lemma_all_written(file, b);
    let fa = all_written(file, a);
    let fb = all_written(file, b);
    if fa.len() > fb.len() {
        assert(byte_at(a, fa.len() - 1) == byte_at(b, fa.len() - 1));
    }
    if fb.len() > fa.len() {
        assert(byte_at(a, fb.len() - 1) == byte_at(b, fb.len() - 1));
    }
    assert forall|i: int| 0 <= i < fa.len() implies fa[i] == fb[i] by {
        assert(byte_at(a, i) == byte_at(b, i));
    }
    assert(fa =~= fb);
}

/// `frames` are those of one write: `data` at `offset`, in pieces of `chunk` bytes.
pub open spec fn frames_of(
    frames: Seq<WriteRequest>,
    seq: u64,
    handle: u64,
    w: Run,
    chunk: int,
) -> bool {
    &&& frames.len() == frame_count(w.data.len() as int, chunk)
    &&& forall|i: int|
        0 <= i < frames.len() ==> is_write_frame(
            #[trigger] frames[i],
            seq,
            handle,
            w.offset,
            w.data,
            chunk,
            i,
            frames.len() as int,
        )
}

/// A read of what was written gives it back: whatever the file held before, however the
/// write is cut into frames and however the read's bytes come out of the file.
pub proof fn law_read_returns_what_was_written(
    file: Seq<u8>,
    frames: Seq<WriteRequest>,
    seq: u64,
    handle: u64,
    data: Seq<u8>,
    chunk: int,
    run: ReadRun,
    reads: Seq<Seq<u8>>,
)
    requires
        0 < chunk,
        frames_of(frames, seq, handle, Run { offset: run.offset as int, data }, chunk),
        run.remaining == data.len(),
        !run.started,
        !run.at_end,
        yields(all_written(file, frame_runs(frames)), run, reads),
    ensures
        reads.len() > 0,
        joined(reads) == data,
{
    let offset = run.offset as int;
    let one = seq![Run { offset, data }];
    let runs = frame_runs(frames);
    law_frames_write_the_data(frames, seq, handle, offset, data, chunk);
    assert(in_file(runs)) by {
        assert forall|i: int| 0 <= i < runs.len() implies (#[trigger] runs[i]).offset >= 0 by {
            assert(runs[i].offset == frames[i].offset as int);
        }
    }
    law_same_image_same_file(file, runs, one);
    let after = all_written(file, runs);
    assert(one.drop_last() =~= Seq::<Run>::empty());
    assert(all_written(file, one.drop_last()) == file);
    assert(after == written(file, Run { offset, data }));
    law_read_frames_carry_the_range(after, run, reads);
    assert(file_range(after, offset, data.len() as int) =~= data);
}

/// The frames of several writes, one write behind the other.
pub open spec fn all_runs(sent: Seq<Seq<WriteRequest>>) -> Seq<Run>
    decreases sent.len(),
{
    if sent.len() == 0 {
        Seq::empty()
    } else {
        all_runs(sent.drop_last()) + frame_runs(sent.last())
    }
}

proof fn lemma_all_runs(
    sent: Seq<Seq<WriteRequest>>,
    seqs: Seq<u64>,
    handle: u64,
    batch: Seq<Run>,
    chunk: int,
)
    requires
        0 < chunk,
        sent.len() == batch.len(),
        seqs.len() == batch.len(),
        forall|i: int|
            0 <= i < sent.len() ==> frames_of(#[trigger] sent[i], seqs[i], handle, batch[i], chunk),
    ensures
        same_image(all_runs(sent), batch),
        in_file(all_runs(sent)),
    decreases sent.len(),
{
    if sent.len() == 0 {
        assert(batch =~= Seq::empty());
    } else {
        let ps = sent.drop_last();
        let pb = batch.drop_last();
        assert forall|i: int| 0 <= i < ps.len() implies frames_of(
            #[trigger] ps[i],
            seqs.drop_last()[i],
            handle,
            pb[i],
            chunk,
        ) by {
            assert(ps[i] == sent[i]);
        }
        lemma_all_runs(ps, seqs.drop_last(), handle, pb, chunk);
        let last = sent[sent.len() - 1];
        let w = batch.last();
        assert(frames_of(last, seqs.last(), handle, w, chunk));
        law_frames_write_the_data(last, seqs.last(), handle, w.offset, w.data, chunk);
        let runs = frame_runs(last);
        let all = all_runs(sent);
        assert forall|pos: int| byte_at(all, pos) == byte_at(batch, pos) by {
            lemma_byte_at_append(all_runs(ps), runs, pos);
            lemma_byte_at_append(pb, seq![w], pos);
            assert(pb + seq![w] =~= batch);
            let one = seq![Run { offset: w.offset, data: w.data }];
            assert(one =~= seq![w]);
            assert(byte_at(runs, pos) == byte_at(one, pos));
            assert(byte_at(all_runs(ps), pos) == byte_at(pb, pos));
        }
        assert forall|i: int| 0 <= i < all.len() implies (#[trigger] all[i]).offset >= 0 by {
            if i < all_runs(ps).len() {
                assert(all[i] == all_runs(ps)[i]);
            } else {
                let k = i - all_runs(ps).len();
                assert(all[i] == runs[k]);
                assert(runs[k].offset == last[k].offset as int);
            }
        }
    }
}

/// Buffered writes reach the file: when the batch of an open file has been sent, each of
/// its pieces in frames, the file is what the writes themselves, in the order they came
/// in, would have made of it. Of two writes that overlap, the later one must not start
/// before the earlier one.
pub proof fn law_buffered_writes_reach_the_file(
    file: Seq<u8>,
    st: HandleState,
    sent: Seq<Seq<WriteRequest>>,
    seqs: Seq<u64>,
    handle: u64,
    chunk: int,
)
    requires
        0 < chunk,
        in_file(st.runs()),
        forall|i: int, j: int, pos: int|
            0 <= i < j < st.runs().len() && (#[trigger] st.runs()[i].covers(pos)) && (
            #[trigger] st.runs()[j].covers(pos)) ==> st.runs()[i].offset <= st.runs()[j].offset,
        sent.len() == coalesce(sorted_by_offset(st.runs())).len(),
        seqs.len() == sent.len(),
        forall|i: int|
            0 <= i < sent.len() ==> frames_of(
                #[trigger] sent[i],
                seqs[i],
                handle,
                coalesce(sorted_by_offset(st.runs()))[i],
                chunk,
            ),
    ensures
        all_written(file, all_runs(sent)) == all_written(file, st.runs()),
{
    let batch = coalesce(sorted_by_offset(st.runs()));
    law_batch_writes_what_was_pushed(st);
    lemma_all_runs(sent, seqs, handle, batch, chunk);
    assert forall|pos: int| byte_at(all_runs(sent), pos) == byte_at(st.runs(), pos) by {
        assert(byte_at(all_runs(sent), pos) == byte_at(batch, pos));
        assert(byte_at(batch, pos) == byte_at(st.runs(), pos));
    }
    law_same_image_same_file(file, all_runs(sent), st.runs());
}

/// Performing writes one after the other is performing them all.
proof fn lemma_all_written_append(file: Seq<u8>, a: Seq<Run>, b: Seq<Run>)
    ensures
        all_written(file, a + b) == all_written(all_written(file, a), b),
    decreases b.len(),
{
    if b.len() == 0 {
        assert(a + b =~= a);
    } else {
        lemma_all_written_append(file, a, b.drop_last());
        assert((a + b).drop_last() =~= a + b.drop_last());
        assert((a + b).last() == b.last());
    }
}

/// Sending writes again is harmless: where a connection broke after the server performed
/// some of them, whole or in part, sending them all again leaves the file that sending
/// them once would have left.
pub proof fn law_resending_leaves_the_same_file(file: Seq<u8>, done: Seq<Run>, writes: Seq<Run>)
    requires
        in_file(done),
        in_file(writes),
        forall|pos: int| (#[trigger] byte_at(done, pos)) is Some ==> byte_at(writes, pos) is Some,
    ensures
        all_written(all_written(file, done), writes) == all_written(file, writes),
{
    law_replay_is_idempotent(done, writes);
    let both = done + writes;
    assert forall|i: int| 0 <= i < both.len() implies (#[trigger] both[i]).offset >= 0 by {
        if i < done.len() {
            assert(both[i] == done[i]);
        } else {
            assert(both[i] == writes[i - done.len()]);
        }
    }
    law_same_image_same_file(file, both, writes);
    lemma_all_written_append(file, done, writes);
}

// ── handshake ────────────────────────────────────────────────────────────────
/// The server accepts what the client opens a connection with, exactly where the chunk
/// size is within the server's limit.
pub proof fn law_client_handshake_is_accepted(r: HandshakeRequest, chunk_size: u32)
    requires
        opens_connection(r, chunk_size),
    ensures
        handshake_refusal(r.chunk_size, r.auth_type@) is None <==> chunk_size <= MAX_CHUNK_SIZE,
{
}

// ── attributes ───────────────────────────────────────────────────────────────
/// A time that is to be set.
pub open spec fn time_of(ns: Option<i64>) -> Option<TimeSpec> {
    match ns {
        Some(n) => Some(timespec_of(n)),
        None => None,
    }
}

/// A change of attributes does on the server what the client asked for and nothing else:
/// size, permission bits and times are set exactly where they were named. Owner and
/// group never are.
pub proof fn law_setattr_does_what_was_asked(c: AttrChange, req: SetAttrRequest)
    requires
        asks_for(req, c),
    ensures
        forall|n: u64| #[trigger]
            setattr_steps(req).contains(SetAttrStep::Truncate(n)) <==> c.size == Some(n),
        forall|m: u32| #[trigger]
            setattr_steps(req).contains(SetAttrStep::Chmod(m)) <==> c.mode is Some && m
                == c.mode->0 & 0o777,
        forall|a: Option<TimeSpec>, m: Option<TimeSpec>| #[trigger]
            setattr_steps(req).contains(SetAttrStep::SetTimes(a, m)) <==> (c.atime is Some
                || c.mtime is Some) && a == time_of(c.atime) && m == time_of(c.mtime),
{
    law_valid_bits_name_attributes(c);
    let steps = setattr_steps(req);
    let size = c.size is Some;
    let mode = c.mode is Some;
    let times = c.atime is Some || c.mtime is Some;
    let at_ref: int = if size {
        1
    } else {
        0
    };
    if size {
        assert(steps[0] == SetAttrStep::Truncate(req.size));
    }
    if mode {
        assert(steps[at_ref + 1] == SetAttrStep::Chmod(req.mode & 0o777));
    }
    if times {
        assert(steps[steps.len() - 2] == times_step(req));
    }
}

// ── reading ──────────────────────────────────────────────────────────────────
/// A read of the kernel gets what it asked for: from the step that follows once the handle
/// is found, over the request and the server's run, to the bytes of the frames. They are
/// those of the file from the kernel's offset on, as many as the kernel asked for or as the
/// file has.
pub proof fn law_kernel_reads_get_their_range(
    file: Seq<u8>,
    handle: u64,
    offset: u64,
    size: u32,
    step: FileStep,
    seq: u64,
    req: ReadRequest,
    run: ReadRun,
    reads: Seq<Seq<u8>>,
)
    requires
        call_ensures(resolved, (FileWork::Read { offset, size }, Some(handle)), step),
        step matches FileStep::Read { handle: h, offset: o, size: n } && call_ensures(
            read_request,
            (seq, h, o, n),
            req,
        ),
        call_ensures(read_begin, (&req, true), Ok(run)),
        yields(file, run, reads),
    ensures
        req.handle == handle,
        joined(reads).len() == (if offset >= file.len() {
            0int
        } else if offset + size >= file.len() {
            file.len() - offset
        } else {
            size as int
        }),
        forall|i: int| 0 <= i < joined(reads).len() ==> joined(reads)[i] == file[offset + i],
        joined(reads) == file_range(file, offset as int, size as int),
{
    law_read_frames_carry_the_range(file, run, reads);
}

/// The bytes of a range are those of the file in it, as far as the file reaches.
pub proof fn law_range_is_the_file_in_it(file: Seq<u8>, offset: int, len: int, i: int)
    requires
        0 <= offset,
        0 <= len,
    ensures
        file_range(file, offset, len).len() == (if offset >= file.len() {
            0int
        } else if offset + len >= file.len() {
            file.len() - offset
        } else {
            len
        }),
        0 <= i < file_range(file, offset, len).len() ==> file_range(file, offset, len)[i]
            == file[offset + i],
{
}

/// A sync of the kernel reaches the file: on its own handle, and for the data alone exactly
/// where the kernel said so.
pub proof fn law_kernel_syncs_reach_the_file(
    handle: u64,
    datasync: bool,
    step: FileStep,
    seq: u64,
    req: FsyncRequest,
    kind: SyncKind,
)
    requires
        call_ensures(resolved, (FileWork::Fsync { datasync }, Some(handle)), step),
        step matches FileStep::Fsync { handle: h, datasync: d } && call_ensures(
            fsync_request,
            (seq, h, d),
            req,
        ),
        call_ensures(fsync_begin, (&req, true), Ok(kind)),
    ensures
        req.handle == handle,
        kind is DataOnly <==> datasync,
{
}

// ── failures ─────────────────────────────────────────────────────────────────
/// A failure of the server's host reaches the kernel of the client as what it was: a
/// missing file as 2, a refusal as 13, a file that is there already as 17, all else as 5.
pub proof fn law_host_failures_reach_the_kernel(e: IoErrorKind)
    ensures
        ({
            let n = message_errno(server_message(status_of_code(status_code(status_of_error(e)))));
            &&& n == 2 <==> e is NotFound
            &&& n == 13 <==> e is PermissionDenied
            &&& n == 17 <==> e is AlreadyExists
            &&& n == 5 <==> !(e is NotFound || e is PermissionDenied || e is AlreadyExists)
        }),
{
    law_status_roundtrip(status_of_error(e));
    law_reported_failures_have_their_numbers(status_of_error(e));
}

} // verus!
