//! Coalescing write buffer that keeps every chunk until the server acknowledges it.
//!
//! Small writes accumulate per handle and leave as one batch. A send removes
//! nothing: chunks go only when the flush that carried them is acknowledged
//! (`ack_flush`) or when the handle is dropped on purpose (`drop_handle`), so a
//! failed send can be repeated. Memory is bounded: `push` refuses what would
//! exceed the hard limit.

use std::collections::HashMap;

use vstd::prelude::*;
use vstd::std_specs::iter::IteratorSpec;

use crate::image::{
    coalesce, coalesce_push, insert_by_offset, law_coalesce_keeps_image, law_sort_keeps_image,
    lemma_sorted_by_offset, same_image, sorted_by_offset, total_len, Run,
};
use crate::time::{Clock, Duration};

verus! {

broadcast use vstd::std_specs::hash::group_hash_axioms;

/// A deferred write as the model sees it: what it writes, and when it came in
/// (nanoseconds on the buffer's clock).
pub struct Chunk {
    pub run: Run,
    pub queued_at: nat,
}

/// What the buffer holds for one handle.
pub struct HandleState {
    /// The chunks not yet acknowledged, oldest first.
    pub chunks: Seq<Chunk>,
    /// A flush of this handle is in flight.
    pub sending: bool,
}

impl HandleState {
    pub open spec fn empty() -> HandleState {
        HandleState { chunks: Seq::empty(), sending: false }
    }

    /// The buffered writes, in the order they came in.
    pub open spec fn runs(self) -> Seq<Run> {
        self.chunks.map_values(|c: Chunk| c.run)
    }

    pub open spec fn bytes(self) -> nat {
        total_len(self.runs())
    }

    /// The oldest chunk has waited at least `deadline`.
    pub open spec fn older_than(self, deadline: nat, now: nat) -> bool {
        self.chunks.len() > 0 && (if now >= self.chunks[0].queued_at {
            now - self.chunks[0].queued_at
        } else {
            0
        }) >= deadline
    }
}

/// The state of one handle, that of an empty queue where it has none.
pub open spec fn state_of(m: Map<u64, HandleState>, handle: u64) -> HandleState {
    if m.contains_key(handle) {
        m[handle]
    } else {
        HandleState::empty()
    }
}

/// The bounds that a buffer works under, in bytes, and its coalesce window.
pub struct Limits {
    pub per_handle: usize,
    pub total: usize,
    pub hard: usize,
    pub window: Duration,
}

/// All bytes held, over all handles.
pub open spec fn buffered_bytes(m: Map<u64, HandleState>) -> nat
    decreases m.dom().len(),
{
    if m.dom().finite() && m.dom().len() > 0 {
        let h = m.dom().choose();
        m[h].bytes() + buffered_bytes(m.remove(h))
    } else {
        0
    }
}

/// The buffer after a chunk was put behind those of `handle`.
pub open spec fn pushed(m: Map<u64, HandleState>, handle: u64, chunk: Chunk) -> Map<
    u64,
    HandleState,
> {
    m.insert(
        handle,
        HandleState {
            chunks: state_of(m, handle).chunks.push(chunk),
            sending: state_of(m, handle).sending,
        },
    )
}

/// The buffer after the first `n` chunks of `handle` were acknowledged: they are
/// gone, the guard is cleared, and a handle that holds nothing more is forgotten.
pub open spec fn acked(m: Map<u64, HandleState>, handle: u64, n: int) -> Map<u64, HandleState> {
    if !m.contains_key(handle) {
        m
    } else if n >= m[handle].chunks.len() {
        m.remove(handle)
    } else {
        m.insert(handle, HandleState { chunks: m[handle].chunks.skip(n), sending: false })
    }
}

/// `h` holds at least as many bytes as any other handle.
pub open spec fn is_largest(m: Map<u64, HandleState>, h: u64) -> bool {
    m.contains_key(h) && forall|k: u64| #[trigger]
        m.contains_key(k) ==> m[k].bytes() <= m[h].bytes()
}

/// What a `push` decides, and what it leaves: nothing is buffered exactly where
/// the hard bound would be exceeded; otherwise the soft limits are tried, that of
/// the handle first.
pub open spec fn push_outcome(
    before: Map<u64, HandleState>,
    limits: Limits,
    handle: u64,
    chunk: Chunk,
    decision: PushDecision,
    after: Map<u64, HandleState>,
) -> bool {
    if buffered_bytes(before) + chunk.run.data.len() > limits.hard {
        decision == PushDecision::Reject && after == before
    } else {
        &&& after == pushed(before, handle, chunk)
        &&& buffered_bytes(after) == buffered_bytes(before) + chunk.run.data.len()
        &&& if after[handle].bytes() >= limits.per_handle {
            decision == PushDecision::FlushThis(handle)
        } else if buffered_bytes(after) >= limits.total {
            decision matches PushDecision::FlushOther(h) && is_largest(after, h)
        } else {
            decision == PushDecision::Buffered
        }
    }
}

/// `res` names exactly the handles whose oldest chunk has waited at least
/// `deadline` at the time `now`, each once.
pub open spec fn lists_older(
    m: Map<u64, HandleState>,
    deadline: nat,
    now: nat,
    res: Seq<u64>,
) -> bool {
    &&& res.no_duplicates()
    &&& forall|h: u64| #[trigger]
        res.contains(h) <==> m.contains_key(h) && m[h].older_than(deadline, now)
}

/// What a list of offsets and bytes writes.
pub open spec fn runs_of(s: Seq<(u64, Vec<u8>)>) -> Seq<Run> {
    s.map_values(|p: (u64, Vec<u8>)| Run { offset: p.0 as int, data: p.1@ })
}

// ── laws of the model ────────────────────────────────────────────────────────
proof fn lemma_buffered_remove(m: Map<u64, HandleState>, h: u64)
    requires
        m.dom().finite(),
        m.contains_key(h),
    ensures
        buffered_bytes(m) == m[h].bytes() + buffered_bytes(m.remove(h)),
    decreases m.dom().len(),
{
    let c = m.dom().choose();
    assert(m.dom().contains(c));
    if c != h {
        lemma_buffered_remove(m.remove(c), h);
        lemma_buffered_remove(m.remove(h), c);
        assert(m.remove(c).remove(h) =~= m.remove(h).remove(c));
    }
}

proof fn lemma_buffered_insert(m: Map<u64, HandleState>, h: u64, st: HandleState)
    requires
        m.dom().finite(),
    ensures
        buffered_bytes(m.insert(h, st)) == buffered_bytes(m) - state_of(m, h).bytes() + st.bytes(),
{
    lemma_buffered_remove(m.insert(h, st), h);
    if m.contains_key(h) {
        lemma_buffered_remove(m, h);
        assert(m.insert(h, st).remove(h) =~= m.remove(h));
    } else {
        assert(HandleState::empty().runs() =~= Seq::empty());
        assert(m.insert(h, st).remove(h) =~= m);
    }
}

proof fn lemma_push_bytes(st: HandleState, chunk: Chunk)
    ensures
        (HandleState { chunks: st.chunks.push(chunk), sending: st.sending }).bytes() == st.bytes()
            + chunk.run.data.len(),
{
    let next = st.chunks.push(chunk).map_values(|c: Chunk| c.run);
    assert(next.drop_last() =~= st.runs());
    assert(next.last() == chunk.run);
}

pub proof fn lemma_total_len_split(s: Seq<Run>, n: int)
    requires
        0 <= n <= s.len(),
    ensures
        total_len(s) == total_len(s.take(n)) + total_len(s.skip(n)),
    decreases s.len(),
{
    if n == s.len() {
        assert(s.take(n) =~= s);
        assert(s.skip(n) =~= Seq::empty());
    } else {
        lemma_total_len_split(s.drop_last(), n);
        assert(s.drop_last().take(n) =~= s.take(n));
        assert(s.skip(n).drop_last() =~= s.drop_last().skip(n));
        assert(s.skip(n).last() == s.last());
    }
}

proof fn lemma_state_split(st: HandleState, n: int)
    requires
        0 <= n <= st.chunks.len(),
    ensures
        st.bytes() == total_len(st.runs().take(n)) + (HandleState {
            chunks: st.chunks.skip(n),
            sending: false,
        }).bytes(),
{
    lemma_total_len_split(st.runs(), n);
    assert(st.runs().skip(n) =~= st.chunks.skip(n).map_values(|c: Chunk| c.run));
}

/// A `push` never takes anything away: every handle keeps its chunks, in order,
/// at the front of its queue.
pub proof fn law_push_keeps_chunks(
    before: Map<u64, HandleState>,
    limits: Limits,
    handle: u64,
    chunk: Chunk,
    decision: PushDecision,
    after: Map<u64, HandleState>,
    k: u64,
)
    requires
        push_outcome(before, limits, handle, chunk, decision, after),
    ensures
        state_of(before, k).chunks.is_prefix_of(state_of(after, k).chunks),
        decision != PushDecision::Reject ==> state_of(after, handle).chunks == state_of(
            before,
            handle,
        ).chunks.push(chunk),
{
}

/// A `push` decides by the limits. It refuses exactly what would exceed the hard bound.
/// What it takes goes behind the bytes of its own handle and touches no other; it then asks
/// for a flush of that handle exactly where its limit is reached, and else, where the limit
/// of all is reached, for one of a handle that holds the most.
pub proof fn law_push_decides_by_the_limits(
    before: Map<u64, HandleState>,
    limits: Limits,
    handle: u64,
    chunk: Chunk,
    decision: PushDecision,
    after: Map<u64, HandleState>,
    k: u64,
)
    requires
        push_outcome(before, limits, handle, chunk, decision, after),
    ensures
        decision is Reject <==> buffered_bytes(before) + chunk.run.data.len() > limits.hard,
        decision is Reject ==> after == before,
        k != handle ==> state_of(after, k) == state_of(before, k),
        !(decision is Reject) ==> {
            &&& state_of(after, handle).chunks == state_of(before, handle).chunks.push(chunk)
            &&& state_of(after, handle).sending == state_of(before, handle).sending
            &&& buffered_bytes(after) == buffered_bytes(before) + chunk.run.data.len()
            &&& decision is FlushThis <==> state_of(after, handle).bytes() >= limits.per_handle
            &&& decision is FlushOther <==> state_of(after, handle).bytes() < limits.per_handle
                && buffered_bytes(after) >= limits.total
            &&& decision is Buffered <==> state_of(after, handle).bytes() < limits.per_handle
                && buffered_bytes(after) < limits.total
        },
        decision matches PushDecision::FlushThis(h) ==> h == handle,
        decision matches PushDecision::FlushOther(h) ==> after.contains_key(h) && state_of(
            after,
            k,
        ).bytes() <= after[h].bytes(),
{
    assert(HandleState::empty().runs() =~= Seq::empty());
    if !(decision is Reject) && after.contains_key(k) {
        assert(state_of(after, k) == after[k]);
    }
}

/// Buffered bytes are due once the oldest of them have waited for the deadline, and stay
/// due; before, and where nothing is buffered, they are not.
pub proof fn law_bytes_are_due_at_their_deadline(
    m: Map<u64, HandleState>,
    deadline: nat,
    now: nat,
    res: Seq<u64>,
    h: u64,
)
    requires
        lists_older(m, deadline, now, res),
        deadline > 0,
    ensures
        res.contains(h) <==> {
            &&& m.contains_key(h)
            &&& m[h].chunks.len() > 0
            &&& m[h].chunks[0].queued_at + deadline <= now
        },
        res.no_duplicates(),
{
}

/// The buffer never grows past its hard bound.
pub proof fn law_memory_is_bounded(
    before: Map<u64, HandleState>,
    limits: Limits,
    handle: u64,
    chunk: Chunk,
    decision: PushDecision,
    after: Map<u64, HandleState>,
)
    requires
        push_outcome(before, limits, handle, chunk, decision, after),
        buffered_bytes(before) <= limits.hard,
    ensures
        buffered_bytes(after) <= limits.hard,
{
}

/// An acknowledgement takes away the acknowledged chunks of its own handle and
/// nothing else: later chunks of that handle stay, and so does every other handle.
pub proof fn law_ack_takes_only_what_was_sent(
    m: Map<u64, HandleState>,
    handle: u64,
    n: int,
    k: u64,
)
    requires
        0 <= n,
    ensures
        k != handle ==> state_of(acked(m, handle, n), k) == state_of(m, k),
        state_of(acked(m, handle, n), handle).chunks == state_of(m, handle).chunks.skip(
            if n < state_of(m, handle).chunks.len() {
                n
            } else {
                state_of(m, handle).chunks.len() as int
            },
        ),
{
    let st = state_of(m, handle);
    if n >= st.chunks.len() {
        assert(st.chunks.skip(st.chunks.len() as int) =~= Seq::empty());
    }
}

/// A chunk pushed while a flush is in flight survives the acknowledgement of
/// that flush.
pub proof fn law_push_during_send_survives(m: Map<u64, HandleState>, handle: u64, chunk: Chunk)
    requires
        m.contains_key(handle),
    ensures
        ({
            let sent = m[handle].chunks.len() as int;
            let after = acked(pushed(m, handle, chunk), handle, sent);
            after.contains_key(handle) && after[handle].chunks == seq![chunk]
        }),
{
    let sent = m[handle].chunks.len() as int;
    assert(m[handle].chunks.push(chunk).skip(sent) =~= seq![chunk]);
}

/// A batch is the buffered writes in offset order: sending it leaves the file
/// that those writes leave.
pub proof fn law_batch_writes_sorted_chunks(st: HandleState)
    ensures
        same_image(coalesce(sorted_by_offset(st.runs())), sorted_by_offset(st.runs())),
        sorted_by_offset(st.runs()).to_multiset() == st.runs().to_multiset(),
{
    law_coalesce_keeps_image(sorted_by_offset(st.runs()));
    lemma_sorted_by_offset(st.runs());
}

/// Sending a batch leaves the file that the writes leave in the order they came
/// in, provided that of two that overlap the later one never starts before the
/// earlier one.
pub proof fn law_batch_writes_what_was_pushed(st: HandleState)
    requires
        forall|i: int, j: int, pos: int|
            0 <= i < j < st.runs().len() && (#[trigger] st.runs()[i].covers(pos)) && (
            #[trigger] st.runs()[j].covers(pos)) ==> st.runs()[i].offset <= st.runs()[j].offset,
    ensures
        same_image(coalesce(sorted_by_offset(st.runs())), st.runs()),
{
    law_batch_writes_sorted_chunks(st);
    law_sort_keeps_image(st.runs());
}

// ── the buffer ───────────────────────────────────────────────────────────────
/// One deferred write chunk.
struct PendingWrite {
    offset: u64,
    data: Vec<u8>,
    queued_at: Duration,
}

impl PendingWrite {
    spec fn view(&self) -> Chunk {
        Chunk {
            run: Run { offset: self.offset as int, data: self.data@ },
            queued_at: self.queued_at.nanos(),
        }
    }
}

/// Per-handle queue plus a single-sender guard.
struct HandleBuf {
    chunks: Vec<PendingWrite>,
    /// True while a flush of this handle is in flight (snapshot taken, awaiting
    /// the acknowledgement), so that two flushers never send the same chunks.
    sending: bool,
}

impl HandleBuf {
    spec fn view(&self) -> HandleState {
        HandleState {
            chunks: self.chunks@.map_values(|w: PendingWrite| w.view()),
            sending: self.sending,
        }
    }

    fn bytes(&self) -> (res: usize)
        requires
            self.view().bytes() <= usize::MAX,
        ensures
            res == self.view().bytes(),
    {
        assert(self.view().runs() =~= pending_runs(self.chunks@));
        sum_bytes(&self.chunks)
    }
}

spec fn pending_runs(s: Seq<PendingWrite>) -> Seq<Run> {
    s.map_values(|w: PendingWrite| w.view().run)
}

fn sum_bytes(chunks: &Vec<PendingWrite>) -> (res: usize)
    requires
        total_len(pending_runs(chunks@)) <= usize::MAX,
    ensures
        res == total_len(pending_runs(chunks@)),
{
    let ghost runs = pending_runs(chunks@);
    let mut sum: usize = 0;
    let mut i: usize = 0;
    proof {
        assert(runs.take(0) =~= Seq::empty());
    }
    while i < chunks.len()
        invariant
            i <= chunks.len(),
            runs == pending_runs(chunks@),
            sum == total_len(runs.take(i as int)),
            total_len(runs) <= usize::MAX,
        decreases chunks.len() - i,
    {
        proof {
            lemma_total_len_split(runs, i + 1);
            assert(runs.take(i + 1).drop_last() =~= runs.take(i as int));
            assert(runs.take(i + 1).last() == runs[i as int]);
        }
        sum = sum + chunks[i].data.len();
        i = i + 1;
    }
    assert(runs.take(i as int) =~= runs);
    sum
}

proof fn lemma_insert_position(s: Seq<Run>, w: Run, p: int)
    requires
        0 <= p <= s.len(),
        p > 0 ==> s[p - 1].offset <= w.offset,
        forall|i: int| p <= i < s.len() ==> (#[trigger] s[i]).offset > w.offset,
    ensures
        insert_by_offset(s, w) == s.insert(p, w),
    decreases s.len(),
{
    if s.len() == p {
        assert(s.insert(p, w) =~= s.push(w));
    } else {
        lemma_insert_position(s.drop_last(), w, p);
        assert(s.drop_last().insert(p, w).push(s.last()) =~= s.insert(p, w));
    }
}

/// Puts a chunk behind those whose offset is not larger. Chunks mostly come in
/// order, so the search starts at the end.
fn insert_sorted(pairs: &mut Vec<(u64, Vec<u8>)>, offset: u64, data: Vec<u8>)
    ensures
        runs_of(final(pairs)@) == insert_by_offset(
            runs_of(old(pairs)@),
            (Run { offset: offset as int, data: data@ }),
        ),
{
    let ghost before = pairs@;
    let ghost w = Run { offset: offset as int, data: data@ };
    let mut p: usize = pairs.len();
    while p > 0 && pairs[p - 1].0 > offset
        invariant
            p <= pairs.len(),
            pairs@ == before,
            forall|i: int| p <= i < pairs.len() ==> (#[trigger] pairs@[i]).0 > offset,
        decreases p,
    {
        p = p - 1;
    }
    proof {
        let s = runs_of(before);
        assert forall|i: int| p <= i < s.len() implies (#[trigger] s[i]).offset > w.offset by {
            assert(pairs@[i].0 > offset);
        }
        lemma_insert_position(s, w, p as int);
    }
    pairs.insert(p, (offset, data));
    assert(runs_of(pairs@) =~= runs_of(before).insert(p as int, w));
}

/// Joins contiguous chunks.
fn coalesce_chunks(pairs: Vec<(u64, Vec<u8>)>) -> (merged: Vec<(u64, Vec<u8>)>)
    ensures
        runs_of(merged@) == coalesce(runs_of(pairs@)),
{
    let mut merged: Vec<(u64, Vec<u8>)> = Vec::new();
    let ghost all = runs_of(pairs@);
    assert(runs_of(merged@) =~= coalesce(all.take(0)));
    for pair in it: pairs
        invariant
            all == runs_of(it.seq()),
            runs_of(merged@) == coalesce(all.take(it.index())),
    {
        let (off, mut data) = pair;
        let ghost w = Run { offset: off as int, data: data@ };
        let ghost before = runs_of(merged@);
        proof {
            assert(all[it.index()] == w);
            assert(all.take(it.index() + 1).drop_last() =~= all.take(it.index()));
            assert(all.take(it.index() + 1).last() == w);
        }
        let joins = match merged.last() {
            Some(last) => match last.0.checked_add(last.1.len() as u64) {
                Some(end) => end == off,
                None => false,
            },
            None => false,
        };
        assert(joins == (before.len() > 0 && before.last().end() == w.offset));
        if joins {
            match merged.pop() {
                Some((last_off, mut last_data)) => {
                    last_data.append(&mut data);
                    merged.push((last_off, last_data));
                },
                None => {},
            }
        } else {
            merged.push((off, data));
        }
        assert(runs_of(merged@) =~= coalesce_push(before, w));
    }
    assert(all.take(all.len() as int) =~= all);
    merged
}

/// Copies the chunks, sorts them by offset and joins contiguous ones.
fn snapshot(chunks: &Vec<PendingWrite>) -> (res: Vec<(u64, Vec<u8>)>)
    ensures
        runs_of(res@) == coalesce(sorted_by_offset(pending_runs(chunks@))),
{
    let ghost all = pending_runs(chunks@);
    let mut pairs: Vec<(u64, Vec<u8>)> = Vec::new();
    let mut i: usize = 0;
    assert(runs_of(pairs@) =~= sorted_by_offset(all.take(0)));
    while i < chunks.len()
        invariant
            i <= chunks.len(),
            all == pending_runs(chunks@),
            runs_of(pairs@) == sorted_by_offset(all.take(i as int)),
        decreases chunks.len() - i,
    {
        let data = chunks[i].data.clone();
        proof {
            assert(data@ =~= chunks@[i as int].data@);
            assert(all.take(i + 1).drop_last() =~= all.take(i as int));
            assert(all.take(i + 1).last() == all[i as int]);
        }
        insert_sorted(&mut pairs, chunks[i].offset, data);
        i = i + 1;
    }
    assert(all.take(i as int) =~= all);
    coalesce_chunks(pairs)
}

/// The buffered chunks of all handles, their total, and the clock that gives them their
/// age.
pub struct Held {
    per_handle: HashMap<u64, HandleBuf>,
    total_bytes: usize,
    clock: Clock,
}

/// Coalescing, keep-until-acknowledged write buffer.
pub struct WriteBuffer {
    /// The chunks that are not acknowledged yet.
    pub held: Held,
    /// Soft per-handle limit: reaching it asks the caller to flush this handle.
    pub max_per_handle_bytes: usize,
    /// Soft global limit: reaching it asks the caller to flush the largest handle.
    pub max_total_bytes: usize,
    /// Hard global limit: `push` refuses to enqueue past this.
    pub hard_total_bytes: usize,
    /// Coalesce window: data older than this is flushed in the background.
    pub window: Duration,
}

/// A coalesced snapshot to transmit for one handle.
pub struct FlushBatch {
    /// Offset-sorted, contiguous-coalesced `(offset, data)` runs to send.
    pub chunks: Vec<(u64, Vec<u8>)>,
    /// Number of buffered chunks this snapshot covers (passed back to `ack_flush`).
    pub sent_count: usize,
}

/// What the caller should do after a `push`.
#[derive(Debug, PartialEq, Eq, Structural)]
pub enum PushDecision {
    /// Buffered; no flush needed right now.
    Buffered,
    /// Per-handle soft limit reached; flush this handle.
    FlushThis(u64),
    /// Global soft limit reached; flush this (possibly other) handle to reclaim.
    FlushOther(u64),
    /// The hard memory bound would be exceeded; nothing was buffered, and the
    /// caller must fail the write.
    Reject,
}

impl WriteBuffer {
    /// The buffered handles and what each of them holds.
    pub closed spec fn view(&self) -> Map<u64, HandleState> {
        self.held.per_handle@.map_values(|hb: HandleBuf| hb.view())
    }

    /// The running total is the sum over all handles, and no handle is kept
    /// without a chunk.
    pub closed spec fn wf(&self) -> bool {
        &&& self.held.total_bytes == buffered_bytes(self@)
        &&& forall|h: u64| #[trigger] self@.contains_key(h) ==> self@[h].chunks.len() > 0
    }

    /// The limits that the buffer was made with.
    pub open spec fn limits(&self) -> Limits {
        Limits {
            per_handle: self.max_per_handle_bytes,
            total: self.max_total_bytes,
            hard: self.hard_total_bytes,
            window: self.window,
        }
    }

    /// The clock that the age of chunks is measured by.
    pub closed spec fn clock(&self) -> Clock {
        self.held.clock
    }

    /// What a valid buffer keeps: a finite number of handles, none of them empty,
    /// and a sum of bytes that a machine word holds.
    pub proof fn lemma_wf(&self)
        requires
            self.wf(),
        ensures
            self@.dom().finite(),
            buffered_bytes(self@) <= usize::MAX,
            forall|h: u64| #[trigger] self@.contains_key(h) ==> self@[h].chunks.len() > 0,
            forall|h: u64| #[trigger]
                self@.contains_key(h) ==> self@[h].bytes() <= buffered_bytes(self@),
    {
        assert(self@.dom() =~= self.held.per_handle@.dom());
        assert forall|h: u64| #[trigger] self@.contains_key(h) implies self@[h].bytes()
            <= buffered_bytes(self@) by {
            lemma_buffered_remove(self@, h);
        }
    }

    pub fn new(max_per_handle_bytes: usize, max_total_bytes: usize, window_ms: u64) -> (res: Self)
        ensures
            res.wf(),
            res@ == Map::<u64, HandleState>::empty(),
            res.limits().per_handle == max_per_handle_bytes,
            res.limits().total == max_total_bytes,
            res.limits().hard == (if 2 * max_total_bytes <= usize::MAX {
                2 * max_total_bytes
            } else {
                usize::MAX as int
            }),
            res.limits().window.nanos() == window_ms * 1_000_000,
            res.clock().is_started(),
    {
        let hard: usize = match max_total_bytes.checked_mul(2) {
            Some(n) => n,
            None => usize::MAX,
        };
        let res = WriteBuffer {
            held: Held { per_handle: HashMap::new(), total_bytes: 0, clock: Clock::new() },
            max_per_handle_bytes,
            max_total_bytes,
            // Room to keep unacknowledged data across a short outage, and still a
            // firm bound past which writes fail.
            hard_total_bytes: hard,
            window: Duration::from_millis(window_ms),
        };
        assert(res@ =~= Map::<u64, HandleState>::empty());
        res
    }

    /// Current total buffered bytes across all handles.
    pub fn total_bytes(&self) -> (res: usize)
        requires
            self.wf(),
        ensures
            res == buffered_bytes(self@),
    {
        self.held.total_bytes
    }

    /// True if `handle` has any buffered chunks.
    pub fn has_buffered(&self, handle: u64) -> (res: bool)
        requires
            self.wf(),
        ensures
            res == self@.contains_key(handle),
            res == (state_of(self@, handle).chunks.len() > 0),
    {
        match self.held.per_handle.get(&handle) {
            Some(hb) => {
                assert(self@.contains_key(handle));
                hb.chunks.len() > 0
            },
            None => false,
        }
    }

    /// Buffer a write chunk, or refuse it if the hard memory bound would be
    /// exceeded. On refusal nothing is enqueued and the caller must fail the
    /// write rather than acknowledge data it cannot hold.
    pub fn push(&mut self, handle: u64, offset: u64, data: Vec<u8>) -> (res: PushDecision)
        requires
            old(self).wf(),
        ensures
            final(self).wf(),
            final(self).limits() == old(self).limits(),
            final(self).clock() == old(self).clock(),
            exists|now: Duration|
                #[trigger] old(self).clock().may_read(now) && push_outcome(
                    old(self)@,
                    old(self).limits(),
                    handle,
                    Chunk {
                        run: Run { offset: offset as int, data: data@ },
                        queued_at: now.nanos(),
                    },
                    res,
                    final(self)@,
                ),
    {
        let now = self.held.clock.now();
        assert(self.clock().may_read(now));
        self.push_at(handle, offset, data, now)
    }

    /// `push` of a chunk that came in at `now`.
    pub fn push_at(&mut self, handle: u64, offset: u64, data: Vec<u8>, now: Duration) -> (res:
        PushDecision)
        requires
            old(self).wf(),
        ensures
            final(self).wf(),
            final(self).limits() == old(self).limits(),
            final(self).clock() == old(self).clock(),
            push_outcome(
                old(self)@,
                old(self).limits(),
                handle,
                Chunk { run: Run { offset: offset as int, data: data@ }, queued_at: now.nanos() },
                res,
                final(self)@,
            ),
    {
        let ghost before = self@;
        let ghost chunk = Chunk {
            run: Run { offset: offset as int, data: data@ },
            queued_at: now.nanos(),
        };
        let n: usize = data.len();
        if self.held.total_bytes > self.hard_total_bytes || n > self.hard_total_bytes
            - self.held.total_bytes {
            return PushDecision::Reject;
        }
        let mut entry = match self.held.per_handle.remove(&handle) {
            Some(hb) => hb,
            None => HandleBuf { chunks: Vec::new(), sending: false },
        };
        proof {
            assert(entry.view().chunks =~= state_of(before, handle).chunks);
        }
        entry.chunks.push(PendingWrite { offset, data, queued_at: now });
        let ghost st = entry.view();
        proof {
            assert(st.chunks =~= state_of(before, handle).chunks.push(chunk));
            lemma_push_bytes(state_of(before, handle), chunk);
            assert(before.dom() =~= self.held.per_handle@.dom().insert(handle) || before.dom()
                =~= self.held.per_handle@.dom());
            lemma_buffered_insert(before, handle, st);
            lemma_buffered_remove(before.insert(handle, st), handle);
        }
        self.held.per_handle.insert(handle, entry);
        self.held.total_bytes = self.held.total_bytes + n;
        assert(self@ =~= pushed(before, handle, chunk));

        if self.bytes_of(handle) >= self.max_per_handle_bytes {
            return PushDecision::FlushThis(handle);
        }
        if self.held.total_bytes >= self.max_total_bytes {
            let biggest = self.largest(handle);
            return PushDecision::FlushOther(biggest);
        }
        PushDecision::Buffered
    }

    /// The bytes held for one handle.
    fn bytes_of(&self, handle: u64) -> (res: usize)
        requires
            self.wf(),
        ensures
            res == state_of(self@, handle).bytes(),
    {
        match self.held.per_handle.get(&handle) {
            Some(hb) => {
                proof {
                    self.lemma_wf();
                    assert(self@.contains_key(handle));
                }
                hb.bytes()
            },
            None => {
                assert(HandleState::empty().runs() =~= Seq::empty());
                0
            },
        }
    }

    /// A handle that holds at least as much as any other.
    fn largest(&self, first: u64) -> (res: u64)
        requires
            self.wf(),
            self@.contains_key(first),
        ensures
            is_largest(self@, res),
    {
        let mut best = first;
        let mut most: usize = self.bytes_of(first);
        let keys = self.handles();
        let mut i: usize = 0;
        while i < keys.len()
            invariant
                self.wf(),
                i <= keys.len(),
                keys@.to_set() == self@.dom(),
                self@.contains_key(best),
                most == self@[best].bytes(),
                forall|j: int| 0 <= j < i ==> self@[#[trigger] keys@[j]].bytes() <= most,
            decreases keys.len() - i,
        {
            let h = keys[i];
            assert(keys@.to_set().contains(h));
            let b: usize = self.bytes_of(h);
            if b > most {
                best = h;
                most = b;
            }
            i = i + 1;
        }
        assert forall|k: u64| #[trigger] self@.contains_key(k) implies self@[k].bytes()
            <= self@[best].bytes() by {
            assert(keys@.to_set().contains(k));
        }
        best
    }

    /// Begin a flush of `handle`: mark it sending and return a coalesced snapshot
    /// of its chunks to transmit, plus how many buffered chunks the snapshot
    /// covers. Returns `None` if the handle is empty or already has a flush in
    /// flight. The chunks stay buffered.
    ///
    /// The snapshot covers every buffered chunk, also those that an earlier failed
    /// send already transmitted, so that a reconnect re-sends them all.
    pub fn begin_flush(&mut self, handle: u64) -> (res: Option<FlushBatch>)
        requires
            old(self).wf(),
        ensures
            final(self).wf(),
            final(self).limits() == old(self).limits(),
            final(self).clock() == old(self).clock(),
            buffered_bytes(final(self)@) == buffered_bytes(old(self)@),
            res is Some <==> old(self)@.contains_key(handle) && !old(self)@[handle].sending,
            res is None ==> final(self)@ == old(self)@,
            res matches Some(batch) ==> {
                let st = old(self)@[handle];
                &&& final(self)@ == old(self)@.insert(
                    handle,
                    (HandleState { chunks: st.chunks, sending: true }),
                )
                &&& batch.sent_count == st.chunks.len()
                &&& runs_of(batch.chunks@) == coalesce(sorted_by_offset(st.runs()))
            },
    {
        let ghost before = self@;
        let mut hb = match self.held.per_handle.remove(&handle) {
            Some(hb) => hb,
            None => {
                assert(self@ =~= before);
                return None;
            },
        };
        let ghost st = hb.view();
        proof {
            assert(before.contains_key(handle) && before[handle] == st);
            assert(before.dom() =~= self.held.per_handle@.dom().insert(handle));
        }
        if hb.sending || hb.chunks.len() == 0 {
            self.held.per_handle.insert(handle, hb);
            assert(self@ =~= before);
            return None;
        }
        hb.sending = true;
        let sent_count: usize = hb.chunks.len();
        let chunks = snapshot(&hb.chunks);
        proof {
            assert(st.runs() =~= pending_runs(hb.chunks@));
            lemma_buffered_insert(before, handle, hb.view());
        }
        self.held.per_handle.insert(handle, hb);
        assert(self@ =~= before.insert(
            handle,
            HandleState { chunks: st.chunks, sending: true },
        ));
        Some(FlushBatch { chunks, sent_count })
    }

    /// The flush of `handle` was acknowledged: drop the first `sent_count` chunks
    /// (the snapshot) and clear the sending guard. Chunks pushed during the send
    /// come after them and are kept.
    pub fn ack_flush(&mut self, handle: u64, sent_count: usize)
        requires
            old(self).wf(),
        ensures
            final(self).wf(),
            final(self).limits() == old(self).limits(),
            final(self).clock() == old(self).clock(),
            final(self)@ == acked(old(self)@, handle, sent_count as int),
    {
        let ghost before = self@;
        match self.held.per_handle.remove(&handle) {
            Some(mut hb) => {
                let ghost st = hb.view();
                let take: usize = if sent_count < hb.chunks.len() {
                    sent_count
                } else {
                    hb.chunks.len()
                };
                proof {
                    assert(before.contains_key(handle) && before[handle] == st);
                    assert(before.dom() =~= self.held.per_handle@.dom().insert(handle));
                    lemma_state_split(st, take as int);
                    lemma_buffered_remove(before, handle);
                }
                let rest = hb.chunks.split_off(take);
                assert(pending_runs(hb.chunks@) =~= st.runs().take(take as int));
                let removed: usize = sum_bytes(&hb.chunks);
                self.held.total_bytes = self.held.total_bytes - removed;
                if rest.len() > 0 {
                    let kept = HandleBuf { chunks: rest, sending: false };
                    proof {
                        assert(kept.view().chunks =~= st.chunks.skip(take as int));
                        lemma_buffered_insert(before, handle, kept.view());
                    }
                    self.held.per_handle.insert(handle, kept);
                    assert(self@ =~= before.insert(
                        handle,
                        HandleState { chunks: st.chunks.skip(take as int), sending: false },
                    ));
                } else {
                    proof {
                        assert(st.chunks.skip(take as int) =~= Seq::empty());
                        assert(HandleState::empty().runs() =~= Seq::empty());
                        assert((HandleState {
                            chunks: st.chunks.skip(take as int),
                            sending: false,
                        }) == HandleState::empty());
                    }
                    assert(self@ =~= before.remove(handle));
                }
            },
            None => {
                assert(self@ =~= before);
            },
        }
    }

    /// The flush of `handle` failed: clear the sending guard so that a later flush
    /// can retry. The chunks remain buffered.
    pub fn fail_flush(&mut self, handle: u64)
        requires
            old(self).wf(),
        ensures
            final(self).wf(),
            final(self).limits() == old(self).limits(),
            final(self).clock() == old(self).clock(),
            final(self)@ == (if old(self)@.contains_key(handle) {
                old(self)@.insert(
                    handle,
                    (HandleState { chunks: old(self)@[handle].chunks, sending: false }),
                )
            } else {
                old(self)@
            }),
            buffered_bytes(final(self)@) == buffered_bytes(old(self)@),
    {
        let ghost before = self@;
        match self.held.per_handle.remove(&handle) {
            Some(mut hb) => {
                let ghost st = hb.view();
                hb.sending = false;
                proof {
                    assert(before.contains_key(handle) && before[handle] == st);
                    assert(before.dom() =~= self.held.per_handle@.dom().insert(handle));
                    assert(hb.view().runs() =~= st.runs());
                    lemma_buffered_insert(before, handle, hb.view());
                }
                self.held.per_handle.insert(handle, hb);
                assert(self@ =~= before.insert(
                    handle,
                    HandleState { chunks: st.chunks, sending: false },
                ));
            },
            None => {
                assert(self@ =~= before);
            },
        }
    }

    /// Drop all of `handle`'s buffered chunks (a deliberate discard) and return
    /// the bytes freed. The caller reports the loss.
    pub fn drop_handle(&mut self, handle: u64) -> (res: usize)
        requires
            old(self).wf(),
        ensures
            final(self).wf(),
            final(self).limits() == old(self).limits(),
            final(self).clock() == old(self).clock(),
            final(self)@ == old(self)@.remove(handle),
            res == state_of(old(self)@, handle).bytes(),
            buffered_bytes(final(self)@) == buffered_bytes(old(self)@) - res,
    {
        let ghost before = self@;
        match self.held.per_handle.remove(&handle) {
            Some(hb) => {
                proof {
                    assert(before.contains_key(handle) && before[handle] == hb.view());
                    assert(before.dom() =~= self.held.per_handle@.dom().insert(handle));
                    lemma_buffered_remove(before, handle);
                }
                let bytes: usize = hb.bytes();
                self.held.total_bytes = self.held.total_bytes - bytes;
                assert(self@ =~= before.remove(handle));
                bytes
            },
            None => {
                assert(HandleState::empty().runs() =~= Seq::empty());
                assert(self@ =~= before);
                assert(before.remove(handle) =~= before);
                0
            },
        }
    }

    /// Handles whose oldest chunk has waited at least `window` (background flush).
    pub fn expired_handles(&self) -> (res: Vec<u64>)
        requires
            self.wf(),
        ensures
            exists|now: Duration|
                #[trigger] self.clock().may_read(now) && lists_older(
                    self@,
                    self.limits().window.nanos(),
                    now.nanos(),
                    res@,
                ),
    {
        let window = self.window;
        assert(window == self.limits().window);
        self.older_than(window)
    }

    /// Handles whose oldest chunk has waited at least `deadline`.
    pub fn older_than(&self, deadline: Duration) -> (res: Vec<u64>)
        requires
            self.wf(),
        ensures
            exists|now: Duration|
                #[trigger] self.clock().may_read(now) && lists_older(
                    self@,
                    deadline.nanos(),
                    now.nanos(),
                    res@,
                ),
    {
        let now = self.held.clock.now();
        assert(self.clock().may_read(now));
        self.older_than_at(deadline, now)
    }

    /// Handles whose oldest chunk has waited at least `deadline` at the time `now`.
    pub fn older_than_at(&self, deadline: Duration, now: Duration) -> (res: Vec<u64>)
        requires
            self.wf(),
        ensures
            lists_older(self@, deadline.nanos(), now.nanos(), res@),
    {
        let keys = self.handles();
        let limit: u128 = deadline.as_nanos();
        let at: u128 = now.as_nanos();
        let mut out: Vec<u64> = Vec::new();
        let mut i: usize = 0;
        while i < keys.len()
            invariant
                self.wf(),
                i <= keys.len(),
                keys@.no_duplicates(),
                keys@.to_set() == self@.dom(),
                limit == deadline.nanos(),
                at == now.nanos(),
                out@.no_duplicates(),
                forall|h: u64|
                    out@.contains(h) <==> exists|j: int|
                        0 <= j < i && keys@[j] == h && self@[h].older_than(
                            deadline.nanos(),
                            now.nanos(),
                        ),
            decreases keys.len() - i,
        {
            let h = keys[i];
            assert(keys@.to_set().contains(h));
            let ghost before = out@;
            let is_old = match self.held.per_handle.get(&h) {
                Some(hb) => {
                    assert(self@[h] == hb.view());
                    if hb.chunks.len() == 0 {
                        false
                    } else {
                        let queued: u128 = hb.chunks[0].queued_at.as_nanos();
                        let age: u128 = if at >= queued {
                            at - queued
                        } else {
                            0
                        };
                        age >= limit
                    }
                },
                None => false,
            };
            assert(is_old == self@[h].older_than(deadline.nanos(), now.nanos()));
            if is_old {
                proof {
                    if before.contains(h) {
                        let j = choose|j: int|
                            0 <= j < i && keys@[j] == h && self@[h].older_than(
                                deadline.nanos(),
                                now.nanos(),
                            );
                        assert(keys@[j] == keys@[i as int]);
                    }
                }
                out.push(h);
                proof {
                    assert forall|k: u64| out@.contains(k) <==> (before.contains(k) || k == h) by {
                        assert(out@ =~= before.push(h));
                        if k == h {
                            assert(out@[out@.len() - 1] == h);
                        }
                        if before.contains(k) {
                            let j = choose|j: int| 0 <= j < before.len() && before[j] == k;
                            assert(out@[j] == k);
                        }
                    }
                }
            }
            assert forall|k: u64| out@.contains(k) <==> exists|j: int|
                0 <= j < i + 1 && keys@[j] == k && self@[k].older_than(
                    deadline.nanos(),
                    now.nanos(),
                ) by {
                if before.contains(k) {
                    let j = choose|j: int|
                        0 <= j < i && keys@[j] == k && self@[k].older_than(
                            deadline.nanos(),
                            now.nanos(),
                        );
                    assert(0 <= j < i + 1 && keys@[j] == k);
                }
                if k == h && is_old {
                    assert(keys@[i as int] == k);
                }
            }
            i = i + 1;
        }
        proof {
            assert forall|h: u64| out@.contains(h) <==> self@.contains_key(h) && self@[h].older_than(
                deadline.nanos(),
                now.nanos(),
            ) by {
                if self@.contains_key(h) {
                    assert(keys@.to_set().contains(h));
                    let j = choose|j: int| 0 <= j < keys@.len() && keys@[j] == h;
                    assert(keys@[j] == h);
                }
                if out@.contains(h) {
                    assert(keys@.to_set().contains(h));
                }
            }
        }
        out
    }

    /// All handles that currently hold buffered data, each once, in no order.
    pub fn handles(&self) -> (res: Vec<u64>)
        requires
            self.wf(),
        ensures
            res@.no_duplicates(),
            res@.to_set() == self@.dom(),
    {
        let mut out: Vec<u64> = Vec::new();
        for k in it: self.held.per_handle.keys()
            invariant
                out@ =~= it.seq().unref().take(it.index()),
        {
            out.push(*k);
        }
        proof {
            assert(out@ =~= vstd::std_specs::hash::spec_keys_iter(
                &self.held.per_handle,
            ).remaining().unref());
            assert(self@.dom() =~= self.held.per_handle@.dom());
        }
        out
    }
}

} // verus!
