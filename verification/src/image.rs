//! What positioned writes leave in a file.
//!
//! A write puts its bytes at its offset and covers what was there. The model is
//! a sequence of such writes, oldest first; the laws say which rearrangements
//! and repetitions of them leave the same file.

use vstd::prelude::*;

verus! {

/// One positioned write: `data` put at `offset`.
pub struct Run {
    pub offset: int,
    pub data: Seq<u8>,
}

impl Run {
    /// The first position behind the write.
    pub open spec fn end(self) -> int {
        self.offset + self.data.len()
    }

    pub open spec fn covers(self, pos: int) -> bool {
        self.offset <= pos < self.end()
    }
}

/// The byte that `writes`, performed in order, leave at `pos`: that of the last
/// write that covers it. `None` where no write reaches and the old byte stays.
pub open spec fn byte_at(writes: Seq<Run>, pos: int) -> Option<u8>
    decreases writes.len(),
{
    if writes.len() == 0 {
        None
    } else if writes.last().covers(pos) {
        Some(writes.last().data[pos - writes.last().offset])
    } else {
        byte_at(writes.drop_last(), pos)
    }
}

/// Two sequences of writes leave every file alike.
pub open spec fn same_image(a: Seq<Run>, b: Seq<Run>) -> bool {
    forall|pos: int| byte_at(a, pos) == byte_at(b, pos)
}

/// Puts `w` behind every write of `s` whose offset is not larger, where `s` is
/// sorted by offset.
pub open spec fn insert_by_offset(s: Seq<Run>, w: Run) -> Seq<Run>
    decreases s.len(),
{
    if s.len() == 0 || s.last().offset <= w.offset {
        s.push(w)
    } else {
        insert_by_offset(s.drop_last(), w).push(s.last())
    }
}

/// The writes sorted by offset; those with one offset keep their order.
pub open spec fn sorted_by_offset(s: Seq<Run>) -> Seq<Run>
    decreases s.len(),
{
    if s.len() == 0 {
        Seq::empty()
    } else {
        insert_by_offset(sorted_by_offset(s.drop_last()), s.last())
    }
}

pub open spec fn is_sorted_by_offset(s: Seq<Run>) -> bool {
    forall|i: int, j: int| 0 <= i <= j < s.len() ==> s[i].offset <= s[j].offset
}

/// Appends `w` to the last run where it starts right behind it, else as a run of
/// its own.
pub open spec fn coalesce_push(runs: Seq<Run>, w: Run) -> Seq<Run> {
    if runs.len() > 0 && runs.last().end() == w.offset {
        runs.update(
            runs.len() - 1,
            Run { offset: runs.last().offset, data: runs.last().data + w.data },
        )
    } else {
        runs.push(w)
    }
}

/// Joins each write to the one before it wherever it starts right behind it.
pub open spec fn coalesce(s: Seq<Run>) -> Seq<Run>
    decreases s.len(),
{
    if s.len() == 0 {
        Seq::empty()
    } else {
        coalesce_push(coalesce(s.drop_last()), s.last())
    }
}

pub open spec fn total_len(s: Seq<Run>) -> nat
    decreases s.len(),
{
    if s.len() == 0 {
        0
    } else {
        total_len(s.drop_last()) + s.last().data.len()
    }
}

/// A later write that covers `pos` decides it; otherwise the earlier ones do.
pub proof fn lemma_byte_at_append(a: Seq<Run>, b: Seq<Run>, pos: int)
    ensures
        byte_at(a + b, pos) == (if byte_at(b, pos) is Some {
            byte_at(b, pos)
        } else {
            byte_at(a, pos)
        }),
    decreases b.len(),
{
    if b.len() == 0 {
        assert(a + b =~= a);
    } else {
        assert((a + b).drop_last() =~= a + b.drop_last());
        lemma_byte_at_append(a, b.drop_last(), pos);
    }
}

/// A position has a byte exactly where some write covers it.
pub proof fn lemma_byte_at_covered(s: Seq<Run>, pos: int)
    ensures
        byte_at(s, pos) is Some <==> exists|i: int| 0 <= i < s.len() && (#[trigger] s[i]).covers(pos),
    decreases s.len(),
{
    if s.len() > 0 {
        let p = s.drop_last();
        lemma_byte_at_covered(p, pos);
        if s.last().covers(pos) {
            assert(s[s.len() - 1].covers(pos));
        }
        assert forall|i: int| 0 <= i < p.len() implies p[i] == s[i] by {}
        if exists|i: int| 0 <= i < p.len() && (#[trigger] p[i]).covers(pos) {
            let i = choose|i: int| 0 <= i < p.len() && (#[trigger] p[i]).covers(pos);
            assert(s[i].covers(pos));
        }
        if exists|i: int| 0 <= i < s.len() && (#[trigger] s[i]).covers(pos) {
            let i = choose|i: int| 0 <= i < s.len() && (#[trigger] s[i]).covers(pos);
            if i < p.len() {
                assert(p[i].covers(pos));
            }
        }
    }
}

/// Replaying a sequence of writes over any part of it that was already performed
/// leaves the file as performing it once does: `done` may be any writes, whole
/// or cut short, that touch only positions which `writes` covers.
pub proof fn law_replay_is_idempotent(done: Seq<Run>, writes: Seq<Run>)
    requires
        forall|pos: int| (#[trigger] byte_at(done, pos)) is Some ==> byte_at(writes, pos) is Some,
    ensures
        same_image(done + writes, writes),
{
    assert forall|pos: int| byte_at(done + writes, pos) == byte_at(writes, pos) by {
        lemma_byte_at_append(done, writes, pos);
    }
}

/// Re-sending all of a batch after its first `k` writes were performed leaves
/// the file as sending it once does.
pub proof fn law_resend_after_prefix(writes: Seq<Run>, k: int)
    requires
        0 <= k <= writes.len(),
    ensures
        same_image(writes.take(k) + writes, writes),
{
    let done = writes.take(k);
    assert forall|pos: int| (#[trigger] byte_at(done, pos)) is Some implies byte_at(
        writes,
        pos,
    ) is Some by {
        lemma_byte_at_covered(done, pos);
        lemma_byte_at_covered(writes, pos);
        let i = choose|i: int| 0 <= i < done.len() && (#[trigger] done[i]).covers(pos);
        assert(writes[i].covers(pos));
    }
    law_replay_is_idempotent(done, writes);
}

pub proof fn lemma_coalesce_push_image(runs: Seq<Run>, w: Run, pos: int)
    ensures
        byte_at(coalesce_push(runs, w), pos) == byte_at(runs.push(w), pos),
{
    let out = coalesce_push(runs, w);
    assert(runs.push(w).drop_last() =~= runs);
    if runs.len() > 0 && runs.last().end() == w.offset {
        reveal_with_fuel(byte_at, 3);
        assert(out.drop_last() =~= runs.drop_last());
    }
}

pub proof fn lemma_byte_at_push(a: Seq<Run>, b: Seq<Run>, w: Run, pos: int)
    requires
        byte_at(a, pos) == byte_at(b, pos),
    ensures
        byte_at(a.push(w), pos) == byte_at(b.push(w), pos),
{
    assert(a.push(w).drop_last() =~= a);
    assert(b.push(w).drop_last() =~= b);
}

/// Joining contiguous writes changes no byte of the file.
pub proof fn law_coalesce_keeps_image(s: Seq<Run>)
    ensures
        same_image(coalesce(s), s),
    decreases s.len(),
{
    if s.len() > 0 {
        law_coalesce_keeps_image(s.drop_last());
        assert forall|pos: int| byte_at(coalesce(s), pos) == byte_at(s, pos) by {
            lemma_coalesce_push_image(coalesce(s.drop_last()), s.last(), pos);
            lemma_byte_at_push(coalesce(s.drop_last()), s.drop_last(), s.last(), pos);
            assert(s.drop_last().push(s.last()) =~= s);
        }
    }
}

pub proof fn lemma_insert_by_offset_sorted(s: Seq<Run>, w: Run)
    requires
        is_sorted_by_offset(s),
    ensures
        is_sorted_by_offset(insert_by_offset(s, w)),
        insert_by_offset(s, w).len() == s.len() + 1,
        forall|i: int| 0 <= i <= s.len() ==> (#[trigger] insert_by_offset(s, w)[i]).offset <= (
        if s.len() > 0 && s.last().offset > w.offset {
            s.last().offset
        } else {
            w.offset
        }),
        insert_by_offset(s, w).to_multiset() == s.to_multiset().insert(w),
    decreases s.len(),
{
    broadcast use vstd::seq_lib::group_to_multiset_ensures;

    if s.len() == 0 || s.last().offset <= w.offset {
    } else {
        let p = s.drop_last();
        lemma_insert_by_offset_sorted(p, w);
        let q = insert_by_offset(p, w);
        assert(s =~= p.push(s.last()));
        assert forall|i: int| 0 <= i < q.len() implies (#[trigger] q[i]).offset <= s.last().offset by {
            if p.len() > 0 {
                assert(p.last() == s[p.len() - 1]);
            }
        }
        assert(q.push(s.last()).to_multiset() =~= s.to_multiset().insert(w));
    }
}

/// The sorted sequence is in order and holds exactly the writes it was made of.
pub proof fn lemma_sorted_by_offset(s: Seq<Run>)
    ensures
        is_sorted_by_offset(sorted_by_offset(s)),
        sorted_by_offset(s).len() == s.len(),
        sorted_by_offset(s).to_multiset() == s.to_multiset(),
    decreases s.len(),
{
    broadcast use vstd::seq_lib::group_to_multiset_ensures;

    if s.len() > 0 {
        lemma_sorted_by_offset(s.drop_last());
        lemma_insert_by_offset_sorted(sorted_by_offset(s.drop_last()), s.last());
        assert(s =~= s.drop_last().push(s.last()));
    } else {
        assert(s =~= Seq::<Run>::empty());
    }
}

/// Inserting before larger offsets leaves the image alone where none of the
/// writes that end up behind overlaps the inserted one.
pub proof fn lemma_insert_by_offset_image(s: Seq<Run>, w: Run, pos: int)
    requires
        forall|i: int| 0 <= i < s.len() && (#[trigger] s[i]).offset > w.offset ==> !(s[i].covers(
            pos,
        ) && w.covers(pos)),
    ensures
        byte_at(insert_by_offset(s, w), pos) == byte_at(s.push(w), pos),
    decreases s.len(),
{
    if s.len() == 0 || s.last().offset <= w.offset {
    } else {
        let p = s.drop_last();
        assert forall|i: int| 0 <= i < p.len() && (#[trigger] p[i]).offset > w.offset implies !(
        p[i].covers(pos) && w.covers(pos)) by {
            assert(p[i] == s[i]);
        }
        lemma_insert_by_offset_image(p, w, pos);
        reveal_with_fuel(byte_at, 3);
        assert(insert_by_offset(p, w).push(s.last()).drop_last() =~= insert_by_offset(p, w));
        assert(p.push(w).drop_last() =~= p);
        assert(s.push(w).drop_last() =~= s);
        assert(s[s.len() - 1] == s.last());
    }
}

/// Every write that a sequence holds is also in the multiset of it, and so in
/// any sequence with the same multiset.
proof fn lemma_same_multiset_contains(a: Seq<Run>, b: Seq<Run>, i: int)
    requires
        a.to_multiset() == b.to_multiset(),
        0 <= i < a.len(),
    ensures
        exists|j: int| 0 <= j < b.len() && b[j] == a[i],
{
    broadcast use vstd::seq_lib::group_to_multiset_ensures;

    assert(a.contains(a[i]));
    assert(a.to_multiset().contains(a[i]));
    assert(b.contains(a[i]));
}

/// Sorting by offset changes no byte of the file, provided that of two writes
/// that overlap, the later one never has the smaller offset.
pub proof fn law_sort_keeps_image(s: Seq<Run>)
    requires
        forall|i: int, j: int, pos: int|
            0 <= i < j < s.len() && (#[trigger] s[i].covers(pos)) && (#[trigger] s[j].covers(pos))
                ==> s[i].offset <= s[j].offset,
    ensures
        same_image(sorted_by_offset(s), s),
    decreases s.len(),
{
    if s.len() > 0 {
        let p = s.drop_last();
        let w = s.last();
        assert forall|i: int, j: int, pos: int|
            0 <= i < j < p.len() && (#[trigger] p[i].covers(pos)) && (#[trigger] p[j].covers(
                pos,
            )) implies p[i].offset <= p[j].offset by {
            assert(s[i].covers(pos) && s[j].covers(pos));
        }
        law_sort_keeps_image(p);
        let q = sorted_by_offset(p);
        lemma_sorted_by_offset(p);
        assert forall|pos: int| byte_at(sorted_by_offset(s), pos) == byte_at(s, pos) by {
            assert forall|i: int| 0 <= i < q.len() && (#[trigger] q[i]).offset > w.offset implies !(
            q[i].covers(pos) && w.covers(pos)) by {
                lemma_same_multiset_contains(q, p, i);
                let j = choose|j: int| 0 <= j < p.len() && p[j] == q[i];
                assert(s[j] == q[i]);
                assert(s[s.len() - 1] == w);
                if s[j].covers(pos) && s[s.len() - 1].covers(pos) {
                    assert(s[j].offset <= s[s.len() - 1].offset);
                }
            }
            lemma_insert_by_offset_image(q, w, pos);
            lemma_byte_at_push(q, p, w, pos);
            assert(p.push(w) =~= s);
        }
    }
}

/// Joining leaves nothing to join: no run starts where the one before it ends.
pub proof fn law_coalesced_runs_do_not_touch(s: Seq<Run>, i: int)
    requires
        0 <= i,
        i + 1 < coalesce(s).len(),
    ensures
        coalesce(s)[i].end() != coalesce(s)[i + 1].offset,
    decreases s.len(),
{
    if s.len() > 0 {
        let before = coalesce(s.drop_last());
        if i + 1 < before.len() {
            law_coalesced_runs_do_not_touch(s.drop_last(), i);
        }
    }
}

} // verus!
