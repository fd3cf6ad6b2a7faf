use quicfs::client::writebuf::{PushDecision, WriteBuffer};
use quicfs::time::Duration;

fn drain_via_flush(wb: &mut WriteBuffer, h: u64) -> Vec<(u64, Vec<u8>)> {
    match wb.begin_flush(h) {
        Some(b) => {
            wb.ack_flush(h, b.sent_count);
            b.chunks
        }
        None => vec![],
    }
}

#[test]
fn small_writes_buffer_then_flush_on_per_handle_limit() {
    let mut wb = WriteBuffer::new(100, 1000, 60_000);
    assert_eq!(wb.push(1, 0, vec![0u8; 40]), PushDecision::Buffered);
    assert_eq!(wb.push(1, 40, vec![0u8; 40]), PushDecision::Buffered);
    assert_eq!(wb.total_bytes(), 80);
    assert_eq!(wb.push(1, 80, vec![0u8; 40]), PushDecision::FlushThis(1));
}

#[test]
fn global_limit_evicts_the_largest_handle() {
    let mut wb = WriteBuffer::new(10_000, 100, 60_000);
    assert_eq!(wb.push(1, 0, vec![0u8; 70]), PushDecision::Buffered);
    assert_eq!(wb.push(2, 0, vec![0u8; 40]), PushDecision::FlushOther(1));
}

#[test]
fn hard_cap_rejects_without_enqueuing() {
    // soft total 100, hard total = 200.
    let mut wb = WriteBuffer::new(10_000, 100, 60_000);
    assert_eq!(wb.push(1, 0, vec![0u8; 150]), PushDecision::FlushOther(1));
    // total is 150; another 100 would be 250 > 200 hard cap -> reject, not buffered.
    assert_eq!(wb.push(1, 150, vec![0u8; 100]), PushDecision::Reject);
    assert_eq!(wb.total_bytes(), 150, "rejected chunk must not be buffered");
}

#[test]
fn hard_cap_is_reached_exactly() {
    let mut wb = WriteBuffer::new(10_000, 100, 60_000);
    assert_eq!(wb.hard_total_bytes, 200);
    assert_eq!(wb.push(1, 0, vec![0u8; 200]), PushDecision::FlushOther(1));
    assert_eq!(wb.push(1, 200, vec![0u8; 1]), PushDecision::Reject);
    assert_eq!(wb.push(1, 200, vec![]), PushDecision::FlushOther(1));
    assert_eq!(wb.total_bytes(), 200);
}

#[test]
fn hard_cap_saturates() {
    let wb = WriteBuffer::new(1, usize::MAX, 0);
    assert_eq!(wb.hard_total_bytes, usize::MAX);
}

#[test]
fn keep_until_ack_then_remove() {
    let mut wb = WriteBuffer::new(10_000, 100_000, 60_000);
    wb.push(7, 0, vec![1u8; 10]);
    let b = wb.begin_flush(7).expect("has data");
    // Still buffered until ack.
    assert_eq!(wb.total_bytes(), 10);
    // A second begin_flush is refused while sending.
    assert!(wb.begin_flush(7).is_none(), "single sender per handle");
    wb.ack_flush(7, b.sent_count);
    assert_eq!(wb.total_bytes(), 0, "ack removes the snapshot");
    assert!(wb.begin_flush(7).is_none(), "nothing left");
}

#[test]
fn failed_flush_keeps_chunks_for_retry() {
    let mut wb = WriteBuffer::new(10_000, 100_000, 60_000);
    wb.push(3, 0, vec![9u8; 20]);
    let _ = wb.begin_flush(3).unwrap();
    wb.fail_flush(3);
    assert_eq!(wb.total_bytes(), 20, "failed flush retains data");
    // Retry: begin_flush works again and re-sends the same chunk.
    let b = wb.begin_flush(3).expect("retry");
    assert_eq!(b.chunks.len(), 1);
    assert_eq!(b.chunks[0], (0, vec![9u8; 20]));
}

#[test]
fn ack_keeps_chunks_pushed_during_send() {
    let mut wb = WriteBuffer::new(10_000, 100_000, 60_000);
    wb.push(1, 0, vec![0u8; 10]);
    let b = wb.begin_flush(1).unwrap();
    // A write lands while the flush is in flight.
    // (sending is set, but push does not consult it.)
    wb.fail_flush(1); // clear sending so push path is normal; then re-add
    wb.push(1, 10, vec![0u8; 10]);
    // Ack only the original snapshot (sent_count = 1 chunk).
    wb.ack_flush(1, b.sent_count);
    assert_eq!(wb.total_bytes(), 10, "the later push survives the ack");
}

#[test]
fn push_while_sending_survives_the_ack() {
    let mut wb = WriteBuffer::new(10_000, 100_000, 60_000);
    wb.push(1, 0, vec![1u8; 10]);
    let b = wb.begin_flush(1).unwrap();
    wb.push(1, 50, vec![2u8; 5]);
    wb.push(2, 0, vec![3u8; 7]);
    wb.ack_flush(1, b.sent_count);
    assert_eq!(wb.total_bytes(), 12);
    assert_eq!(drain_via_flush(&mut wb, 1), vec![(50, vec![2u8; 5])]);
    assert!(wb.has_buffered(2));
}

#[test]
fn drain_sorts_and_coalesces() {
    let mut wb = WriteBuffer::new(10_000, 100_000, 60_000);
    wb.push(1, 10, vec![b'b'; 10]);
    wb.push(1, 0, vec![b'a'; 10]);
    wb.push(1, 20, vec![b'c'; 10]);
    wb.push(1, 100, vec![b'd'; 10]);
    let chunks = drain_via_flush(&mut wb, 1);
    assert_eq!(chunks.len(), 2, "0..30 coalesces, gap stays separate");
    assert_eq!(chunks[0].0, 0);
    assert_eq!(chunks[0].1.len(), 30);
    assert_eq!(chunks[1].0, 100);
    assert_eq!(wb.total_bytes(), 0);
}

#[test]
fn chunks_at_one_offset_keep_their_order() {
    let mut wb = WriteBuffer::new(10_000, 100_000, 60_000);
    wb.push(1, 8, vec![1]);
    wb.push(1, 4, vec![2]);
    wb.push(1, 4, vec![3]);
    wb.push(1, 4, vec![4]);
    let chunks = drain_via_flush(&mut wb, 1);
    assert_eq!(
        chunks,
        vec![(4, vec![2]), (4, vec![3]), (4, vec![4]), (8, vec![1])]
    );
}

#[test]
fn chunk_at_the_end_of_the_offset_range_is_not_joined() {
    let mut wb = WriteBuffer::new(10_000, 100_000, 60_000);
    wb.push(1, u64::MAX, vec![1, 2]);
    wb.push(1, 1, vec![9]);
    assert_eq!(
        drain_via_flush(&mut wb, 1),
        vec![(1, vec![9]), (u64::MAX, vec![1, 2])]
    );
}

#[test]
fn drop_handle_frees_and_reports_bytes() {
    let mut wb = WriteBuffer::new(10_000, 100_000, 60_000);
    wb.push(5, 0, vec![0u8; 30]);
    wb.push(5, 30, vec![0u8; 20]);
    assert_eq!(wb.drop_handle(5), 50);
    assert_eq!(wb.total_bytes(), 0);
    assert_eq!(wb.drop_handle(5), 0, "second drop is a no-op");
}

#[test]
fn age_query_reports_old_handles() {
    let mut wb = WriteBuffer::new(10_000, 100_000, 0);
    assert!(wb.older_than(Duration::from_secs(0)).is_empty());
    wb.push(3, 0, vec![0u8; 8]);
    assert_eq!(wb.older_than(Duration::from_secs(0)), vec![3]);
    assert!(wb.older_than(Duration::from_secs(3600)).is_empty());
    assert_eq!(wb.expired_handles(), vec![3]);
}

#[test]
fn age_counts_from_the_oldest_chunk() {
    let mut wb = WriteBuffer::new(10_000, 100_000, 0);
    wb.push_at(1, 0, vec![0], Duration::from_millis(100));
    wb.push_at(1, 1, vec![0], Duration::from_millis(900));
    wb.push_at(2, 0, vec![0], Duration::from_millis(600));
    let window = Duration::from_millis(500);
    assert!(wb.older_than_at(window, Duration::from_millis(599)).is_empty());
    assert_eq!(wb.older_than_at(window, Duration::from_millis(600)), vec![1]);
    let mut both = wb.older_than_at(window, Duration::from_millis(1100));
    both.sort();
    assert_eq!(both, vec![1, 2]);
    // A reading before the chunk came in counts as no age.
    assert_eq!(wb.older_than_at(Duration::from_secs(0), Duration::from_millis(0)).len(), 2);
}

#[test]
fn handles_are_listed_once() {
    let mut wb = WriteBuffer::new(10_000, 100_000, 60_000);
    for h in [4u64, 2, 9] {
        wb.push(h, 0, vec![0; 3]);
        wb.push(h, 3, vec![0; 3]);
    }
    let mut hs = wb.handles();
    hs.sort();
    assert_eq!(hs, vec![2, 4, 9]);
    assert!(!wb.has_buffered(5));
}

fn apply(file: &mut Vec<u8>, writes: &[(u64, Vec<u8>)]) {
    for (off, data) in writes {
        let end = *off as usize + data.len();
        if file.len() < end {
            file.resize(end, 0);
        }
        file[*off as usize..end].copy_from_slice(data);
    }
}

#[test]
fn batch_leaves_the_file_of_the_pushed_writes() {
    let pushed: Vec<(u64, Vec<u8>)> = vec![
        (20, vec![1; 10]),
        (0, vec![2; 10]),
        (5, vec![3; 10]),
        (10, vec![4; 4]),
        (60, vec![5; 2]),
    ];
    let mut wb = WriteBuffer::new(10_000, 100_000, 60_000);
    for (off, data) in &pushed {
        wb.push(1, *off, data.clone());
    }
    let batch = drain_via_flush(&mut wb, 1);
    let (mut a, mut b) = (Vec::new(), Vec::new());
    apply(&mut a, &pushed);
    apply(&mut b, &batch);
    assert_eq!(a, b);
    // Sending the batch again after any part of it was written changes nothing.
    for k in 0..=batch.len() {
        let mut c = Vec::new();
        apply(&mut c, &batch[..k]);
        apply(&mut c, &batch);
        assert_eq!(c, b);
    }
}
