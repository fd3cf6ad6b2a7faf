use quicfs::client::cache::CacheConfig;
use quicfs::client::errno::{ENOENT, ESTALE};
use quicfs::client::fileops::{self, FileStep, FileWork};
use quicfs::client::fs::QuicFs;
use quicfs::client::fuse_ops::{
    dir_listing, fence_truncating_open, fuse_ttl_from_cache_ms, is_dir, listed_child,
    mode_to_file_type, ns_to_timestamp, setattr_fence, setattr_request, stat_answered,
    stat_cached, stat_fence, stat_to_file_attr, timestamp_to_ns, AttrChange, Fence, FileKind, StatNext,
};
use quicfs::client::writeback::{
    drain_next, flush_reply, live_or_stale, DrainNext, FlushAll, FlushError, FlushNext, FlushRun,
    Live, WriteBack, WriteBufConfig, WriteReply, DRAIN_ROUNDS, MAX_UNACKED_AGE_SECS,
};
use quicfs::common::stat::{DirEntry, Stat};
use quicfs::common::status::IoErrorKind;
use quicfs::time::Duration;

#[test]
fn flush_reply_never_silently_succeeds_on_failure() {
    // Clean flush, no sticky error -> success.
    assert_eq!(flush_reply(None, false), Ok(()));
    // Sticky error from an earlier (e.g. background) flush -> EIO, NOT ok.
    assert_eq!(flush_reply(None, true), Err(libc::EIO));
    // Direct flush failure -> that specific errno.
    assert_eq!(flush_reply(Some(libc::ENOENT), false), Err(libc::ENOENT));
    // Both: the direct (more specific) errno wins, still an error.
    assert_eq!(flush_reply(Some(libc::EACCES), true), Err(libc::EACCES));
}

fn stat(mode: u32, size: u64) -> Stat {
    Stat { mode, size, ..Stat::default() }
}

fn fs() -> QuicFs {
    QuicFs::new(CacheConfig::default(), Some(1000), None, "/", 0)
}

fn found(n: StatNext) -> Option<u64> {
    match n {
        StatNext::Found(s) => Some(s.size),
        _ => None,
    }
}

#[test]
fn attributes_are_cached_once_writes_are_out() {
    let mut f = fs();
    assert!(matches!(f.stat_begin("/a"), StatNext::Ask));
    // Bytes are still buffered: the answer is not kept.
    assert_eq!(f.stat_done("/a", false, Ok(stat(0o100644, 3))).unwrap().size, 3);
    assert!(matches!(f.stat_begin("/a"), StatNext::Ask));
    assert_eq!(f.stat_done("/a", true, Ok(stat(0o100644, 8))).unwrap().size, 8);
    assert_eq!(found(f.stat_begin("/a")), Some(8));
    // A missing path is remembered, another failure is not.
    assert_eq!(
        f.stat_done("/b", true, Err("server error: NotFound")).err(),
        Some(IoErrorKind::NotFound)
    );
    assert!(matches!(f.stat_begin("/b"), StatNext::Missing));
    assert_eq!(
        f.stat_done("/c", true, Err("RPC timed out")).err(),
        Some(IoErrorKind::Other)
    );
    assert!(matches!(f.stat_begin("/c"), StatNext::Ask));
    // A new connection empties the cache.
    f.check_reconnect(0);
    assert_eq!(found(f.stat_begin("/a")), Some(8));
    f.check_reconnect(1);
    assert!(matches!(f.stat_begin("/a"), StatNext::Ask));
    assert!(matches!(f.stat_begin("/b"), StatNext::Ask));
}

#[test]
fn changes_leave_nothing_stale() {
    let mut f = fs();
    assert_eq!(f.ttl().as_nanos(), 0);
    let d = f.make_file_attr("/d".into(), &stat(0o040755, 0));
    assert_eq!((d.ino, d.uid, d.gid), (2, 1000, 0));
    let path = f.mkdir_begin(1, "d").unwrap();
    assert_eq!(path, "/d");
    assert_eq!(f.made(path, &stat(0o040755, 0)).ino, 2);
    assert_eq!(found(f.stat_begin("/d")), Some(0));
    let file = f.child_of(2, "f").unwrap();
    assert_eq!(file, "/d/f");
    f.creating(2, &file);
    // Creating a file changes its directory.
    assert!(matches!(f.stat_begin("/d"), StatNext::Ask));
    let attr = f.made(file, &stat(0o100600, 1));
    assert_eq!((attr.ino, attr.perm, attr.kind), (3, 0o600, FileKind::RegularFile));
    f.writing(3);
    assert!(matches!(f.stat_begin("/d/f"), StatNext::Ask));
    f.writing(77);

    // Both names of a link have its attributes.
    let (src, link) = f.link_begin(3, 1, "l").unwrap();
    assert_eq!((src.as_str(), link.as_str()), ("/d/f", "/l"));
    let _ = f.stat_done("/l", true, Err("NotFound"));
    let two = Stat { nlink: 2, ..stat(0o100600, 4) };
    assert_eq!(f.linked(&src, link, &two).nlink, 2);
    assert_eq!(found(f.stat_begin("/l")), Some(4));
    assert_eq!(found(f.stat_begin("/d/f")), Some(4));

    // A renamed file keeps its number and is not hidden by what was cached.
    let (from, to) = f.rename_begin(2, "f", 1, "g").unwrap();
    let _ = f.stat_done("/g", true, Err("NotFound"));
    f.renamed(&from, to);
    assert!(matches!(f.stat_begin("/g"), StatNext::Ask));
    assert!(matches!(f.stat_begin("/d/f"), StatNext::Ask));
    assert_eq!(f.path_for(3).as_deref(), Some("/g"));

    let gone = f.remove_begin(1, "g").unwrap();
    f.removed(&gone);
    assert_eq!(f.path_for(3), None);
    let attr = f.setattr_done("/d".into(), &stat(0o040700, 0));
    assert_eq!((attr.ino, attr.perm), (2, 0o700));

    // Directories that are not known.
    assert_eq!(f.child_of(99, "x"), Err(ENOENT));
    assert_eq!(f.mkdir_begin(99, "x"), Err(ENOENT));
    assert_eq!(f.remove_begin(99, "x"), Err(ENOENT));
    assert_eq!(f.rename_begin(1, "x", 99, "y"), Err(ENOENT));
    assert_eq!(f.rename_begin(99, "x", 1, "y"), Err(ENOENT));
    assert_eq!(f.link_begin(99, 1, "y"), Err(ENOENT));
    assert_eq!(f.link_begin(2, 99, "y"), Err(ENOENT));
    assert_eq!(f.statfs_path(99), "/");
    assert_eq!(f.statfs_path(2), "/d");
    assert_eq!(f.number_of("/new".into()), 5);
}

#[test]
fn attributes_are_told_to_the_kernel() {
    let s = Stat {
        ino: 900,
        mode: 0o104755,
        nlink: 3,
        uid: 1,
        gid: 2,
        size: 10,
        atime: 1_500_000_001,
        mtime: -1,
        ctime: i64::MIN,
        blksz: 4096,
        blocks: 1,
    };
    let a = stat_to_file_attr(&s, 7, None, Some(5));
    assert_eq!((a.ino, a.size, a.blocks, a.nlink, a.blksize), (7, 10, 1, 3, 4096));
    assert_eq!((a.uid, a.gid, a.perm, a.rdev, a.flags), (1, 5, 0o4755, 0, 0));
    assert!(!a.atime.before_epoch && a.mtime.before_epoch);
    assert_eq!((a.atime.span.secs, a.atime.span.nanos), (1, 500_000_001));
    assert_eq!(a.mtime.span.as_nanos(), 1);
    assert_eq!(a.ctime.span.as_nanos(), 1u128 << 63);
    assert_eq!(a.crtime.span.as_nanos(), 1u128 << 63);
    assert_eq!(fuse_ttl_from_cache_ms(2000).as_nanos(), 0);
}

#[test]
fn times_survive_the_wire() {
    for ns in [0i64, 1, 1_700_000_000_123_456_789, i64::MAX] {
        assert_eq!(timestamp_to_ns(&ns_to_timestamp(ns)), ns);
    }
    assert_eq!(timestamp_to_ns(&ns_to_timestamp(-5)), 0);
    let mut t = ns_to_timestamp(i64::MAX);
    t.span = Duration { secs: 9_223_372_036, nanos: 854_775_808 };
    assert_eq!(timestamp_to_ns(&t), i64::MIN);
    t.span = Duration { secs: 18_446_744_073, nanos: 709_551_617 };
    assert_eq!(timestamp_to_ns(&t), 1);
}

#[test]
fn file_kinds_follow_the_mode() {
    for (mode, kind) in [
        (0o040755, FileKind::Directory),
        (0o100644, FileKind::RegularFile),
        (0o120777, FileKind::Symlink),
        (0o010644, FileKind::NamedPipe),
        (0o020644, FileKind::CharDevice),
        (0o060644, FileKind::BlockDevice),
        (0o140644, FileKind::Socket),
        (0o644, FileKind::RegularFile),
        (0o070000, FileKind::RegularFile),
    ] {
        assert_eq!(mode_to_file_type(mode), kind);
        assert_eq!(is_dir(&stat(mode, 0)), kind == FileKind::Directory);
    }
}

#[test]
fn cached_and_fresh_answers() {
    assert!(matches!(stat_cached(None), StatNext::Ask));
    assert!(matches!(stat_cached(Some(Ok(stat(0, 1)))), StatNext::Found(_)));
    assert!(matches!(stat_cached(Some(Err(()))), StatNext::Missing));
    assert!(matches!(stat_answered(true, Ok(stat(0, 1))), StatNext::FoundAndCache(_)));
    assert!(matches!(stat_answered(false, Ok(stat(0, 1))), StatNext::Found(_)));
    assert!(matches!(stat_answered(false, Err("x NotFound y")), StatNext::MissingAndCache));
    assert!(matches!(stat_answered(true, Err("Stale")), StatNext::Failed));
}

#[test]
fn truncation_waits_for_buffered_writes() {
    let none = AttrChange { mode: None, uid: None, gid: None, size: None, atime: None, mtime: None };
    let cut = AttrChange { size: Some(0), ..none };
    assert_eq!(setattr_fence(&none, Some(3)), Fence::Nothing);
    assert_eq!(setattr_fence(&cut, Some(3)), Fence::File(3));
    assert_eq!(setattr_fence(&cut, None), Fence::Everything);
    assert_eq!(fence_truncating_open(libc::O_TRUNC as u32, 1), Fence::Everything);
    assert_eq!(fence_truncating_open(libc::O_TRUNC as u32, 0), Fence::Nothing);
    assert_eq!(fence_truncating_open(libc::O_RDWR as u32, 1), Fence::Nothing);
    assert_eq!(stat_fence(1), Fence::Everything);
    assert_eq!(stat_fence(0), Fence::Nothing);
}

#[test]
fn changes_name_their_attributes() {
    let c = AttrChange {
        mode: Some(0o640),
        uid: None,
        gid: Some(7),
        size: Some(9),
        atime: None,
        mtime: Some(-3),
    };
    let r = setattr_request(4, "/p", &c);
    assert_eq!((r.seq, r.path.as_str(), r.valid), (4, "/p", 0x1 | 0x4 | 0x8 | 0x20));
    assert_eq!((r.mode, r.uid, r.gid, r.size), (0o640, 0, 7, 9));
    assert_eq!((r.atime, r.mtime), (0, -3));
}

#[test]
fn listings_go_on_where_they_stopped() {
    let entries: Vec<DirEntry> = ["a", "b", "c"]
        .iter()
        .map(|n| DirEntry { name: n.to_string(), ino: 1, mode: 0o040755 })
        .collect();
    let all = dir_listing("/d/", &entries, 0);
    assert_eq!(all.len(), 3);
    assert_eq!((all[0].path.as_str(), all[0].next_offset, all[0].name.as_str()), ("/d/a", 1, "a"));
    assert_eq!(all[2].kind, FileKind::Directory);
    let rest = dir_listing("/d/", &entries, 2);
    assert_eq!(rest.len(), 1);
    assert_eq!((rest[0].path.as_str(), rest[0].next_offset), ("/d/c", 3));
    assert!(dir_listing("/d/", &entries, 3).is_empty());
    assert!(dir_listing("/d/", &entries, u64::MAX).is_empty());
    assert_eq!(listed_child("/", "x"), "/x");
}

// ── buffered writes and reconnects ───────────────────────────────────────────

fn wb() -> WriteBack {
    WriteBack::new(&WriteBufConfig { max_per_handle_bytes: 100, max_total_bytes: 1000, window_ms: 0 })
}

fn send(n: FlushNext) -> (u64, usize, Vec<(u64, Vec<u8>)>) {
    match n {
        FlushNext::Send { handle, batch } => (handle, batch.sent_count, batch.chunks),
        _ => panic!("a batch is due"),
    }
}

const O_APPEND: u32 = libc::O_APPEND as u32;

#[test]
fn files_keep_their_number_over_a_reconnect() {
    let mut w = wb();
    let rw = (libc::O_RDWR | libc::O_CREAT | libc::O_EXCL | libc::O_TRUNC) as u32;
    let a = w.register_open("/a".into(), rw, 500, 0);
    let b = w.register_open("/b".into(), O_APPEND | 1, 501, 0);
    assert_eq!((a, b), (1, 2));
    assert!(matches!(w.live(a, 0, true), Live::Ready(500)));
    assert!(matches!(w.live(9, 0, true), Live::Unknown));
    assert!(matches!(w.live(a, 1, false), Live::Stale));
    match w.live(a, 1, true) {
        Live::Reopen { path, flags, is_append } => {
            assert_eq!((path.as_str(), flags, is_append), ("/a", libc::O_RDWR as u32, false));
        }
        _ => panic!("an old handle is renewed"),
    }
    assert_eq!(w.reopened(a, 1, 600, false), 0);
    assert!(matches!(w.live(a, 1, true), Live::Ready(600)));
    // Appends are not repeated.
    w.write(b, 0, vec![1, 2, 3]);
    match w.live(b, 1, true) {
        Live::Reopen { flags, is_append, .. } => assert!(is_append && flags == O_APPEND | 1),
        _ => panic!("an old handle is renewed"),
    }
    assert_eq!(w.reopened(b, 1, 601, true), 3);
    assert!(!w.has_buffered(b));
    assert!(w.take_error(b), "lost bytes are reported");
    assert!(!w.take_error(b), "once");
    assert_eq!(w.release(a), Some(600));
    assert_eq!(w.release(a), None);
    assert!(matches!(w.live(a, 1, true), Live::Unknown));
}

#[test]
fn delivered_bytes_leave_the_buffer() {
    let mut w = wb();
    let a = w.register_open("/a".into(), 2, 500, 0);
    assert_eq!(w.write(a, 0, vec![1; 10]), WriteReply::Accepted);
    let mut run = FlushRun::new(a, true);
    let (to, n, chunks) = send(w.flush_resolved(&run, Some(500)));
    assert_eq!((to, n, chunks), (500, 1, vec![(0, vec![1; 10])]));
    // A second flusher has nothing to do meanwhile.
    let other = FlushRun::new(a, true);
    assert!(matches!(w.flush_resolved(&other, Some(500)), FlushNext::Finished(Ok(()))));
    assert!(matches!(
        w.flush_sent(&mut run, n, true, 0, 0),
        FlushNext::Finished(Ok(()))
    ));
    assert_eq!(w.total_bytes(), 0);
    assert!(matches!(w.flush_resolved(&other, None), FlushNext::Finished(Ok(()))));
}

#[test]
fn undelivered_bytes_are_kept_and_sent_again() {
    let mut w = wb();
    let a = w.register_open("/a".into(), 2, 500, 0);
    w.write(a, 0, vec![1; 10]);
    // The file cannot be reached.
    let run = FlushRun::new(a, true);
    assert!(matches!(
        w.flush_resolved(&run, None),
        FlushNext::Finished(Err(FlushError::NotLive))
    ));
    assert_eq!(w.total_bytes(), 10);
    // The connection was renewed while sending: once more.
    let mut run = FlushRun::new(a, true);
    let (_, n, first) = send(w.flush_resolved(&run, Some(500)));
    assert!(matches!(w.flush_sent(&mut run, n, false, 0, 1), FlushNext::Resolve));
    let (to, n, again) = send(w.flush_resolved(&run, Some(600)));
    assert_eq!((to, again), (600, first));
    // And only once.
    assert!(matches!(
        w.flush_sent(&mut run, n, false, 1, 2),
        FlushNext::Finished(Err(FlushError::SendFailed))
    ));
    assert_eq!(w.total_bytes(), 10);
    assert!(!w.take_error(a), "nothing was lost");
    // Without a new connection, or in the background, not at all.
    for (reopen, gen) in [(true, 0), (false, 1)] {
        let mut run = FlushRun::new(a, reopen);
        let (_, n, _) = send(w.flush_resolved(&run, Some(600)));
        assert!(matches!(
            w.flush_sent(&mut run, n, false, 0, gen),
            FlushNext::Finished(Err(FlushError::SendFailed))
        ));
    }
    assert_eq!(w.handles(), vec![a]);
}

#[test]
fn undelivered_appends_are_given_up() {
    let mut w = wb();
    let a = w.register_open("/a".into(), O_APPEND | 1, 500, 0);
    w.write(a, 0, vec![1; 10]);
    let mut run = FlushRun::new(a, true);
    let (_, n, _) = send(w.flush_resolved(&run, Some(500)));
    assert!(matches!(
        w.flush_sent(&mut run, n, false, 0, 1),
        FlushNext::Finished(Err(FlushError::SendFailed))
    ));
    assert_eq!(w.total_bytes(), 0);
    assert_eq!(flush_reply(None, w.take_error(a)), Err(libc::EIO));
}

#[test]
fn full_buffers_are_reported() {
    let mut w = WriteBack::new(&WriteBufConfig {
        max_per_handle_bytes: 10,
        max_total_bytes: 15,
        window_ms: 0,
    });
    let a = w.register_open("/a".into(), 2, 1, 0);
    let b = w.register_open("/b".into(), 2, 2, 0);
    assert_eq!(w.write(a, 0, vec![0; 9]), WriteReply::Accepted);
    assert_eq!(w.write(b, 0, vec![0; 8]), WriteReply::FlushFirst(a));
    assert_eq!(w.write(b, 8, vec![0; 8]), WriteReply::FlushFirst(b));
    assert_eq!(w.write(b, 16, vec![0; 6]), WriteReply::Failed);
    assert_eq!(w.total_bytes(), 25);
    assert!(w.take_error(b));
    assert!(!w.take_error(a));
    let mut expired = w.expired_handles();
    expired.sort();
    assert_eq!(expired, vec![a, b]);
}

#[test]
fn old_bytes_are_given_up_and_reported() {
    let mut w = wb();
    let a = w.register_open("/a".into(), 2, 1, 0);
    let b = w.register_open("/b".into(), 2, 2, 0);
    w.write(a, 0, vec![0; 4]);
    w.write(a, 4, vec![0; 3]);
    w.write(b, 0, vec![]);
    assert!(w.reclaim(Duration::from_secs(MAX_UNACKED_AGE_SECS)).is_empty());
    assert_eq!(w.total_bytes(), 7);
    assert_eq!(w.reclaim(Duration::from_secs(0)), vec![(a, 7)]);
    assert_eq!(w.total_bytes(), 0);
    assert!(w.take_error(a) && !w.take_error(b));
    w.write(a, 0, vec![0; 5]);
    assert_eq!(w.give_up(vec![b, a]), vec![(a, 5)]);
    assert_eq!(MAX_UNACKED_AGE_SECS, 120);
}

#[test]
fn closing_waits_for_an_empty_buffer() {
    assert_eq!(drain_next(5, true, false), DrainNext::Drained);
    assert_eq!(drain_next(5, true, true), DrainNext::Again);
    assert_eq!(drain_next(0, true, true), DrainNext::GaveUp);
    assert_eq!(drain_next(5, false, false), DrainNext::Failed);
    assert_eq!(DRAIN_ROUNDS, 500);
    assert_eq!(live_or_stale(Some(4)), Ok(4));
    assert_eq!(live_or_stale(None), Err(ESTALE));
}

#[test]
fn requests_on_files_flush_first() {
    let read = FileWork::Read { offset: 5, size: 9 };
    let sync = FileWork::Fsync { datasync: true };
    assert_eq!(fileops::begin(7, read), FileStep::Flush(7));
    for work in [sync, FileWork::Close, FileWork::Release] {
        assert_eq!(fileops::begin(7, work), FileStep::Drain(7));
    }
    let mut w = wb();
    let a = w.register_open("/a".into(), 2, 500, 0);
    assert_eq!(fileops::flushed(&mut w, a, read, None), FileStep::Resolve(a));
    assert_eq!(fileops::flushed(&mut w, a, read, Some(5)), FileStep::Reply(Err(5)));
    assert_eq!(fileops::resolved(read, Some(500)), FileStep::Read { handle: 500, offset: 5, size: 9 });
    assert_eq!(fileops::resolved(read, None), FileStep::Reply(Err(ESTALE)));
    assert_eq!(fileops::resolved(sync, Some(500)), FileStep::Fsync { handle: 500, datasync: true });
    // Lost bytes are reported once, by the first close or sync.
    for work in [sync, FileWork::Close] {
        w.write(a, 0, vec![1]);
        assert_eq!(w.give_up(vec![a]), vec![(a, 1)]);
        assert_eq!(fileops::flushed(&mut w, a, read, None), FileStep::Resolve(a));
        assert_eq!(fileops::flushed(&mut w, a, work, None), FileStep::Reply(Err(libc::EIO)));
    }
    assert_eq!(fileops::flushed(&mut w, a, FileWork::Close, None), FileStep::Reply(Ok(())));
    assert_eq!(fileops::flushed(&mut w, a, FileWork::Close, Some(28)), FileStep::Reply(Err(28)));
    assert_eq!(fileops::flushed(&mut w, a, sync, None), FileStep::Resolve(a));
    // A release gives the handle back whatever happened.
    w.write(a, 0, vec![1]);
    assert_eq!(fileops::flushed(&mut w, a, FileWork::Release, Some(5)), FileStep::Release(500));
    assert_eq!(w.total_bytes(), 0);
    assert_eq!(
        fileops::flushed(&mut w, a, FileWork::Release, None),
        FileStep::Reply(Ok(()))
    );
}

#[test]
fn flushing_all_files_tries_each() {
    let mut all = FlushAll::new(vec![1, 2, 3]);
    let mut seen = vec![];
    while let Some(fh) = all.next() {
        seen.push(fh);
        all.flushed(if fh == 3 { None } else { Some(fh as i32) });
    }
    seen.sort();
    assert_eq!(seen, vec![1, 2, 3]);
    assert_eq!(all.finish(), Err(2));
    assert_eq!(FlushAll::new(vec![]).finish(), Ok(()));
}
