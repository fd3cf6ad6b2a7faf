use quicfs::common::frames::{
    CreateRequest, FsyncRequest, GetAttrRequest, HandshakeRequest, LinkRequest, MkDirRequest,
    OpenRequest, PathRequest, PingRequest, ReadDirRequest, ReadRequest, ReleaseRequest,
    RenameRequest, SetAttrRequest, SymlinkRequest, WriteRequest, OP_RMDIR, OP_UNLINK,
};
use quicfs::common::stat::{DirEntry, Stat, StatFs};
use quicfs::common::status::{IoErrorKind, Status};
use quicfs::server::handles::TooManyHandles;
use quicfs::server::ops::ctrl::{
    check_handshake_op, handle_handshake, handle_ping, negotiate, supported_features,
    HandshakeError, MAX_CHUNK_SIZE,
};
use quicfs::server::ops::data::{
    create_begin, create_bits, create_reply, fsync_begin, fsync_reply, read_begin, write_begin, SyncKind,
    CHUNK, MAX_READ_REQUEST,
};
use quicfs::server::ops::durability::{sync_after, sync_after_rename, sync_parent_dir};
use quicfs::server::ops::meta::{
    getattr_begin, getattr_reply, link_begin, link_reply, metadata_to_stat, mkdir_begin,
    mkdir_reply, ns_to_timespec, open_begin, open_reply, page_of, query_statfs, readdir_begin,
    readdir_reply, readlink_begin, readlink_reply, reference_how, release_reply, rename_begin,
    rename_reply, rmdir_begin, rmdir_reply, setattr_begin, statfs_begin, statfs_reply,
    symlink_begin, symlink_reply, sync_on_release, truncate_how, unlink_begin, unlink_reply,
    DirPage, FileMeta, SetAttrNext, SetAttrStep, TimeSpec, MAX_DIR_ENTRIES,
    MAX_SYMLINK_TARGET_LEN,
};
use quicfs::server::sanitize::{Access, PathFacts};
use quicfs::time::Duration;

const ROOT: &str = "/quicfs-test-export-root";

fn absent() -> PathFacts {
    PathFacts::absent()
}

fn handshake() -> HandshakeRequest {
    HandshakeRequest {
        op: 0xF0,
        seq: 4,
        version: 1,
        client_id: "c".into(),
        features: vec!["xattr".into()],
        chunk_size: 1024,
        auth_type: "mtls".into(),
    }
}

#[test]
fn handshakes_are_answered() {
    let req = handshake();
    let (r, id) = handle_handshake(&req, Some("SHA256:k"), "/srv/data", "sid");
    assert_eq!(id.unwrap().subject, "SHA256:k");
    assert_eq!((r.op, r.seq, r.status, r.version, r.chunk_size), (0xF0, 4, 0, 1, 1024));
    assert!(r.features.is_empty());
    assert_eq!((r.server_id.as_str(), r.export_root.as_str()), ("sid", "data"));
    let (r, id) = handle_handshake(&req, None, "/", "sid");
    assert_eq!(id.unwrap().subject, "unknown");
    assert_eq!(r.export_root, "export");
    assert_eq!(check_handshake_op(0xF0), Ok(()));
    assert_eq!(check_handshake_op(0x01), Err(HandshakeError::NotAHandshake(0x01)));
}

#[test]
fn handshakes_are_refused() {
    let mut req = handshake();
    req.chunk_size = MAX_CHUNK_SIZE;
    assert!(handle_handshake(&req, None, "/", "sid").1.is_ok());
    req.chunk_size += 1;
    let (r, id) = handle_handshake(&req, Some("fp"), "/srv", "sid");
    assert_eq!(id.err(), Some(HandshakeError::ChunkTooLarge(MAX_CHUNK_SIZE + 1)));
    assert_eq!((r.status, r.chunk_size), (Status::InvalidArg.code(), 0));
    assert!(r.server_id.is_empty() && r.export_root.is_empty());
    let mut req = handshake();
    req.auth_type = "token".into();
    let (r, id) = handle_handshake(&req, Some("fp"), "/srv", "sid");
    assert_eq!(id.err(), Some(HandshakeError::UnsupportedAuth));
    assert_eq!(r.status, Status::Permission.code());
}

#[test]
fn features_are_those_of_both_sides() {
    let v = |a: &[&str]| -> Vec<String> { a.iter().map(|s| s.to_string()).collect() };
    assert!(supported_features().is_empty());
    assert_eq!(negotiate(&v(&["c", "a", "x", "a"]), &v(&["a", "b", "c"])), v(&["c", "a", "a"]));
    let p = handle_ping(&PingRequest { op: 0xF1, seq: 8 });
    assert_eq!((p.seq, p.status), (8, 0));
}

// ── read and write ───────────────────────────────────────────────────────────

fn read_all(file: &[u8], offset: u64, length: u32, step: usize) -> Vec<(u64, usize, bool)> {
    let req = ReadRequest { op: 0x20, seq: 3, handle: 1, offset, length };
    let mut run = read_begin(&req, true).unwrap();
    let mut frames = vec![];
    while let Some(want) = run.want() {
        let from = (run.offset as usize).min(file.len());
        let to = (from + want.min(step)).min(file.len());
        let f = run.got(file[from..to].to_vec());
        assert_eq!((f.seq, f.status), (3, 0));
        frames.push((f.offset, f.data.len(), f.eof));
    }
    frames
}

#[test]
fn reads_end_with_a_marked_frame() {
    let file = vec![7u8; 10];
    assert_eq!(read_all(&file, 2, 5, 100), vec![(2, 5, true)]);
    // The file ends first.
    assert_eq!(read_all(&file, 8, 5, 100), vec![(8, 2, false), (10, 0, true)]);
    assert_eq!(read_all(&file, 50, 5, 100), vec![(50, 0, true)]);
    // Short reads go on.
    assert_eq!(read_all(&file, 0, 5, 2), vec![(0, 2, false), (2, 2, false), (4, 1, true)]);
    // A read of nothing is answered by one empty frame.
    assert_eq!(read_all(&file, 4, 0, 100), vec![(4, 0, true)]);
    assert_eq!(read_all(&file, 40, 0, 100), vec![(40, 0, true)]);
    let big = vec![1u8; CHUNK + 5];
    assert_eq!(
        read_all(&big, 0, (CHUNK + 5) as u32, usize::MAX),
        vec![(0, CHUNK, false), (CHUNK as u64, 5, true)]
    );
}

#[test]
fn reads_are_refused() {
    let req = |length| ReadRequest { op: 0x20, seq: 3, handle: 1, offset: 9, length };
    let r = read_begin(&req(MAX_READ_REQUEST + 1), true).unwrap_err();
    assert_eq!((r.seq, r.status, r.offset, r.eof), (3, Status::InvalidArg.code(), 9, true));
    let r = read_begin(&req(1), false).unwrap_err();
    assert_eq!((r.status, r.eof), (Status::Stale.code(), true));
    let run = read_begin(&req(MAX_READ_REQUEST), true).unwrap();
    let r = run.failed(IoErrorKind::PermissionDenied);
    assert_eq!((r.status, r.offset, r.eof), (Status::Permission.code(), 9, true));
    assert!(r.data.is_empty());
}

fn frame(offset: u64, len: usize, done: bool) -> WriteRequest {
    WriteRequest { op: 0x21, seq: 6, handle: 1, offset, data: vec![0; len], done }
}

#[test]
fn writes_count_their_bytes() {
    let r = write_begin(&frame(0, 1, true), None).unwrap_err();
    assert_eq!((r.seq, r.status, r.written), (6, Status::Stale.code(), 0));
    let mut run = write_begin(&frame(5, 3, false), Some(2)).unwrap();
    assert!(!run.done);
    assert_eq!(run.position(&frame(5, 3, false)), Some(5));
    run.wrote(&frame(5, 3, false));
    assert!(!run.done);
    run.wrote(&frame(8, 4, true));
    assert!(run.done);
    let r = run.finish();
    assert_eq!((r.seq, r.status, r.written), (6, 0, 7));
    let r = run.failed(IoErrorKind::Other);
    assert_eq!((r.status, r.written), (Status::Io.code(), 7));
    // An append handle ignores the offset.
    let run = write_begin(&frame(5, 3, true), Some(0x401)).unwrap();
    assert_eq!(run.position(&frame(5, 3, true)), None);
    // The count does not wrap.
    let mut run = write_begin(&frame(0, 1, true), Some(2)).unwrap();
    run.total = u64::MAX - 1;
    run.wrote(&frame(0, 5, true));
    assert_eq!(run.finish().written, u64::MAX);
}

// ── open, create, release, fsync ─────────────────────────────────────────────

#[test]
fn creates_are_confined() {
    let req = |path: &str, flags| CreateRequest {
        op: 0x22,
        seq: 2,
        path: path.into(),
        flags,
        mode: 0o104_777,
    };
    let (p, how) = create_begin(&req("/a/b", 0x80 | 0x200), ROOT, &absent()).unwrap();
    assert_eq!(p, format!("{ROOT}/a/b"));
    assert!(how.create && how.exclusive && how.truncate && !how.append && how.no_follow);
    assert_eq!((how.access, how.mode), (Access::ReadWrite, 0o777));
    assert_eq!(create_bits(&req("/a/b", 0)), 0o777);
    assert_eq!(create_bits(&CreateRequest { mode: 0o7640, ..req("/a", 0) }), 0o640);
    let (_, how) = create_begin(&req("/a", 0x400), ROOT, &absent()).unwrap();
    assert!(!how.exclusive && !how.truncate && how.append);
    let r = create_begin(&req("/../a", 0), ROOT, &absent()).unwrap_err();
    assert_eq!((r.seq, r.status, r.handle), (2, Status::Permission.code(), 0));

    let stat = Stat { size: 1, ..Stat::default() };
    let (r, sync) = create_reply(&req("/a", 0), Ok((Some(stat), Ok(44))));
    assert_eq!((r.status, r.handle, r.stat.unwrap().size, sync), (0, 44, 1, true));
    let full = Ok((Some(stat), Err(TooManyHandles { limit: 1 })));
    let (r, sync) = create_reply(&req("/a", 0), full);
    assert_eq!((r.status, r.handle, r.stat.is_none(), sync), (Status::NoSpace.code(), 0, true, false));
    let (r, sync) = create_reply(&req("/a", 0), Err(IoErrorKind::AlreadyExists));
    assert_eq!((r.status, sync), (Status::Exists.code(), false));
}

#[test]
fn opens_keep_access_and_append() {
    let req = |flags| OpenRequest { op: 0x10, seq: 2, path: "/a".into(), flags };
    for (flags, access) in [
        (0, Access::ReadOnly),
        (1, Access::WriteOnly),
        (2, Access::ReadWrite),
        (3, Access::ReadOnly),
    ] {
        let (p, how) = open_begin(&req(flags | 0x240), ROOT, &absent()).unwrap();
        assert_eq!((p.as_str(), how.access), ("/quicfs-test-export-root/a", access));
        assert!(!how.create && !how.truncate && !how.append && !how.no_follow);
    }
    assert!(open_begin(&req(0x401), ROOT, &absent()).unwrap().1.append);
    let outside = PathFacts {
        symlinks: vec![],
        canonical: Some(("/etc/passwd".into(), ROOT.into())),
    };
    let r = open_begin(&req(0), ROOT, &outside).unwrap_err();
    assert_eq!((r.status, r.handle), (Status::Permission.code(), 0));
    let r = open_reply(&req(0), Ok((None, Ok(5))));
    assert_eq!((r.status, r.handle), (0, 5));
    let r = open_reply(&req(0), Ok((None, Err(TooManyHandles { limit: 1 }))));
    assert_eq!(r.status, Status::NoSpace.code());
    let r = open_reply(&req(0), Err(IoErrorKind::NotFound));
    assert_eq!((r.status, r.handle), (Status::NotFound.code(), 0));
}

#[test]
fn releases_sync_on_request() {
    assert!(sync_on_release(true, true));
    assert!(!sync_on_release(true, false));
    assert!(!sync_on_release(false, true));
    let req = ReleaseRequest { op: 0x11, seq: 2, handle: 5 };
    assert_eq!(release_reply(&req, None).status, 0);
    assert_eq!(release_reply(&req, Some(Ok(()))).status, 0);
    assert_eq!(release_reply(&req, Some(Err(IoErrorKind::Other))).status, Status::Io.code());
    let req = |datasync| FsyncRequest { op: 0x23, seq: 2, handle: 5, datasync };
    assert!(matches!(fsync_begin(&req(true), true), Ok(SyncKind::DataOnly)));
    assert!(matches!(fsync_begin(&req(false), true), Ok(SyncKind::All)));
    assert_eq!(fsync_begin(&req(false), false).unwrap_err().status, Status::Stale.code());
    assert_eq!(fsync_reply(&req(false), Ok(())).status, 0);
    assert_eq!(fsync_reply(&req(false), Err(IoErrorKind::Other)).status, Status::Io.code());
}

// ── attributes ───────────────────────────────────────────────────────────────

fn meta() -> FileMeta {
    FileMeta {
        ino: 12,
        mode: 0o100644,
        nlink: 1,
        uid: 5,
        gid: 6,
        size: 1025,
        accessed: Some(Duration { secs: 2, nanos: 3 }),
        modified: Some(Duration { secs: 4, nanos: 5 }),
    }
}

#[test]
fn attributes_are_read_from_the_host() {
    let s = metadata_to_stat(&meta());
    assert_eq!((s.ino, s.mode, s.nlink, s.uid, s.gid), (12, 0o100644, 1, 5, 6));
    assert_eq!((s.size, s.blocks, s.blksz), (1025, 3, 4096));
    assert_eq!((s.atime, s.mtime, s.ctime), (2_000_000_003, 4_000_000_005, 4_000_000_005));
    let odd = FileMeta {
        nlink: 1 << 40,
        size: 1024,
        accessed: None,
        modified: Some(Duration { secs: 9_223_372_036, nanos: 854_775_808 }),
        ..meta()
    };
    let s = metadata_to_stat(&odd);
    assert_eq!((s.nlink, s.blocks, s.atime, s.mtime), (u32::MAX, 2, 0, i64::MIN));
    assert_eq!(metadata_to_stat(&FileMeta { size: 0, ..meta() }).blocks, 0);
    let req = GetAttrRequest { op: 1, seq: 9, path: "/x".into() };
    assert_eq!(getattr_begin(&req, ROOT, &absent()).unwrap(), format!("{ROOT}/x"));
    let r = getattr_reply(&req, &Ok(meta()));
    assert_eq!((r.seq, r.status, r.stat.unwrap().size), (9, 0, 1025));
    let r = getattr_reply(&req, &Err(IoErrorKind::NotFound));
    assert!(r.status == Status::NotFound.code() && r.stat.is_none());
    let bad = GetAttrRequest { op: 1, seq: 9, path: "a/../b".into() };
    assert_eq!(
        getattr_begin(&bad, ROOT, &absent()).unwrap_err().status,
        Status::Permission.code()
    );
}

fn setattr(valid: u32) -> SetAttrRequest {
    SetAttrRequest {
        op: 2,
        seq: 3,
        path: "/f".into(),
        valid,
        mode: 0o6755,
        uid: 1,
        gid: 1,
        size: 77,
        atime: -1_500_000_000,
        mtime: 1_500_000_000,
    }
}

#[test]
fn changes_are_made_step_by_step() {
    let (path, mut run) = setattr_begin(&setattr(0x3F), ROOT, &absent()).unwrap();
    assert_eq!(path, format!("{ROOT}/f"));
    let mut steps = vec![run.step()];
    while steps[steps.len() - 1] != SetAttrStep::ReadBack {
        match run.stepped(Ok(())) {
            SetAttrNext::Do(s) => steps.push(s),
            SetAttrNext::Answer(_) => panic!("nothing failed"),
        }
    }
    assert_eq!(
        steps,
        vec![
            SetAttrStep::Truncate(77),
            SetAttrStep::OpenRef,
            SetAttrStep::Chmod(0o755),
            SetAttrStep::SetTimes(
                Some(TimeSpec { sec: -1, nsec: -500_000_000 }),
                Some(TimeSpec { sec: 1, nsec: 500_000_000 }),
            ),
            SetAttrStep::ReadBack,
        ]
    );
    let r = run.finish(&Ok(meta()));
    assert_eq!((r.op, r.seq, r.status, r.stat.unwrap().size), (2, 3, 0, 1025));
}

#[test]
fn a_failed_step_ends_the_change() {
    let (_, mut run) = setattr_begin(&setattr(0x8 | 0x20), ROOT, &absent()).unwrap();
    assert_eq!(run.step(), SetAttrStep::Truncate(77));
    match run.stepped(Err(IoErrorKind::PermissionDenied)) {
        SetAttrNext::Answer(r) => {
            assert!(r.status == Status::Permission.code() && r.stat.is_none())
        }
        SetAttrNext::Do(_) => panic!("the failure is answered"),
    }
    // Owner and group are not changed, nor is anything without its bit.
    let (_, run) = setattr_begin(&setattr(0x2 | 0x4), ROOT, &absent()).unwrap();
    assert_eq!(run.step(), SetAttrStep::ReadBack);
    let r = run.finish(&Err(IoErrorKind::NotFound));
    assert_eq!(r.status, Status::NotFound.code());
    let (_, mut run) = setattr_begin(&setattr(0x10), ROOT, &absent()).unwrap();
    assert_eq!(run.step(), SetAttrStep::OpenRef);
    match run.stepped(Ok(())) {
        SetAttrNext::Do(SetAttrStep::SetTimes(a, m)) => assert!(a.is_some() && m.is_none()),
        _ => panic!("the time is set"),
    }
    let mut bad = setattr(0x8);
    bad.path = "..".into();
    assert_eq!(
        setattr_begin(&bad, ROOT, &absent()).err().unwrap().status,
        Status::Permission.code()
    );
    let t = truncate_how();
    assert!(t.access == Access::WriteOnly && t.no_follow && !t.truncate);
    assert!(reference_how().path_only && !reference_how().no_follow);
    assert_eq!(ns_to_timespec(i64::MIN).sec, i64::MIN / 1_000_000_000);
    assert_eq!(ns_to_timespec(i64::MIN).nsec, i64::MIN % 1_000_000_000);
}

// ── directories ──────────────────────────────────────────────────────────────

fn entries(n: usize) -> Vec<DirEntry> {
    (0..n)
        .map(|i| DirEntry { name: format!("f{i}"), ino: i as u64, mode: 0 })
        .collect()
}

#[test]
fn paging_lists_everything_once() {
    for n in [0, 1, 255, 256, 257, 512, 600] {
        let mut cursor = 0;
        let mut names = vec![];
        loop {
            let req = ReadDirRequest { op: 3, seq: 1, path: "/".into(), cursor };
            assert_eq!(readdir_begin(&req, ROOT, &absent()).unwrap(), ROOT);
            let r = readdir_reply(&req, Ok(page_of(entries(n), cursor)));
            assert!(r.entries.len() <= MAX_DIR_ENTRIES);
            names.extend(r.entries.into_iter().map(|e| e.name));
            cursor = r.cursor;
            if r.eof {
                break;
            }
        }
        let want: Vec<String> = entries(n).into_iter().map(|e| e.name).collect();
        assert_eq!(names, want);
    }
}

#[test]
fn pages_skip_up_to_the_cursor() {
    let mut page = DirPage::new(2);
    assert!(page.skip_one() && page.skip_one());
    assert!(!page.skip_one());
    for (i, e) in entries(MAX_DIR_ENTRIES).into_iter().enumerate() {
        assert_eq!(page.push(e), i + 1 == MAX_DIR_ENTRIES);
    }
    assert_eq!(page.next_cursor(2), Some(258));
    assert_eq!(page.next_cursor(u64::MAX - 256), Some(u64::MAX));
    assert_eq!(page.next_cursor(u64::MAX - 255), None);
    // An empty page leaves the cursor where it is, however far it is out.
    let far = ReadDirRequest { op: 3, seq: 1, path: "/".into(), cursor: u64::MAX };
    let none = DirPage::new(u64::MAX);
    assert_eq!(none.next_cursor(u64::MAX), Some(u64::MAX));
    let r = readdir_reply(&far, Ok(none));
    assert_eq!((r.cursor, r.eof, r.entries.len()), (u64::MAX, true, 0));
    let req = ReadDirRequest { op: 3, seq: 1, path: "/".into(), cursor: 2 };
    let r = readdir_reply(&req, Ok(page));
    assert_eq!((r.cursor, r.eof, r.entries.len()), (258, false, 256));
    let r = readdir_reply(&req, Err(IoErrorKind::NotFound));
    assert_eq!((r.status, r.cursor, r.eof), (Status::NotFound.code(), 2, true));
    let bad = ReadDirRequest { op: 3, seq: 1, path: "..".into(), cursor: 2 };
    let r = readdir_begin(&bad, ROOT, &absent()).unwrap_err();
    assert_eq!((r.status, r.cursor, r.eof), (Status::Permission.code(), 0, true));
}

#[test]
fn entries_are_made_and_removed() {
    let mk = MkDirRequest { op: 4, seq: 1, path: "/d".into(), mode: 0o1777 };
    assert_eq!(
        mkdir_begin(&mk, ROOT, &absent()).unwrap(),
        (format!("{ROOT}/d"), 0o777)
    );
    let r = mkdir_reply(&mk, Ok(()), &Some(meta()));
    assert!(r.status == 0 && r.stat.is_some());
    let r = mkdir_reply(&mk, Ok(()), &None);
    assert!(r.status == 0 && r.stat.is_none());
    let r = mkdir_reply(&mk, Err(IoErrorKind::AlreadyExists), &Some(meta()));
    assert!(r.status == Status::Exists.code() && r.stat.is_none());

    let at = |path: &str| PathRequest { op: 5, seq: 1, path: path.into() };
    assert_eq!(rmdir_begin(&at("/d"), ROOT, &absent()).unwrap(), format!("{ROOT}/d"));
    assert_eq!(unlink_begin(&at("/d"), ROOT, &absent()).unwrap(), format!("{ROOT}/d"));
    let r = rmdir_begin(&at("/d/.."), ROOT, &absent()).unwrap_err();
    assert_eq!((r.op, r.status), (OP_RMDIR, Status::Permission.code()));
    let r = unlink_begin(&at("/d/.."), ROOT, &absent()).unwrap_err();
    assert_eq!((r.op, r.status), (OP_UNLINK, Status::Permission.code()));
    assert_eq!(rmdir_reply(&at("/d"), Err(IoErrorKind::DirectoryNotEmpty)).status, Status::Io.code());
    assert_eq!(unlink_reply(&at("/d"), Ok(())).status, 0);
}

#[test]
fn renames_and_links_confine_both_names() {
    let rn = |a: &str, b: &str| RenameRequest { op: 6, seq: 1, old: a.into(), new: b.into(), flags: 0 };
    let got = rename_begin(&rn("/a", "/b/c"), ROOT, &absent(), &absent()).unwrap();
    assert_eq!(got, (format!("{ROOT}/a"), format!("{ROOT}/b/c")));
    for (a, b) in [("..", "/b"), ("/a", "/../b")] {
        let r = rename_begin(&rn(a, b), ROOT, &absent(), &absent()).unwrap_err();
        assert_eq!(r.status, Status::Permission.code());
    }
    let through_link = PathFacts { symlinks: vec![format!("{ROOT}/b")], canonical: None };
    assert!(rename_begin(&rn("/a", "/b/c"), ROOT, &absent(), &through_link).is_err());
    assert_eq!(rename_reply(&rn("/a", "/b"), Ok(())).status, 0);

    let ln = LinkRequest { op: 7, seq: 1, path: "/a".into(), link: "/l".into() };
    assert_eq!(
        link_begin(&ln, ROOT, &absent(), &absent()).unwrap(),
        (format!("{ROOT}/a"), format!("{ROOT}/l"))
    );
    assert!(link_begin(&ln, ROOT, &absent(), &absent()).is_ok());
    assert!(link_reply(&ln, Ok(()), &Some(meta())).stat.is_some());

    let sl = |target: String| SymlinkRequest { op: 8, seq: 1, target, link: "/l".into() };
    assert!(symlink_begin(&sl("x".repeat(MAX_SYMLINK_TARGET_LEN)), ROOT, &absent()).is_ok());
    let r = symlink_begin(&sl("x".repeat(MAX_SYMLINK_TARGET_LEN + 1)), ROOT, &absent());
    assert_eq!(r.unwrap_err().status, Status::InvalidArg.code());
    let r = symlink_begin(
        &SymlinkRequest { op: 8, seq: 1, target: "/etc".into(), link: "../l".into() },
        ROOT,
        &absent(),
    );
    assert_eq!(r.unwrap_err().status, Status::Permission.code());
    assert!(symlink_reply(&sl("x".into()), Ok(()), &Some(meta())).stat.is_some());

    let at = |path: &str| PathRequest { op: 9, seq: 1, path: path.into() };
    assert!(readlink_begin(&at("/l"), ROOT, &absent()).is_ok());
    assert_eq!(
        readlink_begin(&at(".."), ROOT, &absent()).unwrap_err().status,
        Status::Permission.code()
    );
    let r = readlink_reply(&at("/l"), Ok("/outside".into()));
    assert_eq!((r.status, r.target.as_str()), (0, "/outside"));
    let r = readlink_reply(&at("/l"), Err(IoErrorKind::InvalidInput));
    assert_eq!((r.status, r.target.as_str()), (Status::InvalidArg.code(), ""));
}

#[test]
fn filesystems_are_described() {
    let at = |path: &str| PathRequest { op: 9, seq: 1, path: path.into() };
    assert_eq!(statfs_begin(&at("/"), ROOT, &absent()).unwrap(), ROOT);
    let r = statfs_begin(&at("a\0"), ROOT, &absent()).unwrap_err();
    assert!(r.status == Status::Permission.code() && r.statfs.is_none());
    assert_eq!(query_statfs(None).blocks, 0);
    let fs = StatFs { blocks: 9, ..StatFs::default() };
    assert_eq!(query_statfs(Some(fs)).blocks, 9);
    assert_eq!(statfs_reply(&at("/"), fs).statfs.unwrap().blocks, 9);
}

#[test]
fn changed_directories_are_synced() {
    let dir = |p: &str| sync_parent_dir("/r", p);
    assert_eq!(dir("/r/a/b").as_deref(), Some("/r/a"));
    assert_eq!(dir("/r/a").as_deref(), Some("/r"));
    assert_eq!(dir("/r"), None);
    assert_eq!(dir("/r/"), None);
    let ok = Status::Success;
    assert_eq!(sync_after("/r", "/r/a", ok, true).as_deref(), Some("/r"));
    assert_eq!(sync_after("/r", "/r/a", ok, false), None);
    assert_eq!(sync_after("/r", "/r/a", Status::Io, true), None);
    let rn = |a: &str, b: &str| sync_after_rename("/r", a, b, ok, true);
    assert_eq!(rn("/r/a", "/r/b"), vec!["/r"]);
    assert_eq!(rn("/r/x/a", "/r/y/b"), vec!["/r/x", "/r/y"]);
    assert!(sync_after_rename("/r", "/r/a", "/r/b", Status::Io, true).is_empty());
    assert!(sync_after_rename("/r", "/r/a", "/r/b", ok, false).is_empty());
}
