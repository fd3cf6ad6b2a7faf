use std::path::Path;

use quicfs::client::conn::{
    check_handshake, decide_first_contact, handle_of_response, handshake_request, pin_mode,
    prompt_answer, settle_first_contact, stat_of_response, stat_of_setattr, statfs_of_response,
    target_of_response, write_frames, written_of_response, Backoff, FirstContact, Listing,
    ReadData, TofuPolicy, TrustRefusal,
};
use quicfs::client::errno::{
    check_status, io_to_errno, is_not_found, rpc_to_errno, server_error_message, RpcError, EACCES,
    EEXIST, EINVAL, EIO, EISDIR, ENOENT, ENOSPC, ENOTDIR, ENOTEMPTY, ESTALE,
};
use quicfs::client::inodes::{child_path, normalize_root, InodeTable, ROOT_INO};
use quicfs::client::mount::{
    cache_config, flush_tick, is_fuse_mount_gone, is_mounted, stale_mount, write_buf_config,
    write_buf_total, FuseOptions,
};
use quicfs::client::requests::{
    create_request, fsync_request, getattr_request, link_request, mkdir_request, open_request,
    ping_request, read_request, readdir_request, readlink_request, release_request,
    rename_request, rmdir_request, statfs_request, symlink_request, unlink_request,
    RequestNumbers,
};
use quicfs::client::verify::PinMode;
use quicfs::common::frames::{
    GetAttrResponse, HandshakeResponse, OpenResponse, ReadDirResponse, ReadLinkResponse,
    ReadResponse, SetAttrResponse, StatFsResponse, WriteResponse,
};
use quicfs::common::stat::{DirEntry, Stat, StatFs};
use quicfs::common::status::{IoErrorKind, Status};
use quicfs::common::trust::KnownHosts;
use quicfs::server::dispatch::{route, Route};

#[test]
fn error_numbers_are_those_of_the_host() {
    assert_eq!(ENOENT, libc::ENOENT);
    assert_eq!(EIO, libc::EIO);
    assert_eq!(EACCES, libc::EACCES);
    assert_eq!(EEXIST, libc::EEXIST);
    assert_eq!(ENOTDIR, libc::ENOTDIR);
    assert_eq!(EISDIR, libc::EISDIR);
    assert_eq!(EINVAL, libc::EINVAL);
    assert_eq!(ENOSPC, libc::ENOSPC);
    assert_eq!(ENOTEMPTY, libc::ENOTEMPTY);
    assert_eq!(ESTALE, libc::ESTALE);
}

#[test]
fn server_errors_keep_their_number() {
    for (s, errno) in [
        (Status::NotFound, ENOENT),
        (Status::Permission, EACCES),
        (Status::Exists, EEXIST),
        (Status::NotEmpty, ENOTEMPTY),
        (Status::NotDir, ENOTDIR),
        (Status::IsDir, EISDIR),
        (Status::NoSpace, ENOSPC),
        (Status::Stale, ESTALE),
        (Status::Io, EIO),
        (Status::InvalidArg, EIO),
        (Status::TooLarge, EIO),
        (Status::Unknown, EIO),
    ] {
        assert_eq!(check_status(s.code()), Err(RpcError::Server(s)));
        let msg = server_error_message(s);
        assert_eq!(msg, format!("server error: {s:?}"));
        assert_eq!(rpc_to_errno(&msg), errno);
        assert_eq!(is_not_found(&msg), s == Status::NotFound);
    }
    assert_eq!(check_status(0), Ok(()));
    assert_eq!(rpc_to_errno("open RPC stream"), EIO);
    // The first name in the list decides.
    assert_eq!(rpc_to_errno("Stale NotFound"), ENOENT);
}

#[test]
fn host_errors_have_numbers() {
    for (e, n) in [
        (IoErrorKind::NotFound, libc::ENOENT),
        (IoErrorKind::PermissionDenied, libc::EACCES),
        (IoErrorKind::AlreadyExists, libc::EEXIST),
        (IoErrorKind::DirectoryNotEmpty, libc::ENOTEMPTY),
        (IoErrorKind::InvalidInput, libc::EINVAL),
        (IoErrorKind::InvalidData, libc::EINVAL),
        (IoErrorKind::Other, libc::EIO),
    ] {
        assert_eq!(io_to_errno(e), n);
    }
}

#[test]
fn unknown_keys_are_decided_by_policy() {
    for tty in [false, true] {
        assert_eq!(decide_first_contact(TofuPolicy::Strict, tty), FirstContact::Refuse);
        assert_eq!(decide_first_contact(TofuPolicy::AcceptNew, tty), FirstContact::Accept);
    }
    assert_eq!(decide_first_contact(TofuPolicy::Prompt, true), FirstContact::Ask);
    assert_eq!(decide_first_contact(TofuPolicy::Prompt, false), FirstContact::Refuse);
    assert_eq!(prompt_answer(None), Some(false));
    assert_eq!(prompt_answer(Some(" yes\n")), Some(true));
    assert_eq!(prompt_answer(Some("no\r\n")), Some(false));
    assert_eq!(prompt_answer(Some("y\n")), None);
    assert_eq!(prompt_answer(Some("YES")), None);
}

#[test]
fn first_contact_pins_the_key() {
    let mut kh = KnownHosts::load("/kh", None);
    assert!(matches!(pin_mode(&kh, "h:1"), PinMode::Capture));
    assert_eq!(
        settle_first_contact(&mut kh, "h:1", None, true),
        Err(TrustRefusal::NoCertificate)
    );
    assert_eq!(
        settle_first_contact(&mut kh, "h:1", Some("SHA256:a".into()), false),
        Err(TrustRefusal::NotAccepted)
    );
    assert!(matches!(pin_mode(&kh, "h:1"), PinMode::Capture));
    assert_eq!(
        settle_first_contact(&mut kh, "h:1", Some("SHA256:a".into()), true),
        Ok("SHA256:a".to_string())
    );
    assert!(matches!(pin_mode(&kh, "h:1"), PinMode::Enforce(fp) if fp == "SHA256:a"));
    assert!(matches!(pin_mode(&kh, "h:2"), PinMode::Capture));
}

#[test]
fn handshakes_are_sent_and_checked() {
    let req = handshake_request("me".into(), 65536);
    assert_eq!((req.op, req.seq, req.version, req.chunk_size), (0xF0, 1, 1, 65536));
    assert_eq!((req.client_id.as_str(), req.auth_type.as_str()), ("me", "mtls"));
    assert!(req.features.is_empty());
    let mut resp = HandshakeResponse {
        op: 0xF0,
        seq: 1,
        status: 0,
        version: 1,
        features: vec![],
        chunk_size: 1,
        server_id: String::new(),
        export_root: String::new(),
    };
    assert_eq!(check_handshake(&resp), Ok(()));
    resp.status = 2;
    assert_eq!(check_handshake(&resp), Err(RpcError::HandshakeRejected(2)));
}

#[test]
fn answers_are_read() {
    let stat = Stat { size: 5, ..Stat::default() };
    let ga = |status, stat| GetAttrResponse { op: 1, seq: 1, status, stat };
    assert_eq!(stat_of_response(&ga(0, Some(stat))).unwrap().size, 5);
    assert!(matches!(stat_of_response(&ga(0, None)), Err(RpcError::MissingStat)));
    assert!(matches!(
        stat_of_response(&ga(1, Some(stat))),
        Err(RpcError::Server(Status::NotFound))
    ));
    let sa = SetAttrResponse { op: 1, seq: 1, status: 9, stat: None };
    assert!(matches!(stat_of_setattr(&sa), Err(RpcError::Server(Status::NoSpace))));
    let op = OpenResponse { op: 1, seq: 1, status: 0, handle: 77, stat: Some(stat) };
    assert_eq!(handle_of_response(&op).unwrap().0, 77);
    let op = OpenResponse { op: 1, seq: 1, status: 0, handle: 77, stat: None };
    assert!(matches!(handle_of_response(&op), Err(RpcError::MissingStat)));
    let rl = |status| ReadLinkResponse { op: 1, seq: 1, status, target: "t".into() };
    assert_eq!(target_of_response(rl(0)), Ok("t".to_string()));
    assert_eq!(target_of_response(rl(8)), Err(RpcError::Server(Status::InvalidArg)));
    let fs = |status, statfs| StatFsResponse { op: 1, seq: 1, status, statfs };
    let zero = StatFs::default();
    assert!(statfs_of_response(&fs(0, Some(zero))).is_ok());
    assert!(matches!(statfs_of_response(&fs(0, None)), Err(RpcError::MissingStatFs)));
    assert!(matches!(
        statfs_of_response(&fs(99, Some(zero))),
        Err(RpcError::Server(Status::Unknown))
    ));
    let w = |status| WriteResponse { op: 1, seq: 1, status, written: 12 };
    assert_eq!(written_of_response(&w(0)), Ok(12));
    assert_eq!(written_of_response(&w(11)), Err(RpcError::Server(Status::Stale)));
}

#[test]
fn listings_are_collected_page_by_page() {
    let entry = |n: &str| DirEntry { name: n.into(), ino: 1, mode: 0 };
    let page = |status, names: &[&str], cursor, eof| ReadDirResponse {
        op: 1,
        seq: 1,
        status,
        entries: names.iter().map(|n| entry(n)).collect(),
        cursor,
        eof,
    };
    let mut l = Listing::new();
    assert_eq!(l.cursor, 0);
    assert_eq!(l.page(page(0, &["a", "b"], 2, false)), Ok(false));
    assert_eq!(l.cursor, 2);
    assert_eq!(l.page(page(0, &["c"], 3, true)), Ok(true));
    let names: Vec<&str> = l.entries.iter().map(|e| e.name.as_str()).collect();
    assert_eq!(names, vec!["a", "b", "c"]);
    assert_eq!(
        l.page(page(2, &["d"], 4, true)),
        Err(RpcError::Server(Status::Permission))
    );
    assert_eq!(l.entries.len(), 3);
}

#[test]
fn reads_are_collected_frame_by_frame() {
    let frame = |status, data: &[u8], eof| ReadResponse {
        op: 1,
        seq: 1,
        status,
        offset: 0,
        data: data.to_vec(),
        eof,
    };
    let mut r = ReadData::new();
    assert_eq!(r.frame(frame(0, b"ab", false)), Ok(false));
    assert_eq!(r.frame(frame(0, b"c", true)), Ok(true));
    assert_eq!(r.data, b"abc");
    assert_eq!(r.frame(frame(11, b"x", true)), Err(RpcError::Server(Status::Stale)));
    assert_eq!(r.data, b"abc");
}

#[test]
fn writes_are_cut_into_frames() {
    let frames = write_frames(7, 9, 100, b"abcdefgh", 3);
    let got: Vec<(u64, &[u8], bool)> = frames
        .iter()
        .map(|f| (f.offset, f.data.as_slice(), f.done))
        .collect();
    assert_eq!(
        got,
        vec![(100, &b"abc"[..], false), (103, b"def", false), (106, b"gh", true)]
    );
    assert!(frames.iter().all(|f| f.op == 0x21 && f.seq == 7 && f.handle == 9));
    // A write of nothing is one empty frame, marked as the last.
    let none = write_frames(7, 9, 100, b"", 3);
    assert_eq!(none.len(), 1);
    assert_eq!((none[0].offset, none[0].data.len(), none[0].done), (100, 0, true));
    assert_eq!((none[0].op, none[0].seq, none[0].handle), (0x21, 7, 9));
    assert_eq!(write_frames(1, 1, 0, b"abc", 0).len(), 3);
    let one = write_frames(1, 1, u64::MAX - 3, b"abc", 3);
    assert_eq!((one.len(), one[0].done), (1, true));
}

#[test]
fn delays_grow_to_a_limit() {
    let mut b = Backoff::new();
    let mut waits = vec![];
    for _ in 0..12 {
        b.begin();
        waits.push(b.failed().as_millis());
    }
    assert_eq!(
        waits,
        vec![125, 300, 400, 1000, 2400, 3200, 8000, 19200, 25600, 37500, 45000, 30000]
    );
    assert_eq!(b.attempt, 12);
}

#[test]
fn requests_reach_their_handlers() {
    let mut n = RequestNumbers::new();
    assert_eq!((n.next_seq(), n.next_seq()), (2, 3));
    n.next = u64::MAX;
    assert_eq!((n.next_seq(), n.next_seq()), (u64::MAX, 0));

    let r = getattr_request(5, "/p");
    assert_eq!((route(r.op), r.seq, r.path.as_str()), (Route::GetAttr, 5, "/p"));
    let r = readdir_request(5, "/p", 256);
    assert_eq!((route(r.op), r.seq, r.path.as_str(), r.cursor), (Route::ReadDir, 5, "/p", 256));
    let r = mkdir_request(5, "/p", 0o755);
    assert_eq!((route(r.op), r.path.as_str(), r.mode), (Route::MkDir, "/p", 0o755));
    assert_eq!(route(rmdir_request(5, "/p").op), Route::RmDir);
    assert_eq!(route(unlink_request(5, "/p").op), Route::Unlink);
    assert_eq!(route(readlink_request(5, "/p").op), Route::ReadLink);
    let r = statfs_request(5, "/p");
    assert_eq!((route(r.op), r.path.as_str()), (Route::StatFs, "/p"));
    let r = rename_request(5, "/a", "/b", 3);
    assert_eq!(
        (route(r.op), r.old.as_str(), r.new.as_str(), r.flags),
        (Route::Rename, "/a", "/b", 3)
    );
    let r = symlink_request(5, "target", "/l");
    assert_eq!(
        (route(r.op), r.target.as_str(), r.link.as_str()),
        (Route::Symlink, "target", "/l")
    );
    let r = link_request(5, "/a", "/l");
    assert_eq!((route(r.op), r.path.as_str(), r.link.as_str()), (Route::Link, "/a", "/l"));
    let r = open_request(5, "/p", 2);
    assert_eq!((route(r.op), r.path.as_str(), r.flags), (Route::Open, "/p", 2));
    let r = create_request(5, "/p", 2, 0o600);
    assert_eq!((route(r.op), r.flags, r.mode), (Route::Create, 2, 0o600));
    let r = release_request(5, 8);
    assert_eq!((route(r.op), r.handle), (Route::Release, 8));
    let r = read_request(5, 8, 9, 10);
    assert_eq!((route(r.op), r.handle, r.offset, r.length), (Route::Read, 8, 9, 10));
    let r = fsync_request(5, 8, true);
    assert_eq!((route(r.op), r.handle, r.datasync), (Route::Fsync, 8, true));
    let r = ping_request(5);
    assert_eq!((route(r.op), r.seq), (Route::Ping, 5));
    assert_eq!(route(write_frames(1, 1, 0, b"x", 1)[0].op), Route::Write);
}

#[test]
fn roots_are_normalized() {
    for (root, want) in [
        ("", "/"),
        ("/", "/"),
        ("///", "/"),
        (" / ", "/"),
        ("projects", "/projects"),
        ("/projects/", "/projects"),
        ("\t/a/b// ", "/a/b"),
        ("//a", "//a"),
    ] {
        assert_eq!(normalize_root(root), want, "{root:?}");
    }
}

#[test]
fn children_are_joined_to_their_directory() {
    assert_eq!(child_path("/", "a"), "/a");
    assert_eq!(child_path("//", "a"), "/a");
    assert_eq!(child_path("/a", "b"), "/a/b");
    assert_eq!(child_path("/a/", "b"), "/a/b");
    assert_eq!(child_path("/a", "/b"), "/b");
}

#[test]
fn numbers_are_stable_and_distinct() {
    let mut t = InodeTable::new("/projects");
    assert_eq!(t.path_of(ROOT_INO), Some("/projects"));
    assert_eq!(t.get_or_alloc("/projects".into()), ROOT_INO);
    let a = t.get_or_alloc("/projects/a".into());
    let b = t.get_or_alloc("/projects/b".into());
    assert_eq!((a, b), (2, 3));
    assert_eq!(t.get_or_alloc("/projects/a".into()), a);
    // Another spelling of a path is the same path.
    assert_eq!(Path::new("/projects/./a/"), Path::new("/projects/a"));
    assert_eq!(t.get_or_alloc("/projects//./a/".into()), a);
    assert_eq!(t.path_of(a), Some("/projects/a"));
    t.rename_ino("/projects/a", "/projects/c".into());
    assert_eq!(t.path_of(a), Some("/projects/c"));
    assert_eq!(t.get_or_alloc("/projects/c".into()), a);
    assert_eq!(t.get_or_alloc("/projects/a".into()), 4);
    t.remove_path("/projects/c/.");
    assert_eq!(t.path_of(a), None);
    assert_eq!(t.get_or_alloc("/projects/c".into()), 5);
    t.remove_path("/nowhere");
    t.rename_ino("/nowhere", "/elsewhere".into());
    assert_eq!(t.path_of(b), Some("/projects/b"));
    assert_eq!(t.path_of(99), None);
}

const TABLE: &str = "\
proc /proc proc rw 0 0
quicfs /mnt/q fuse rw,nosuid 0 0
short
quicfs  /mnt/other\tfuse
";

#[test]
fn mounts_are_found_in_the_table() {
    assert!(is_mounted(TABLE, "/mnt/q"));
    assert!(is_mounted(TABLE, "/mnt/other"));
    assert!(!is_mounted(TABLE, "/mnt"));
    assert!(!is_mounted(TABLE, "quicfs"));
    assert!(!is_mounted(TABLE, ""));
    assert!(stale_mount(Some(TABLE), "/mnt/q"));
    assert!(!stale_mount(None, "/mnt/q"));
    assert!(!is_fuse_mount_gone(Some(TABLE), "/mnt/q"));
    assert!(is_fuse_mount_gone(Some(TABLE), "/mnt/z"));
    assert!(is_fuse_mount_gone(None, "/mnt/q"));
}

#[test]
fn options_set_the_caches() {
    let opts = FuseOptions {
        allow_other: false,
        readonly: false,
        cache_ttl_ms: 2001,
        uid_override: None,
        gid_override: None,
        write_buf_per_handle: 1000,
        write_buf_total: 8000,
        coalesce_ms: 11,
        remote_root: "/".into(),
    };
    let c = cache_config(&opts);
    assert_eq!(c.max_entries, 8192);
    assert_eq!(
        (c.pos_ttl.as_millis(), c.neg_ttl.as_millis(), c.dir_ttl.as_millis()),
        (2001, 500, 1000)
    );
    let w = write_buf_config(&opts);
    assert_eq!((w.max_per_handle_bytes, w.max_total_bytes, w.window_ms), (1000, 8000, 11));
    for (ms, tick) in [(0, 1), (1, 1), (2, 2), (10, 6), (11, 6)] {
        assert_eq!(flush_tick(ms).as_millis(), tick);
    }
    assert_eq!(write_buf_total(1024), 8192);
    assert_eq!(write_buf_total(8 << 20), 64 << 20);
    assert_eq!(write_buf_total(usize::MAX), 64 << 20);
}
