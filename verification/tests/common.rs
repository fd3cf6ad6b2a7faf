use quicfs::common::base64::base64_decode;
use quicfs::common::frames::{
    Envelope, ALPN_PROTOCOL, MAX_FRAME_SIZE, OP_CREATE, OP_FSYNC, OP_GET_ATTR, OP_HANDSHAKE,
    OP_LINK, OP_MKDIR, OP_OPEN, OP_PING, OP_READ, OP_READLINK, OP_READ_DIR, OP_RELEASE, OP_RENAME,
    OP_RMDIR, OP_SET_ATTR, OP_STAT_FS, OP_SYMLINK, OP_UNLINK, OP_WATCH, OP_WRITE,
};
use quicfs::common::io::{frame_header, frame_len, read_frame, write_frame, FrameError};
use quicfs::common::stat::{Stat, StatFs};
use quicfs::common::status::{IoErrorKind, Status};
use quicfs::common::textmap::TextMap;
use quicfs::server::dispatch::{route, unhandled, Route};
use quicfs::text::{
    chars_of, contains_text, find_from, is_space, same_text, split_chars, string_of, trim_chars,
    words_of,
};
use quicfs::time::{Clock, Duration};

#[test]
fn frames_carry_their_length() {
    assert_eq!(write_frame(b"abc").unwrap(), vec![0, 0, 0, 3, b'a', b'b', b'c']);
    assert_eq!(frame_header(0x01_02_03).unwrap(), vec![0, 1, 2, 3]);
    assert_eq!(frame_len(&[0, 1, 2, 3]), Ok(0x01_02_03));
    assert_eq!(frame_header(MAX_FRAME_SIZE).unwrap(), vec![1, 0, 0, 0]);
    assert_eq!(frame_len(&[1, 0, 0, 0]), Ok(MAX_FRAME_SIZE));
}

#[test]
fn oversized_and_cut_frames_are_refused() {
    assert_eq!(
        frame_header(MAX_FRAME_SIZE + 1),
        Err(FrameError::TooLarge(MAX_FRAME_SIZE + 1))
    );
    assert_eq!(
        frame_len(&[1, 0, 0, 1]),
        Err(FrameError::TooLarge(MAX_FRAME_SIZE + 1))
    );
    assert_eq!(frame_len(&[0xFF; 4]), Err(FrameError::TooLarge(0xFFFF_FFFF)));
    assert_eq!(frame_len(&[0, 0, 0]), Err(FrameError::Truncated));
    assert!(matches!(read_frame(&[0, 0, 0, 2, 7]), Err(FrameError::Truncated)));
    assert!(matches!(write_frame(&vec![0; MAX_FRAME_SIZE + 1]), Err(FrameError::TooLarge(_))));
}

#[test]
fn frames_read_back() {
    let mut wire = write_frame(b"first").unwrap();
    wire.extend(write_frame(b"").unwrap());
    wire.extend(write_frame(b"third").unwrap());
    let (a, rest) = read_frame(&wire).unwrap();
    assert_eq!(a, b"first");
    let (b, rest) = read_frame(&rest).unwrap();
    assert!(b.is_empty());
    let (c, rest) = read_frame(&rest).unwrap();
    assert_eq!(c, b"third");
    assert!(rest.is_empty());
}

#[test]
fn statuses_survive_the_wire() {
    for v in 0..=255u8 {
        let s = Status::from(v);
        if v < 12 {
            assert_eq!(s.code(), v);
            assert_eq!(Status::from(s.code()), s);
        } else {
            assert_eq!(s, Status::Unknown);
        }
        assert_eq!(s == Status::Success, v == 0);
    }
    assert_eq!(Status::Unknown.code(), 255);
}

#[test]
fn host_errors_become_statuses() {
    for (e, s) in [
        (IoErrorKind::NotFound, Status::NotFound),
        (IoErrorKind::PermissionDenied, Status::Permission),
        (IoErrorKind::AlreadyExists, Status::Exists),
        (IoErrorKind::InvalidInput, Status::InvalidArg),
        (IoErrorKind::InvalidData, Status::InvalidArg),
        (IoErrorKind::DirectoryNotEmpty, Status::Io),
        (IoErrorKind::Other, Status::Io),
    ] {
        assert_eq!(Status::from(e), s);
    }
}

#[test]
fn defaults_are_zero() {
    let s = Stat::default();
    assert_eq!((s.ino, s.mode, s.size, s.mtime), (0, 0, 0, 0));
    let f = StatFs::default();
    assert_eq!((f.blocks, f.bsize, f.namelen), (0, 0, 0));
}

#[test]
fn protocol_is_named() {
    assert_eq!(ALPN_PROTOCOL, "quicfs/1");
    assert_eq!(MAX_FRAME_SIZE, 16_777_216);
}

#[test]
fn requests_are_routed_by_their_code() {
    for (op, r) in [
        (OP_PING, Route::Ping),
        (OP_GET_ATTR, Route::GetAttr),
        (OP_SET_ATTR, Route::SetAttr),
        (OP_READ_DIR, Route::ReadDir),
        (OP_MKDIR, Route::MkDir),
        (OP_RMDIR, Route::RmDir),
        (OP_UNLINK, Route::Unlink),
        (OP_RENAME, Route::Rename),
        (OP_SYMLINK, Route::Symlink),
        (OP_READLINK, Route::ReadLink),
        (OP_LINK, Route::Link),
        (OP_STAT_FS, Route::StatFs),
        (OP_OPEN, Route::Open),
        (OP_RELEASE, Route::Release),
        (OP_READ, Route::Read),
        (OP_WRITE, Route::Write),
        (OP_CREATE, Route::Create),
        (OP_FSYNC, Route::Fsync),
    ] {
        assert_eq!(route(op), r);
    }
    assert_eq!((0..=255u8).filter(|&op| route(op) != Route::Unhandled).count(), 18);
    for op in [OP_HANDSHAKE, OP_WATCH, 0x30, 0x40, 0, 0xFF] {
        assert_eq!(route(op), Route::Unhandled);
    }
    let r = unhandled(&Envelope { op: 0x30, seq: 9 });
    assert_eq!((r.op, r.seq, r.status), (0x30, 9, Status::InvalidArg.code()));
}

#[test]
fn base64_is_decoded_strictly() {
    for (text, bytes) in [
        ("", &b""[..]),
        ("Zg==", b"f"),
        ("Zm8=", b"fo"),
        ("Zm9v", b"foo"),
        ("Zm9vYg==", b"foob"),
        ("++//", &[0xFB, 0xEF, 0xFF]),
    ] {
        assert_eq!(base64_decode(text).as_deref(), Some(bytes), "{text}");
    }
    // Padding is asked for, and bits behind the last byte must be zero.
    for text in ["Zg", "Zg=", "Zg===", "Zm8", "Zh==", "Zm9=", "=", "Zm9v=", "Zm==9v", "Z g=", "\u{fc}"] {
        assert_eq!(base64_decode(text), None, "{text}");
    }
}

#[test]
fn text_maps_stay_sorted() {
    let mut m = TextMap::new();
    for (k, v) in [("b", "1"), ("a", "2"), ("c", "3"), ("a", "4"), ("aa", "5")] {
        m.insert(k, v);
    }
    assert_eq!(m.len(), 4);
    let all: Vec<(&str, &str)> = (0..m.len()).map(|i| m.entry(i)).collect();
    assert_eq!(all, vec![("a", "4"), ("aa", "5"), ("b", "1"), ("c", "3")]);
    assert_eq!(m.get("a"), Some("4"));
    assert_eq!(m.get("d"), None);
    assert!(m.contains("aa") && !m.contains(""));
}

#[test]
fn whitespace_is_that_of_unicode() {
    for c in (0..=0x10FFFFu32).filter_map(char::from_u32) {
        assert_eq!(is_space(c), c.is_whitespace(), "{:x}", c as u32);
    }
}

#[test]
fn texts_are_taken_apart() {
    let v = |s: &str| chars_of(s);
    let strs = |p: Vec<Vec<char>>| -> Vec<String> { p.iter().map(|c| string_of(c)).collect() };
    for s in ["", " ", "a", " a b ", "\u{2003}x\u{3000}", "a\n\nb\r\n", "//a/b/", "ü ä"] {
        let std: Vec<String> = s.split('/').map(String::from).collect();
        assert_eq!(strs(split_chars(&v(s), '/')), std);
        let std: Vec<String> = s.split_whitespace().map(String::from).collect();
        assert_eq!(strs(words_of(&v(s))), std);
        assert_eq!(string_of(&trim_chars(&v(s))), s.trim());
        assert!(same_text(s, s));
    }
    assert_eq!(find_from(&v("abcabc"), &v("bc"), 0), Some(1));
    assert_eq!(find_from(&v("abcabc"), &v("bc"), 2), Some(4));
    assert_eq!(find_from(&v("abcabc"), &v("bc"), 5), None);
    assert!(contains_text(&v("server error: NotFound"), &v("NotFound")));
    assert!(!contains_text(&v("server error: Not Found"), &v("NotFound")));
}

#[test]
fn spans_are_counted_in_nanoseconds() {
    assert_eq!(Duration::from_secs(3).as_nanos(), 3_000_000_000);
    let d = Duration::from_millis(1_234);
    assert_eq!((d.secs, d.nanos), (1, 234_000_000));
    assert_eq!(d.as_millis(), 1_234);
    assert_eq!(Duration::from_millis(u64::MAX).as_millis(), u64::MAX as u128);
}

#[test]
fn the_clock_does_not_run_backwards() {
    let c = Clock::new();
    let mut last = c.now().as_nanos();
    for _ in 0..1000 {
        assert!(c.now().nanos < 1_000_000_000);
        let now = c.now().as_nanos();
        assert!(now >= last);
        last = now;
    }
}
