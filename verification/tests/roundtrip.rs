use quicfs::client::conn::{write_frames, ReadData};
use quicfs::client::fuse_ops::{setattr_request, AttrChange};
use quicfs::client::requests::read_request;
use quicfs::client::writebuf::WriteBuffer;
use quicfs::common::frames::WriteRequest;
use quicfs::server::ops::data::{read_begin, write_begin};
use quicfs::server::ops::meta::{setattr_begin, SetAttrNext, SetAttrStep};
use quicfs::server::sanitize::PathFacts;

/// A server's file, written and read through the server's runs.
struct File(Vec<u8>);

impl File {
    fn write_at(&mut self, at: usize, data: &[u8]) {
        if data.is_empty() {
            return;
        }
        if self.0.len() < at + data.len() {
            self.0.resize(at + data.len(), 0);
        }
        self.0[at..at + data.len()].copy_from_slice(data);
    }

    /// The first `stop_after` frames are performed.
    fn write(&mut self, frames: &[WriteRequest], flags: u32, stop_after: usize) -> u64 {
        let Some(first) = frames.first() else { return 0 };
        let mut run = write_begin(first, Some(flags)).unwrap();
        for f in frames.iter().take(stop_after) {
            let at = match run.position(f) {
                Some(at) => at as usize,
                None => self.0.len(),
            };
            self.write_at(at, &f.data);
            run.wrote(f);
        }
        run.finish().written
    }

    fn read(&self, offset: u64, length: u32, step: usize) -> Vec<u8> {
        let mut run = read_begin(&read_request(1, 1, offset, length), true).unwrap();
        let mut data = ReadData::new();
        while let Some(want) = run.want() {
            let from = (run.offset as usize).min(self.0.len());
            let to = (from + want.min(step)).min(self.0.len());
            let last = data.frame(run.got(self.0[from..to].to_vec())).unwrap();
            assert_eq!(last, run.want().is_none());
        }
        data.data
    }
}

#[test]
fn a_read_returns_what_was_written() {
    let data: Vec<u8> = (0..=255).cycle().take(1000).collect();
    for before in [0usize, 10, 5000] {
        for chunk in [0u32, 1, 7, 1000, 4096] {
            let mut f = File(vec![0xAA; before]);
            let frames = write_frames(1, 1, 123, &data, chunk);
            assert_eq!(f.write(&frames, 2, usize::MAX), 1000);
            for step in [1, 13, usize::MAX] {
                assert_eq!(f.read(123, 1000, step), data);
            }
            assert_eq!(f.0.len(), before.max(1123));
        }
    }
}

#[test]
fn nothing_is_written_and_read_in_one_frame() {
    let mut f = File(b"old".to_vec());
    let frames = write_frames(1, 1, 900, b"", 4);
    assert_eq!(f.write(&frames, 2, usize::MAX), 0);
    assert_eq!(f.0, b"old");
    for offset in [0, 3, 900] {
        assert_eq!(f.read(offset, 0, usize::MAX), b"");
        let run = read_begin(&read_request(1, 1, offset, 0), true).unwrap();
        assert_eq!(run.want(), Some(0));
    }
}

#[test]
fn buffered_writes_reach_the_file() {
    let writes: [(u64, &[u8]); 5] = [(4, b"bbbb"), (0, b"aaaa"), (8, b"cc"), (9, b"dd"), (40, b"e")];
    let mut direct = File(b"old old old old".to_vec());
    let mut wb = WriteBuffer::new(1 << 20, 1 << 20, 0);
    for (off, data) in writes {
        direct.write_at(off as usize, data);
        wb.push(1, off, data.to_vec());
    }
    let batch = wb.begin_flush(1).unwrap();
    assert!(batch.chunks.len() < writes.len());
    let mut sent = File(b"old old old old".to_vec());
    for (off, data) in &batch.chunks {
        sent.write(&write_frames(1, 1, *off, data, 3), 2, usize::MAX);
    }
    assert_eq!(sent.0, direct.0);
}

#[test]
fn sending_again_leaves_the_same_file() {
    let data: Vec<u8> = (0..100).collect();
    let frames = write_frames(1, 1, 10, &data, 9);
    let mut once = File(vec![1; 50]);
    once.write(&frames, 2, usize::MAX);
    for cut in 0..=frames.len() {
        let mut twice = File(vec![1; 50]);
        twice.write(&frames, 2, cut);
        twice.write(&frames, 2, usize::MAX);
        assert_eq!(twice.0, once.0);
    }
}

#[test]
fn appends_go_to_the_end() {
    let mut f = File(b"log:".to_vec());
    f.write(&write_frames(1, 1, 0, b"one", 2), 0x401, usize::MAX);
    f.write(&write_frames(1, 1, 0, b"two", 2), 0x401, usize::MAX);
    assert_eq!(f.0, b"log:onetwo");
}

#[test]
fn setattr_does_what_was_asked() {
    for bits in 0..64u32 {
        let pick = |b: u32| bits & b != 0;
        let c = AttrChange {
            mode: pick(1).then_some(0o4711),
            uid: pick(2).then_some(1),
            gid: pick(4).then_some(2),
            size: pick(8).then_some(99),
            atime: pick(16).then_some(1_000_000_001),
            mtime: pick(32).then_some(2_000_000_002),
        };
        let req = setattr_request(1, "/f", &c);
        let (_, mut run) = setattr_begin(&req, "/r", &PathFacts::absent()).unwrap();
        let mut steps = vec![];
        let mut step = run.step();
        while step != SetAttrStep::ReadBack {
            steps.push(step);
            match run.stepped(Ok(())) {
                SetAttrNext::Do(s) => step = s,
                SetAttrNext::Answer(_) => panic!("nothing failed"),
            }
        }
        assert_eq!(steps.contains(&SetAttrStep::Truncate(99)), pick(8));
        assert_eq!(steps.contains(&SetAttrStep::Chmod(0o711)), pick(1));
        let times = steps.iter().find_map(|s| match s {
            SetAttrStep::SetTimes(a, m) => Some((a.map(|t| t.nsec), m.map(|t| t.nsec))),
            _ => None,
        });
        assert_eq!(
            times,
            (pick(16) || pick(32)).then_some((pick(16).then_some(1), pick(32).then_some(2)))
        );
    }
}
