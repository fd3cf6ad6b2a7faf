//! Length-prefixed frames: four bytes of big-endian length, then the body.

use vstd::prelude::*;
use vstd::slice::slice_subrange;

use crate::common::frames::MAX_FRAME_SIZE;

verus! {

/// Why a frame was refused.
#[derive(Debug, Clone, Copy, PartialEq, Eq, Structural)]
pub enum FrameError {
    /// The body is larger than any frame may be.
    TooLarge(usize),
    /// The bytes end before the frame does.
    Truncated,
}

/// The number that four bytes stand for, most significant first.
pub open spec fn be32(b: Seq<u8>) -> int {
    b[0] * 0x100_0000 + b[1] * 0x1_0000 + b[2] * 0x100 + b[3]
}

/// The four bytes of a number, most significant first.
pub open spec fn be32_bytes(n: int) -> Seq<u8> {
    seq![
        (n / 0x100_0000 % 0x100) as u8,
        (n / 0x1_0000 % 0x100) as u8,
        (n / 0x100 % 0x100) as u8,
        (n % 0x100) as u8,
    ]
}

/// The frame that carries `data`.
pub open spec fn frame_of(data: Seq<u8>) -> Seq<u8> {
    be32_bytes(data.len() as int) + data
}

/// Length prefixes read back as they were written.
pub proof fn law_length_prefix_roundtrip(n: int)
    requires
        0 <= n < 0x1_0000_0000,
    ensures
        be32(be32_bytes(n)) == n,
        be32_bytes(n).len() == 4,
{
    let b = be32_bytes(n);
    assert(b[0] == n / 0x100_0000 % 0x100);
    assert(b[1] == n / 0x1_0000 % 0x100);
    assert(b[2] == n / 0x100 % 0x100);
    assert(b[3] == n % 0x100);
}

/// The length prefix of a frame with a body of `len` bytes.
pub fn frame_header(len: usize) -> (res: Result<Vec<u8>, FrameError>)
    ensures
        match res {
            Ok(h) => len <= MAX_FRAME_SIZE && h@ == be32_bytes(len as int),
            Err(e) => len > MAX_FRAME_SIZE && e == FrameError::TooLarge(len),
        },
{
    if len > MAX_FRAME_SIZE {
        return Err(FrameError::TooLarge(len));
    }
    let mut out: Vec<u8> = Vec::new();
    out.push((len / 0x100_0000 % 0x100) as u8);
    out.push((len / 0x1_0000 % 0x100) as u8);
    out.push((len / 0x100 % 0x100) as u8);
    out.push((len % 0x100) as u8);
    assert(out@ =~= be32_bytes(len as int));
    Ok(out)
}

/// The length of the body that a length prefix announces.
pub fn frame_len(header: &[u8]) -> (res: Result<usize, FrameError>)
    ensures
        match res {
            Ok(n) => header@.len() >= 4 && n == be32(header@) && n <= MAX_FRAME_SIZE,
            Err(FrameError::Truncated) => header@.len() < 4,
            Err(FrameError::TooLarge(n)) => header@.len() >= 4 && n == be32(header@) && n
                > MAX_FRAME_SIZE,
        },
{
    if header.len() < 4 {
        return Err(FrameError::Truncated);
    }
    let n: u32 = (header[0] as u32) * 0x100_0000 + (header[1] as u32) * 0x1_0000 + (
    header[2] as u32) * 0x100 + (header[3] as u32);
    let len: usize = n as usize;
    if len > MAX_FRAME_SIZE {
        return Err(FrameError::TooLarge(len));
    }
    Ok(len)
}

/// A length-prefixed frame around `data`.
pub fn write_frame(data: &[u8]) -> (res: Result<Vec<u8>, FrameError>)
    ensures
        match res {
            Ok(f) => data@.len() <= MAX_FRAME_SIZE && f@ == frame_of(data@),
            Err(e) => data@.len() > MAX_FRAME_SIZE && e == FrameError::TooLarge(data.len()),
        },
{
    match frame_header(data.len()) {
        Err(e) => Err(e),
        Ok(mut out) => {
            out.extend_from_slice(data);
            assert(out@ =~= frame_of(data@));
            Ok(out)
        },
    }
}

/// Takes the first frame off a run of bytes: its body, and what follows it.
pub fn read_frame(bytes: &[u8]) -> (res: Result<(Vec<u8>, Vec<u8>), FrameError>)
    ensures
        match res {
            Ok((body, rest)) => bytes@.len() >= 4 && be32(bytes@) <= MAX_FRAME_SIZE && body@.len()
                == be32(bytes@) && bytes@ == bytes@.take(4) + body@ + rest@,
            Err(FrameError::TooLarge(n)) => bytes@.len() >= 4 && n == be32(bytes@) && n
                > MAX_FRAME_SIZE,
            Err(FrameError::Truncated) => bytes@.len() < 4 || (be32(bytes@) <= MAX_FRAME_SIZE
                && bytes@.len() < 4 + be32(bytes@)),
        },
{
    let len: usize = match frame_len(bytes) {
        Ok(n) => n,
        Err(e) => {
            return Err(e);
        },
    };
    if bytes.len() - 4 < len {
        return Err(FrameError::Truncated);
    }
    let body = vstd::slice::slice_to_vec(slice_subrange(bytes, 4, 4 + len));
    let rest = vstd::slice::slice_to_vec(slice_subrange(bytes, 4 + len, bytes.len()));
    assert(bytes@ =~= bytes@.take(4) + body@ + rest@);
    Ok((body, rest))
}

/// A frame that was written is read back whole, whatever follows it, and the
/// rest is left as it was.
pub proof fn law_frame_roundtrip(data: Seq<u8>, rest: Seq<u8>, body: Seq<u8>, left: Seq<u8>)
    requires
        data.len() <= MAX_FRAME_SIZE,
        ({
            let bytes = frame_of(data) + rest;
            body.len() == be32(bytes) && bytes == bytes.take(4) + body + left
        }),
    ensures
        body == data,
        left == rest,
{
    let bytes = frame_of(data) + rest;
    law_length_prefix_roundtrip(data.len() as int);
    let h = be32_bytes(data.len() as int);
    assert(bytes[0] == h[0] && bytes[1] == h[1] && bytes[2] == h[2] && bytes[3] == h[3]);
    assert(bytes.take(4) =~= h);
    let tail = data + rest;
    assert(bytes.skip(4) =~= tail);
    assert(bytes.skip(4) =~= body + left);
    assert(body =~= tail.take(data.len() as int));
    assert(left =~= tail.skip(data.len() as int));
    assert(tail.take(data.len() as int) =~= data);
    assert(tail.skip(data.len() as int) =~= rest);
}

/// A frame and whatever follows it are long enough to be read: what was written
/// is never refused.
pub proof fn law_written_frame_is_readable(data: Seq<u8>, rest: Seq<u8>)
    requires
        data.len() <= MAX_FRAME_SIZE,
    ensures
        ({
            let bytes = frame_of(data) + rest;
            bytes.len() >= 4 && be32(bytes) == data.len() && bytes.len() >= 4 + be32(bytes)
        }),
{
    law_length_prefix_roundtrip(data.len() as int);
    let h = be32_bytes(data.len() as int);
    let bytes = frame_of(data) + rest;
    assert(bytes[0] == h[0] && bytes[1] == h[1] && bytes[2] == h[2] && bytes[3] == h[3]);
}

/// A frame is its length in four bytes, the most significant first, and its body. Bodies of
/// up to 16 MiB have one.
pub proof fn law_frames_start_with_their_length(data: &[u8], res: Result<Vec<u8>, FrameError>)
    requires
        call_ensures(write_frame, (data,), res),
    ensures
        res is Ok <==> data@.len() <= 16_777_216,
        res matches Ok(f) ==> {
            &&& f@.len() == 4 + data@.len()
            &&& f@.skip(4) == data@
            &&& f@[0] * 16_777_216 + f@[1] * 65_536 + f@[2] * 256 + f@[3] == data@.len()
        },
{
    if res is Ok {
        let n = data@.len() as int;
        law_length_prefix_roundtrip(n);
        let f = res->Ok_0;
        assert(f@.skip(4) =~= data@);
        assert(f@.take(4) =~= be32_bytes(n));
        assert(f@[0] == be32_bytes(n)[0] && f@[1] == be32_bytes(n)[1]);
        assert(f@[2] == be32_bytes(n)[2] && f@[3] == be32_bytes(n)[3]);
    }
}

/// What comes in is read by the same rule: the first four bytes say how many belong to the
/// frame, and the rest is left for later.
pub proof fn law_frames_are_read_by_their_length(
    bytes: &[u8],
    res: Result<(Vec<u8>, Vec<u8>), FrameError>,
    n: int,
)
    requires
        call_ensures(read_frame, (bytes,), res),
        bytes@.len() >= 4,
        n == bytes@[0] * 16_777_216 + bytes@[1] * 65_536 + bytes@[2] * 256 + bytes@[3],
    ensures
        res is Ok <==> n <= 16_777_216 && bytes@.len() >= 4 + n,
        res matches Ok((body, rest)) ==> body@ == bytes@.subrange(4, 4 + n) && rest@
            == bytes@.skip(4 + n),
{
    if let Ok((body, rest)) = res {
        let whole = bytes@.take(4) + body@ + rest@;
        assert(whole.subrange(4, 4 + n) =~= body@);
        assert(whole.skip(4 + n) =~= rest@);
    }
}

} // verus!
