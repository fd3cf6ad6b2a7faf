//! The client's side of the protocol: first contact, requests and what their answers
//! mean, chunking of writes, collection of reads and listings, and reconnection.

use vstd::prelude::*;
use vstd::slice::slice_subrange;

use crate::client::errno::{check_status, RpcError};
use crate::client::verify::PinMode;
use crate::common::frames::{
    GetAttrResponse, HandshakeRequest, HandshakeResponse, OpenResponse, ReadDirResponse,
    ReadLinkResponse, ReadResponse, SetAttrResponse, StatFsResponse, WriteRequest, WriteResponse,
    OP_HANDSHAKE, OP_WRITE,
};
use crate::common::stat::{DirEntry, Stat, StatFs};
use crate::common::status::{status_of_code, Status};
use crate::common::textmap::{in_order, map_of};
use crate::common::trust::{
    hosts_survive, hosts_text, is_host_pair, law_saved_hosts_read_back, parsed_hosts, KnownHosts,
};
use crate::image::{byte_at, coalesce, law_coalesce_keeps_image, same_image, Run};
use crate::text::{chars_of, copy_of, same_text, string_of, trim, trim_chars};
use crate::time::Duration;

verus! {

/// Deadline for any single operation, reconnects included: 30 seconds.
pub const RPC_TIMEOUT_SECS: u64 = 30;

// ── trust on first use ───────────────────────────────────────────────────────
/// What to do with a host whose key is not pinned yet.
#[derive(Clone, Copy, Debug, PartialEq, Eq, Structural)]
pub enum TofuPolicy {
    /// Ask the user on the terminal. Refuse where there is none.
    Prompt,
    /// Accept and pin a new key.
    AcceptNew,
    /// Never accept an unknown key.
    Strict,
}

/// What first contact with a key leads to.
#[derive(Clone, Copy, Debug, PartialEq, Eq, Structural)]
pub enum FirstContact {
    Accept,
    Refuse,
    Ask,
}

/// The decision on an unknown key, before the user is asked.
pub fn decide_first_contact(policy: TofuPolicy, has_terminal: bool) -> (res: FirstContact)
    ensures
        res == (match policy {
            TofuPolicy::Strict => FirstContact::Refuse,
            TofuPolicy::AcceptNew => FirstContact::Accept,
            TofuPolicy::Prompt => if has_terminal {
                FirstContact::Ask
            } else {
                FirstContact::Refuse
            },
        }),
{
    match policy {
        TofuPolicy::Strict => FirstContact::Refuse,
        TofuPolicy::AcceptNew => FirstContact::Accept,
        TofuPolicy::Prompt => if has_terminal {
            FirstContact::Ask
        } else {
            FirstContact::Refuse
        },
    }
}

/// What a line that the user typed means: `yes`, `no`, or ask again. The end of the
/// input means no.
pub fn prompt_answer(line: Option<&str>) -> (res: Option<bool>)
    ensures
        res == (match line {
            None => Some(false),
            Some(l) => if trim(l@) == "yes"@ {
                Some(true)
            } else if trim(l@) == "no"@ {
                Some(false)
            } else {
                None
            },
        }),
{
    proof {
        reveal_strlit("yes");
        reveal_strlit("no");
    }
    match line {
        None => Some(false),
        Some(l) => {
            let t = string_of(trim_chars(&chars_of(l)).as_slice());
            if same_text(t.as_str(), "yes") {
                Some(true)
            } else if same_text(t.as_str(), "no") {
                Some(false)
            } else {
                None
            }
        },
    }
}

/// Why a host's key was not accepted.
#[derive(Clone, Copy, Debug, PartialEq, Eq, Structural)]
pub enum TrustRefusal {
    /// The server presented no certificate.
    NoCertificate,
    /// The key was not accepted.
    NotAccepted,
}

/// How the connection to a host treats its key: a pinned one is enforced, an unknown
/// one captured.
pub open spec fn pin_of(known: Map<Seq<char>, Seq<char>>, host: Seq<char>) -> Option<Seq<char>> {
    if known.contains_key(host) {
        Some(known[host])
    } else {
        None
    }
}

pub fn pin_mode(known: &KnownHosts, host_key: &str) -> (res: PinMode)
    requires
        known.wf(),
    ensures
        match res {
            PinMode::Enforce(fp) => pin_of(known@, host_key@) == Some(fp@),
            PinMode::Capture => pin_of(known@, host_key@) is None,
        },
{
    match known.get(host_key) {
        Some(fp) => PinMode::Enforce(copy_of(fp)),
        None => PinMode::Capture,
    }
}

/// First contact with a host that has no pin is settled: an accepted key is pinned and
/// enforced from now on; a key that was refused, or none at all, changes nothing. Every
/// pin that was there before stays as it was. `accepted` is the decision, made by policy
/// or by the user.
pub fn settle_first_contact(
    known: &mut KnownHosts,
    host_key: &str,
    captured: Option<String>,
    accepted: bool,
) -> (res: Result<String, TrustRefusal>)
    requires
        old(known).wf(),
        pin_of(old(known)@, host_key@) is None,
    ensures
        final(known).wf(),
        final(known).file() == old(known).file(),
        forall|h: Seq<char>|
            #![trigger pin_of(final(known)@, h)]
            pin_of(old(known)@, h) is Some ==> pin_of(final(known)@, h) == pin_of(old(known)@, h),
        match captured {
            None => res == Err::<String, TrustRefusal>(TrustRefusal::NoCertificate)
                && final(known)@ == old(known)@,
            Some(fp) => if accepted {
                &&& res == Ok::<String, TrustRefusal>(fp)
                &&& final(known)@ == old(known)@.insert(host_key@, fp@)
                &&& pin_of(final(known)@, host_key@) == Some(fp@)
            } else {
                &&& res == Err::<String, TrustRefusal>(TrustRefusal::NotAccepted)
                &&& final(known)@ == old(known)@
            },
        },
{
    match captured {
        None => Err(TrustRefusal::NoCertificate),
        Some(fp) => {
            if !accepted {
                return Err(TrustRefusal::NotAccepted);
            }
            known.insert(host_key, fp.as_str());
            Ok(fp)
        },
    }
}

/// A key that was accepted on first contact is enforced from then on, also by a process
/// that reads the saved pins again.
pub proof fn law_accepted_key_stays_pinned(
    known: Map<Seq<char>, Seq<char>>,
    pairs: Seq<(Seq<char>, Seq<char>)>,
    host: Seq<char>,
    fp: Seq<char>,
)
    requires
        hosts_survive(known),
        is_host_pair((host, fp)),
        in_order(pairs),
        map_of(pairs) == known.insert(host, fp),
    ensures
        pin_of(known.insert(host, fp), host) == Some(fp),
        pin_of(parsed_hosts(hosts_text(pairs)), host) == Some(fp),
{
    law_saved_hosts_read_back(known.insert(host, fp), pairs);
}

// ── handshake ────────────────────────────────────────────────────────────────
/// `r` opens a connection: with the only scheme there is, and without optional features.
pub open spec fn opens_connection(r: HandshakeRequest, chunk_size: u32) -> bool {
    &&& r.op == OP_HANDSHAKE
    &&& r.seq == 1
    &&& r.version == 1
    &&& r.features@.len() == 0
    &&& r.chunk_size == chunk_size
    &&& r.auth_type@ == "mtls"@
}

/// The request that opens a connection. `client_id` is for the server's log.
pub fn handshake_request(client_id: String, chunk_size: u32) -> (res: HandshakeRequest)
    ensures
        opens_connection(res, chunk_size),
        res.client_id == client_id,
{
    HandshakeRequest {
        op: OP_HANDSHAKE,
        seq: 1,
        version: 1,
        client_id,
        features: Vec::new(),
        chunk_size,
        auth_type: copy_of("mtls"),
    }
}

pub fn check_handshake(resp: &HandshakeResponse) -> (res: Result<(), RpcError>)
    ensures
        match res {
            Ok(()) => resp.status == 0,
            Err(e) => resp.status != 0 && e == RpcError::HandshakeRejected(resp.status),
        },
{
    if resp.status != 0 {
        Err(RpcError::HandshakeRejected(resp.status))
    } else {
        Ok(())
    }
}

// ── answers ──────────────────────────────────────────────────────────────────
/// What an answer with attributes means: the attributes, the failure that it reports,
/// or a failure of its own where it reports success and lacks them.
pub open spec fn stat_or_error(status: u8, stat: Option<Stat>) -> Result<Stat, RpcError> {
    if status != 0 {
        Err(RpcError::Server(status_of_code(status)))
    } else {
        match stat {
            Some(s) => Ok(s),
            None => Err(RpcError::MissingStat),
        }
    }
}

fn stat_result(status: u8, stat: Option<Stat>) -> (res: Result<Stat, RpcError>)
    ensures
        res == stat_or_error(status, stat),
{
    match check_status(status) {
        Err(e) => Err(e),
        Ok(()) => match stat {
            Some(s) => Ok(s),
            None => Err(RpcError::MissingStat),
        },
    }
}

/// The answer to getattr, mkdir, symlink and link.
pub fn stat_of_response(resp: &GetAttrResponse) -> (res: Result<Stat, RpcError>)
    ensures
        res == stat_or_error(resp.status, resp.stat),
{
    stat_result(resp.status, resp.stat)
}

pub fn stat_of_setattr(resp: &SetAttrResponse) -> (res: Result<Stat, RpcError>)
    ensures
        res == stat_or_error(resp.status, resp.stat),
{
    stat_result(resp.status, resp.stat)
}

/// The answer to open and create: the handle and the attributes.
pub fn handle_of_response(resp: &OpenResponse) -> (res: Result<(u64, Stat), RpcError>)
    ensures
        match stat_or_error(resp.status, resp.stat) {
            Ok(s) => res == Ok::<(u64, Stat), RpcError>((resp.handle, s)),
            Err(e) => res == Err::<(u64, Stat), RpcError>(e),
        },
{
    match stat_result(resp.status, resp.stat) {
        Ok(s) => Ok((resp.handle, s)),
        Err(e) => Err(e),
    }
}

pub fn target_of_response(resp: ReadLinkResponse) -> (res: Result<String, RpcError>)
    ensures
        res == (if resp.status != 0 {
            Err::<String, RpcError>(RpcError::Server(status_of_code(resp.status)))
        } else {
            Ok::<String, RpcError>(resp.target)
        }),
{
    match check_status(resp.status) {
        Err(e) => Err(e),
        Ok(()) => Ok(resp.target),
    }
}

pub fn statfs_of_response(resp: &StatFsResponse) -> (res: Result<StatFs, RpcError>)
    ensures
        res == (if resp.status != 0 {
            Err::<StatFs, RpcError>(RpcError::Server(status_of_code(resp.status)))
        } else {
            match resp.statfs {
                Some(fs) => Ok(fs),
                None => Err(RpcError::MissingStatFs),
            }
        }),
{
    match check_status(resp.status) {
        Err(e) => Err(e),
        Ok(()) => match resp.statfs {
            Some(fs) => Ok(fs),
            None => Err(RpcError::MissingStatFs),
        },
    }
}

/// The answer to a write: the bytes that the server committed.
pub fn written_of_response(resp: &WriteResponse) -> (res: Result<u64, RpcError>)
    ensures
        res == (if resp.status != 0 {
            Err::<u64, RpcError>(RpcError::Server(status_of_code(resp.status)))
        } else {
            Ok::<u64, RpcError>(resp.written)
        }),
{
    match check_status(resp.status) {
        Err(e) => Err(e),
        Ok(()) => Ok(resp.written),
    }
}

// ── listings ─────────────────────────────────────────────────────────────────
/// A directory listing that is being collected page by page.
pub struct Listing {
    pub entries: Vec<DirEntry>,
    pub cursor: u64,
}

impl Listing {
    pub fn new() -> (res: Self)
        ensures
            res.entries@ == Seq::<DirEntry>::empty(),
            res.cursor == 0,
    {
        Listing { entries: Vec::new(), cursor: 0 }
    }

    /// A page came in: true when it was the last. A failure ends the listing.
    pub fn page(&mut self, resp: ReadDirResponse) -> (res: Result<bool, RpcError>)
        ensures
            if resp.status != 0 {
                &&& res == Err::<bool, RpcError>(RpcError::Server(status_of_code(resp.status)))
                &&& *final(self) == *old(self)
            } else {
                &&& res == Ok::<bool, RpcError>(resp.eof)
                &&& final(self).entries@ == old(self).entries@ + resp.entries@
                &&& final(self).cursor == resp.cursor
            },
    {
        match check_status(resp.status) {
            Err(e) => {
                return Err(e);
            },
            Ok(()) => {},
        }
        let mut more = resp.entries;
        self.entries.append(&mut more);
        self.cursor = resp.cursor;
        Ok(resp.eof)
    }
}

// ── reads ────────────────────────────────────────────────────────────────────
/// The data of a read that is being collected frame by frame.
pub struct ReadData {
    pub data: Vec<u8>,
}

impl ReadData {
    pub fn new() -> (res: Self)
        ensures
            res.data@ == Seq::<u8>::empty(),
    {
        ReadData { data: Vec::new() }
    }

    /// A frame came in: true when it was the last. A failure ends the read.
    pub fn frame(&mut self, resp: ReadResponse) -> (res: Result<bool, RpcError>)
        ensures
            if resp.status != 0 {
                &&& res == Err::<bool, RpcError>(RpcError::Server(status_of_code(resp.status)))
                &&& *final(self) == *old(self)
            } else {
                &&& res == Ok::<bool, RpcError>(resp.eof)
                &&& final(self).data@ == old(self).data@ + resp.data@
            },
    {
        match check_status(resp.status) {
            Err(e) => {
                return Err(e);
            },
            Ok(()) => {},
        }
        let mut more = resp.data;
        self.data.append(&mut more);
        Ok(resp.eof)
    }
}

// ── writes ───────────────────────────────────────────────────────────────────
/// How many frames a write takes: at least one, which says that the write is over.
pub open spec fn frame_count(len: int, chunk: int) -> int {
    if len == 0 {
        1
    } else {
        (len + chunk - 1) / chunk
    }
}

/// The bytes of the `i`-th frame.
pub open spec fn frame_data(data: Seq<u8>, chunk: int, i: int) -> Seq<u8> {
    data.subrange(
        i * chunk,
        if (i + 1) * chunk <= data.len() {
            (i + 1) * chunk
        } else {
            data.len() as int
        },
    )
}

/// The `i`-th of `n` frames.
pub open spec fn is_write_frame(
    f: WriteRequest,
    seq: u64,
    handle: u64,
    offset: int,
    data: Seq<u8>,
    chunk: int,
    i: int,
    n: int,
) -> bool {
    &&& f.op == OP_WRITE
    &&& f.seq == seq
    &&& f.handle == handle
    &&& f.offset == offset + i * chunk
    &&& f.data@ == frame_data(data, chunk, i)
    &&& f.done == (i + 1 == n)
}

/// What some frames write.
pub open spec fn frame_runs(frames: Seq<WriteRequest>) -> Seq<Run> {
    frames.map_values(|f: WriteRequest| Run { offset: f.offset as int, data: f.data@ })
}

/// The frames of a write: `data` in pieces of `chunk_size` bytes, the last one marked. A
/// write of nothing is one empty frame. A chunk size of zero counts as one.
pub fn write_frames(seq: u64, handle: u64, offset: u64, data: &[u8], chunk_size: u32) -> (res: Vec<
    WriteRequest,
>)
    requires
        offset + data@.len() <= u64::MAX,
    ensures
        ({
            let chunk = if chunk_size == 0 {
                1
            } else {
                chunk_size as int
            };
            let n = frame_count(data@.len() as int, chunk);
            &&& res@.len() == n
            &&& forall|i: int|
                0 <= i < n ==> is_write_frame(
                    #[trigger] res@[i],
                    seq,
                    handle,
                    offset as int,
                    data@,
                    chunk,
                    i,
                    n,
                )
        }),
{
    let chunk: usize = if chunk_size == 0 {
        1
    } else {
        chunk_size as usize
    };
    let len: usize = data.len();
    let ghost n = frame_count(len as int, chunk as int);
    let mut out: Vec<WriteRequest> = Vec::new();
    let mut at: usize = 0;
    if len == 0 {
        let empty: Vec<u8> = Vec::new();
        assert(0 * chunk == 0);
        assert((0 + 1) * chunk == chunk);
        assert(empty@ =~= frame_data(data@, chunk as int, 0));
        out.push(WriteRequest { op: OP_WRITE, seq, handle, offset, data: empty, done: true });
        return out;
    }
    proof {
        lemma_frame_count(len as int, chunk as int);
    }
    while at < len
        invariant
            len == data@.len(),
            0 < len,
            0 < chunk,
            chunk == (if chunk_size == 0 {
                1
            } else {
                chunk_size as int
            }),
            offset + data@.len() <= u64::MAX,
            n == frame_count(len as int, chunk as int),
            out@.len() <= n,
            at == (if out@.len() < n {
                out@.len() * chunk
            } else {
                len as int
            }),
            forall|i: int|
                0 <= i < out@.len() ==> is_write_frame(
                    #[trigger] out@[i],
                    seq,
                    handle,
                    offset as int,
                    data@,
                    chunk as int,
                    i,
                    n,
                ),
        decreases len - at,
    {
        let ghost i = out@.len() as int;
        let step: usize = if len - at > chunk {
            chunk
        } else {
            len - at
        };
        proof {
            lemma_frame_bounds(len as int, chunk as int, i);
            assert((i + 1) * chunk == i * chunk + chunk) by (nonlinear_arith);
        }
        let piece = vstd::slice::slice_to_vec(slice_subrange(data, at, at + step));
        let done = step == len - at;
        assert(piece@ =~= frame_data(data@, chunk as int, i));
        out.push(
            WriteRequest {
                op: OP_WRITE,
                seq,
                handle,
                offset: offset + (at as u64),
                data: piece,
                done,
            },
        );
        at = at + step;
        proof {
            lemma_frame_bounds(len as int, chunk as int, i + 1);
        }
    }
    proof {
        lemma_frame_bounds(len as int, chunk as int, out@.len() as int);
    }
    out
}

proof fn lemma_frame_count(len: int, chunk: int)
    requires
        0 < len,
        0 < chunk,
    ensures
        0 < frame_count(len, chunk),
        frame_count(len, chunk) * chunk >= len,
        frame_count(len, chunk) * chunk < len + chunk,
{
    let q = frame_count(len, chunk);
    vstd::arithmetic::div_mod::lemma_fundamental_div_mod(len + chunk - 1, chunk);
    assert(q * chunk == chunk * q) by (nonlinear_arith);
    assert(q > 0) by (nonlinear_arith)
        requires
            q * chunk >= len,
            len > 0,
            chunk > 0,
    ;
}

proof fn lemma_frame_bounds(len: int, chunk: int, i: int)
    requires
        0 < len,
        0 < chunk,
        0 <= i,
    ensures
        i < frame_count(len, chunk) <==> i * chunk < len,
        0 <= i * chunk,
        i + 1 == frame_count(len, chunk) <==> i * chunk < len <= (i + 1) * chunk,
{
    lemma_frame_count(len, chunk);
    let q = frame_count(len, chunk);
    assert(0 <= i * chunk) by (nonlinear_arith)
        requires
            0 <= i,
            0 < chunk,
    ;
    assert((i + 1) * chunk == i * chunk + chunk) by (nonlinear_arith);
    if i < q {
        assert(i * chunk <= (q - 1) * chunk) by (nonlinear_arith)
            requires
                i <= q - 1,
                0 < chunk,
        ;
        assert((q - 1) * chunk == q * chunk - chunk) by (nonlinear_arith);
    } else {
        assert(i * chunk >= q * chunk) by (nonlinear_arith)
            requires
                i >= q,
                0 < chunk,
        ;
    }
    if i + 1 < q {
        assert((i + 1) * chunk <= (q - 1) * chunk) by (nonlinear_arith)
            requires
                i + 1 <= q - 1,
                0 < chunk,
        ;
        assert((q - 1) * chunk == q * chunk - chunk) by (nonlinear_arith);
    }
    if i + 1 > q {
        assert(i * chunk >= q * chunk) by (nonlinear_arith)
            requires
                i >= q,
                0 < chunk,
        ;
    }
}

proof fn lemma_frames_coalesce(
    frames: Seq<WriteRequest>,
    seq: u64,
    handle: u64,
    offset: int,
    data: Seq<u8>,
    chunk: int,
    n: int,
    k: int,
)
    requires
        0 < chunk,
        data.len() > 0,
        n == frame_count(data.len() as int, chunk),
        frames.len() == n,
        0 < k <= n,
        forall|i: int|
            0 <= i < n ==> is_write_frame(
                #[trigger] frames[i],
                seq,
                handle,
                offset,
                data,
                chunk,
                i,
                n,
            ),
    ensures
        coalesce(frame_runs(frames).take(k)) == seq![
            Run {
                offset,
                data: data.take(
                    if k * chunk <= data.len() {
                        k * chunk
                    } else {
                        data.len() as int
                    },
                ),
            },
        ],
    decreases k,
{
    let runs = frame_runs(frames);
    let w = runs[k - 1];
    assert(is_write_frame(frames[k - 1], seq, handle, offset, data, chunk, k - 1, n));
    lemma_frame_bounds(data.len() as int, chunk, k - 1);
    assert((k - 1) * chunk + chunk == k * chunk) by (nonlinear_arith);
    assert(runs.take(k).drop_last() =~= runs.take(k - 1));
    assert(runs.take(k).last() == w);
    let end = if k * chunk <= data.len() {
        k * chunk
    } else {
        data.len() as int
    };
    if k == 1 {
        assert(runs.take(0) =~= Seq::empty());
        assert(0 * chunk == 0);
        assert(w.data =~= data.take(end));
        assert(coalesce(runs.take(0)) =~= Seq::empty());
        assert(coalesce(runs.take(1)) =~= seq![w]);
        assert(seq![w] =~= seq![Run { offset, data: data.take(end) }]);
    } else {
        lemma_frames_coalesce(frames, seq, handle, offset, data, chunk, n, k - 1);
        lemma_frame_bounds(data.len() as int, chunk, k - 2);
        let before = coalesce(runs.take(k - 1));
        assert(before.last().data =~= data.take((k - 1) * chunk));
        assert(before.last().end() == w.offset);
        assert(before.last().data + w.data =~= data.take(end));
        assert(coalesce(runs.take(k)) =~= seq![Run { offset, data: data.take(end) }]);
    }
}

/// The frames of a write put exactly its bytes at its offset: performed in order they
/// leave every file as the one write would. There is at least one, and the last, and no
/// other, says that it is the last.
pub proof fn law_frames_write_the_data(
    frames: Seq<WriteRequest>,
    seq: u64,
    handle: u64,
    offset: int,
    data: Seq<u8>,
    chunk: int,
)
    requires
        0 < chunk,
        frames.len() == frame_count(data.len() as int, chunk),
        forall|i: int|
            0 <= i < frames.len() ==> is_write_frame(
                #[trigger] frames[i],
                seq,
                handle,
                offset,
                data,
                chunk,
                i,
                frames.len() as int,
            ),
    ensures
        same_image(frame_runs(frames), seq![Run { offset, data }]),
        frames.len() > 0,
        forall|i: int|
            0 <= i < frames.len() ==> ((#[trigger] frames[i]).done <==> i + 1 == frames.len()),
{
    let runs = frame_runs(frames);
    let n = frames.len() as int;
    let one = seq![Run { offset, data }];
    if data.len() == 0 {
        assert(is_write_frame(frames[0], seq, handle, offset, data, chunk, 0, n));
        assert(0 * chunk == 0);
        assert((0 + 1) * chunk == chunk);
        assert(runs[0].data =~= data);
        assert(runs =~= one);
    } else {
        lemma_frame_count(data.len() as int, chunk);
        lemma_frames_coalesce(frames, seq, handle, offset, data, chunk, n, n);
        assert(runs.take(n) =~= runs);
        assert(data.take(data.len() as int) =~= data);
        law_coalesce_keeps_image(runs);
        assert(coalesce(runs) =~= one);
        assert forall|pos: int| byte_at(runs, pos) == byte_at(one, pos) by {
            assert(byte_at(coalesce(runs), pos) == byte_at(runs, pos));
        }
    }
}

// ── reconnection ─────────────────────────────────────────────────────────────
/// First delay between two attempts to reconnect, in milliseconds.
pub const BACKOFF_FIRST_MS: u64 = 100;

/// Largest delay between two attempts, jitter aside.
pub const BACKOFF_MAX_MS: u64 = 30_000;

/// Exponential backoff with a little jitter.
#[derive(Clone, Copy, Debug)]
pub struct Backoff {
    pub delay_ms: u64,
    pub attempt: u32,
}

impl Backoff {
    pub open spec fn wf(self) -> bool {
        BACKOFF_FIRST_MS <= self.delay_ms <= BACKOFF_MAX_MS
    }

    pub fn new() -> (res: Self)
        ensures
            res.wf(),
            res.delay_ms == BACKOFF_FIRST_MS,
            res.delay_ms == 100,
            res.attempt == 0,
    {
        Backoff { delay_ms: BACKOFF_FIRST_MS, attempt: 0 }
    }

    /// An attempt starts.
    pub fn begin(&mut self)
        ensures
            final(self).delay_ms == old(self).delay_ms,
            final(self).attempt == old(self).attempt.wrapping_add(1),
    {
        self.attempt = self.attempt.wrapping_add(1);
    }

    /// The attempt failed: how long to wait before the next. The delay doubles up to
    /// its maximum, and up to half of it is added.
    pub fn failed(&mut self) -> (res: Duration)
        requires
            old(self).wf(),
        ensures
            final(self).wf(),
            final(self).attempt == old(self).attempt,
            final(self).delay_ms == (if 2 * old(self).delay_ms > BACKOFF_MAX_MS {
                BACKOFF_MAX_MS as int
            } else {
                2 * old(self).delay_ms
            }),
            2 * old(self).delay_ms <= 30_000 ==> final(self).delay_ms == 2 * old(self).delay_ms,
            2 * old(self).delay_ms > 30_000 ==> final(self).delay_ms == 30_000,
            res.nanos() == (old(self).delay_ms + old(self).delay_ms as int / 4 * (
            old(self).attempt as int % 3)) * 1_000_000,
            100_000_000 <= res.nanos() <= 45_000_000_000,
    {
        let quarter: u64 = self.delay_ms / 4;
        let turn: u64 = (self.attempt % 3) as u64;
        assert(quarter * turn <= quarter * 2) by (nonlinear_arith)
            requires
                0 <= turn <= 2,
                0 <= quarter,
        ;
        assert(0 <= quarter * turn) by (nonlinear_arith)
            requires
                0 <= turn,
                0 <= quarter,
        ;
        let jitter: u64 = quarter * turn;
        let sleep = Duration::from_millis(self.delay_ms + jitter);
        self.delay_ms = if self.delay_ms * 2 > BACKOFF_MAX_MS {
            BACKOFF_MAX_MS
        } else {
            self.delay_ms * 2
        };
        sleep
    }
}

// ── laws of requests and answers ─────────────────────────────────────────────
/// The frames of a write all carry its number and go to its handle. They follow each other
/// without a gap from its offset on, each but the last is full, and the last, and no other,
/// ends the write.
pub proof fn law_frames_follow_each_other(
    seq: u64,
    handle: u64,
    offset: u64,
    data: &[u8],
    chunk_size: u32,
    res: Vec<WriteRequest>,
    i: int,
)
    requires
        chunk_size > 0,
        call_ensures(write_frames, (seq, handle, offset, data, chunk_size), res),
        0 <= i < res@.len(),
    ensures
        res@[i].op == 0x21 && res@[i].seq == seq && res@[i].handle == handle,
        res@[0].offset == offset,
        res@[i].data@.len() <= chunk_size,
        i + 1 < res@.len() ==> res@[i].data@.len() == chunk_size && res@[i + 1].offset
            == res@[i].offset + res@[i].data@.len(),
        i + 1 == res@.len() ==> res@[i].offset + res@[i].data@.len() == offset + data@.len(),
        res@[i].done <==> i + 1 == res@.len(),
{
    let chunk = chunk_size as int;
    let len = data@.len() as int;
    let n = frame_count(len, chunk);
    assert(0 * chunk == 0);
    assert((i + 1) * chunk == i * chunk + chunk) by (nonlinear_arith);
    assert(is_write_frame(res@[i], seq, handle, offset as int, data@, chunk, i, n));
    assert(is_write_frame(res@[0], seq, handle, offset as int, data@, chunk, 0, n));
    if len > 0 {
        lemma_frame_bounds(len, chunk, i);
        lemma_frame_bounds(len, chunk, i + 1);
    }
    if i + 1 < n {
        assert(is_write_frame(res@[i + 1], seq, handle, offset as int, data@, chunk, i + 1, n));
    }
}

/// An answer means success exactly where it reports it and carries what it promises; the
/// attributes are then those of the answer. A failure that it reports is the one that it
/// names.
pub proof fn law_answers_are_taken_at_their_word(status: u8, stat: Option<Stat>)
    ensures
        stat_or_error(status, stat) is Ok <==> status == 0 && stat is Some,
        stat_or_error(status, stat) matches Ok(s) ==> stat == Some(s),
        status == 1 ==> stat_or_error(status, stat) == Err::<Stat, RpcError>(
            RpcError::Server(Status::NotFound),
        ),
        status == 2 ==> stat_or_error(status, stat) == Err::<Stat, RpcError>(
            RpcError::Server(Status::Permission),
        ),
        status == 11 ==> stat_or_error(status, stat) == Err::<Stat, RpcError>(
            RpcError::Server(Status::Stale),
        ),
{
}

/// A connection is opened with the first number, for the one version and the one scheme
/// there are, and with the chunk size that was asked for.
pub proof fn law_connections_open_alike(client_id: String, chunk_size: u32, r: HandshakeRequest)
    requires
        call_ensures(handshake_request, (client_id, chunk_size), r),
    ensures
        r.op == 0xF0 && r.seq == 1 && r.version == 1,
        r.chunk_size == chunk_size,
        r.auth_type@ == "mtls"@,
        r.client_id == client_id,
        r.features@.len() == 0,
{
}

/// An unknown key is accepted unasked only where that was chosen, and the user is asked
/// only where there is a terminal and nothing else was chosen. All else is refused.
pub proof fn law_unknown_keys_need_consent(
    policy: TofuPolicy,
    has_terminal: bool,
    res: FirstContact,
)
    requires
        call_ensures(decide_first_contact, (policy, has_terminal), res),
    ensures
        res is Accept <==> policy is AcceptNew,
        res is Ask <==> policy is Prompt && has_terminal,
        policy is Strict ==> res is Refuse,
{
}

/// The key of a known host is enforced, that of any other is captured.
pub proof fn law_known_hosts_are_held_to_their_key(known: KnownHosts, host: &str, mode: PinMode)
    requires
        call_ensures(pin_mode, (&known, host), mode),
    ensures
        mode is Enforce <==> known@.contains_key(host@),
        mode matches PinMode::Enforce(fp) ==> fp@ == known@[host@],
{
}

} // verus!
