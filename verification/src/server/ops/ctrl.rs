//! Handshake and ping.

use vstd::prelude::*;

use crate::common::frames::{
    HandshakeRequest, HandshakeResponse, PingRequest, PingResponse, OP_HANDSHAKE, OP_PING,
};
use crate::common::status::{status_code, Status};
use crate::common::trust::{cert_fingerprint, certificate_key, fingerprint};
use crate::path::{file_name, file_name_of, last_piece_start, strip_tail};
use crate::server::auth::{from_mtls_fingerprint, ClientIdentity};
use crate::text::{copy_of, lemma_filter_from, lemma_filter_push, lists_text, same_text, texts};

verus! {

/// Maximum chunk size that a client may ask for.
pub const MAX_CHUNK_SIZE: u32 = 4 * 1024 * 1024;

/// How long a peer may take to finish the handshake before its connection is dropped:
/// 10 seconds.
pub const HANDSHAKE_TIMEOUT_SECS: u64 = 10;

/// Why a handshake was refused.
#[derive(Debug, Clone, Copy, PartialEq, Eq, Structural)]
pub enum HandshakeError {
    /// The first request of a connection was not a handshake.
    NotAHandshake(u8),
    /// The chunk size exceeds the maximum.
    ChunkTooLarge(u32),
    /// The authentication scheme is not supported.
    UnsupportedAuth,
}

/// The fields of a handshake response.
pub open spec fn is_handshake_response(
    r: HandshakeResponse,
    seq: u64,
    status: Status,
    features: Seq<Seq<char>>,
    chunk_size: u32,
    server_id: Seq<char>,
    export_root: Seq<char>,
) -> bool {
    &&& r.op == OP_HANDSHAKE
    &&& r.seq == seq
    &&& r.status == status_code(status)
    &&& r.version == 1
    &&& texts(r.features@) == features
    &&& r.chunk_size == chunk_size
    &&& r.server_id@ == server_id
    &&& r.export_root@ == export_root
}

/// Why a handshake is refused, if it is: the chunk size is looked at first.
pub open spec fn handshake_refusal(chunk_size: u32, auth_type: Seq<char>) -> Option<HandshakeError> {
    if chunk_size > MAX_CHUNK_SIZE {
        Some(HandshakeError::ChunkTooLarge(chunk_size))
    } else if auth_type != "mtls"@ {
        Some(HandshakeError::UnsupportedAuth)
    } else {
        None
    }
}

/// The status that a refusal is answered with.
pub open spec fn refusal_status(e: HandshakeError) -> Status {
    match e {
        HandshakeError::UnsupportedAuth => Status::Permission,
        _ => Status::InvalidArg,
    }
}

/// The name under which an export is shown: that of its directory.
pub open spec fn display_name(export_root: Seq<char>) -> Seq<char> {
    match file_name(export_root) {
        Some(n) => n,
        None => "export"@,
    }
}

/// The features that both sides have, in the order that the client named them.
pub open spec fn negotiated(asked: Seq<Seq<char>>, supported: Seq<Seq<char>>) -> Seq<Seq<char>> {
    asked.filter(|f: Seq<char>| supported.contains(f))
}

/// Features that the server implements: none yet.
pub fn supported_features() -> (res: Vec<String>)
    ensures
        res@.len() == 0,
{
    Vec::new()
}

/// The features that both sides have.
pub fn negotiate(asked: &Vec<String>, supported: &Vec<String>) -> (res: Vec<String>)
    ensures
        texts(res@) == negotiated(texts(asked@), texts(supported@)),
{
    let ghost all = texts(asked@);
    let ghost keep = |f: Seq<char>| texts(supported@).contains(f);
    let mut out: Vec<String> = Vec::new();
    let mut i: usize = 0;
    proof {
        reveal(Seq::filter);
        assert(texts(out@) =~= all.take(0).filter(keep));
    }
    while i < asked.len()
        invariant
            i <= asked.len(),
            all == texts(asked@),
            keep == (|f: Seq<char>| texts(supported@).contains(f)),
            texts(out@) == all.take(i as int).filter(keep),
        decreases asked.len() - i,
    {
        let ghost before = texts(out@);
        proof {
            assert(all.take(i + 1) =~= all.take(i as int).push(all[i as int]));
            lemma_filter_push(all.take(i as int), all[i as int], keep);
        }
        if lists_text(supported, asked[i].as_str()) {
            out.push(copy_of(asked[i].as_str()));
            assert(texts(out@) =~= before.push(all[i as int]));
        }
        i = i + 1;
    }
    assert(all.take(i as int) =~= all);
    out
}

fn refusal(seq: u64, status: Status) -> (res: HandshakeResponse)
    ensures
        is_handshake_response(
            res,
            seq,
            status,
            Seq::empty(),
            0,
            Seq::empty(),
            Seq::empty(),
        ),
{
    let res = HandshakeResponse {
        op: OP_HANDSHAKE,
        seq,
        status: status.code(),
        version: 1,
        features: Vec::new(),
        chunk_size: 0,
        server_id: String::new(),
        export_root: String::new(),
    };
    assert(texts(res.features@) =~= Seq::empty());
    res
}

/// The first request of a connection must be a handshake; anything else ends it
/// without an answer.
pub fn check_handshake_op(op: u8) -> (res: Result<(), HandshakeError>)
    ensures
        match res {
            Ok(()) => op == OP_HANDSHAKE,
            Err(e) => op != OP_HANDSHAKE && e == HandshakeError::NotAHandshake(op),
        },
{
    if op != OP_HANDSHAKE {
        Err(HandshakeError::NotAHandshake(op))
    } else {
        Ok(())
    }
}

/// The fingerprint of a client's key, from the certificates that it presented, in DER:
/// that of the first one, where it can be read.
pub fn extract_mtls_fingerprint(certs: &Vec<Vec<u8>>) -> (res: Option<String>)
    ensures
        match res {
            Some(fp) => {
                &&& certs@.len() > 0
                &&& certificate_key(certs@[0]@) is Some
                &&& fp@ == fingerprint(certificate_key(certs@[0]@)->0)
            },
            None => certs@.len() == 0 || certificate_key(certs@[0]@) is None,
        },
{
    if certs.len() == 0 {
        return None;
    }
    match cert_fingerprint(certs[0].as_slice()) {
        Ok(fp) => Some(fp),
        Err(_) => None,
    }
}

/// Answer the handshake. `peer` is the fingerprint of the key that the client proved
/// to hold during the TLS handshake: it alone is the identity. A refusal is answered
/// before the connection ends.
pub fn handle_handshake(
    req: &HandshakeRequest,
    peer: Option<&str>,
    export_root: &str,
    server_id: &str,
) -> (res: (HandshakeResponse, Result<ClientIdentity, HandshakeError>))
    ensures
        match handshake_refusal(req.chunk_size, req.auth_type@) {
            Some(e) => {
                &&& res.1 == Err::<ClientIdentity, HandshakeError>(e)
                &&& is_handshake_response(
                    res.0,
                    req.seq,
                    refusal_status(e),
                    Seq::empty(),
                    0,
                    Seq::empty(),
                    Seq::empty(),
                )
            },
            None => {
                &&& res.1 matches Ok(id) && id.subject@ == (match peer {
                    Some(fp) => fp@,
                    None => "unknown"@,
                })
                &&& is_handshake_response(
                    res.0,
                    req.seq,
                    Status::Success,
                    Seq::empty(),
                    req.chunk_size,
                    server_id@,
                    display_name(export_root@),
                )
            },
        },
{
    if req.chunk_size > MAX_CHUNK_SIZE {
        return (
            refusal(req.seq, Status::InvalidArg),
            Err(HandshakeError::ChunkTooLarge(req.chunk_size)),
        );
    }
    if !same_text(req.auth_type.as_str(), "mtls") {
        return (refusal(req.seq, Status::Permission), Err(HandshakeError::UnsupportedAuth));
    }
    let subject = match peer {
        Some(fp) => fp,
        None => "unknown",
    };
    let identity = from_mtls_fingerprint(subject);
    let supported = supported_features();
    let features = negotiate(&req.features, &supported);
    proof {
        assert(texts(supported@) =~= Seq::empty());
        lemma_nothing_negotiated(texts(req.features@), texts(supported@));
    }
    let shown = match file_name_of(export_root) {
        Some(n) => n,
        None => copy_of("export"),
    };
    let resp = HandshakeResponse {
        op: OP_HANDSHAKE,
        seq: req.seq,
        status: Status::Success.code(),
        version: 1,
        features,
        chunk_size: req.chunk_size,
        server_id: copy_of(server_id),
        export_root: shown,
    };
    (resp, Ok(identity))
}

proof fn lemma_nothing_negotiated(asked: Seq<Seq<char>>, supported: Seq<Seq<char>>)
    requires
        supported.len() == 0,
    ensures
        negotiated(asked, supported) == Seq::<Seq<char>>::empty(),
    decreases asked.len(),
{
    reveal(Seq::filter);
    if asked.len() > 0 {
        lemma_nothing_negotiated(asked.drop_last(), supported);
    }
}

/// Answer a ping.
pub fn handle_ping(req: &PingRequest) -> (res: PingResponse)
    ensures
        res == (PingResponse { op: OP_PING, seq: req.seq, status: status_code(Status::Success) }),
{
    PingResponse { op: OP_PING, seq: req.seq, status: Status::Success.code() }
}

proof fn lemma_no_slash_behind_the_last(s: Seq<char>)
    ensures
        0 <= last_piece_start(s) <= s.len(),
        !s.skip(last_piece_start(s)).contains('/'),
    decreases s.len(),
{
    if s.len() > 0 && s.last() != '/' {
        let p = s.drop_last();
        lemma_no_slash_behind_the_last(p);
        let n = last_piece_start(p);
        let t = s.skip(n);
        assert forall|i: int| 0 <= i < t.len() implies t[i] != '/' by {
            if i < t.len() - 1 {
                assert(p.skip(n)[i] == t[i]);
                assert(p.skip(n).contains(t[i]));
            }
        }
    }
}

/// A client comes in exactly where it asks for chunks of no more than 4 MiB and for the
/// one scheme there is. It is known by the key that it proved to hold, whatever it calls
/// itself, and learns the name of the export, never its path. Anybody else is told no more
/// than 8 for the chunks or 2 for the scheme.
pub proof fn law_handshake_admits_by_the_key(
    req: HandshakeRequest,
    peer: Option<&str>,
    export_root: &str,
    server_id: &str,
    res: (HandshakeResponse, Result<ClientIdentity, HandshakeError>),
)
    requires
        call_ensures(handle_handshake, (&req, peer, export_root, server_id), res),
    ensures
        res.1 is Ok <==> req.chunk_size <= 4_194_304 && req.auth_type@ == "mtls"@,
        res.0.op == 0xF0 && res.0.seq == req.seq && res.0.version == 1,
        res.0.status == (if req.chunk_size > 4_194_304 {
            8
        } else if req.auth_type@ != "mtls"@ {
            2
        } else {
            0u8
        }),
        res.1 matches Ok(id) ==> {
            &&& peer matches Some(fp) ==> id.subject@ == fp@
            &&& peer is None ==> id.subject@ == "unknown"@
            &&& res.0.chunk_size == req.chunk_size
            &&& res.0.server_id@ == server_id@
            &&& file_name(export_root@) matches Some(n) ==> res.0.export_root@ == n
            &&& file_name(export_root@) is None ==> res.0.export_root@ == "export"@
        },
        res.0.features@.len() == 0,
        !res.0.export_root@.contains('/'),
        res.1 is Err ==> res.0.server_id@.len() == 0 && res.0.export_root@.len() == 0
            && res.0.chunk_size == 0,
{
    reveal_strlit("export");
    assert(texts(res.0.features@).len() == 0);
    let t = strip_tail(export_root@);
    lemma_no_slash_behind_the_last(t);
    assert(!"export"@.contains('/')) by {
        assert forall|i: int| 0 <= i < "export"@.len() implies "export"@[i] != '/' by {}
    }
}

/// What is negotiated are features that both sides named.
pub proof fn law_negotiated_features_are_shared(
    asked: Seq<Seq<char>>,
    supported: Seq<Seq<char>>,
    f: Seq<char>,
)
    ensures
        negotiated(asked, supported).contains(f) <==> asked.contains(f) && supported.contains(f),
{
    let keep = |g: Seq<char>| supported.contains(g);
    let both = negotiated(asked, supported);
    if both.contains(f) {
        let i = choose|i: int| 0 <= i < both.len() && both[i] == f;
        let k = lemma_filter_from(asked, keep, i);
        assert(asked[k] == f);
        assert(keep(f));
    }
    if asked.contains(f) && supported.contains(f) {
        let k = choose|k: int| 0 <= k < asked.len() && asked[k] == f;
        asked.lemma_filter_contains(keep, k);
    }
}

} // verus!
