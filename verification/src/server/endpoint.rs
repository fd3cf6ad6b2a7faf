//! Certificates and keys in PEM, and the transport values of a QUIC endpoint.

use vstd::prelude::*;

use crate::server::config::QuicSection;
use crate::time::Duration;

verus! {

/// The form that a private key is encoded in.
#[derive(Debug, Clone, Copy, PartialEq, Eq, Structural)]
pub enum KeyKind {
    Pkcs1,
    Sec1,
    Pkcs8,
    Other,
}

/// A private key.
pub struct PrivateKey {
    pub kind: KeyKind,
    pub der: Vec<u8>,
}

/// Why a PEM text gave no certificate or key.
#[derive(Debug, Clone, Copy, PartialEq, Eq, Structural)]
pub enum PemError {
    /// The text is malformed.
    Malformed,
    /// The text holds no certificate.
    NoCertificate,
    /// The text holds no private key.
    NoKey,
}

/// What `rustls-pemfile` finds of certificates in a PEM text, in order: each in DER,
/// or `None` for a section that it reports an error for.
pub uninterp spec fn pem_certificates(pem: Seq<char>) -> Seq<Option<Seq<u8>>>;

/// The first private key that `rustls-pemfile` finds in a PEM text, if any; `None`
/// where it reports an error.
pub uninterp spec fn pem_private_key(pem: Seq<char>) -> Option<Option<(KeyKind, Seq<u8>)>>;

/// The bytes of some certificates.
pub open spec fn ders(v: Seq<Vec<u8>>) -> Seq<Seq<u8>> {
    v.map_values(|d: Vec<u8>| d@)
}

/// The bytes of some sections.
pub open spec fn sections(v: Seq<Option<Vec<u8>>>) -> Seq<Option<Seq<u8>>> {
    v.map_values(
        |s: Option<Vec<u8>>|
            match s {
                Some(d) => Some(d@),
                None => None,
            },
    )
}

/// `rustls_pemfile::certs` over the whole text: every item that it yields, in order,
/// an error as `None`. It depends on the text alone.
#[verifier::external_body]
fn read_certs(pem: &str) -> (res: Vec<Option<Vec<u8>>>)
    ensures
        sections(res@) == pem_certificates(pem@),
{
    rustls_pemfile::certs(&mut pem.as_bytes()).map(|r| r.ok().map(|c| c.to_vec())).collect()
}

/// `rustls_pemfile::private_key`: the first key of the text, if any, or an error. It
/// depends on the text alone.
#[verifier::external_body]
fn read_private_key(pem: &str) -> (res: Option<Option<PrivateKey>>)
    ensures
        match res {
            Some(Some(k)) => pem_private_key(pem@) == Some(Some((k.kind, k.der@))),
            Some(None) => pem_private_key(pem@) == Some(None::<(KeyKind, Seq<u8>)>),
            None => pem_private_key(pem@) is None,
        },
{
    let found = rustls_pemfile::private_key(&mut pem.as_bytes()).ok()?;
    Some(found.map(|k| PrivateKey {
        kind: match &k {
            rustls::pki_types::PrivateKeyDer::Pkcs1(_) => KeyKind::Pkcs1,
            rustls::pki_types::PrivateKeyDer::Sec1(_) => KeyKind::Sec1,
            rustls::pki_types::PrivateKeyDer::Pkcs8(_) => KeyKind::Pkcs8,
            _ => KeyKind::Other,
        },
        der: k.secret_der().to_vec(),
    }))
}

/// All certificates of a text whose sections are `found`, or none where a section is
/// malformed.
pub open spec fn all_certs(found: Seq<Option<Seq<u8>>>) -> Option<Seq<Seq<u8>>> {
    if forall|i: int| 0 <= i < found.len() ==> (#[trigger] found[i]) is Some {
        Some(Seq::new(found.len(), |i: int| found[i]->0))
    } else {
        None
    }
}

/// The certificates among the sections that were found, where all of them are well
/// formed.
pub fn certs_found(found: Vec<Option<Vec<u8>>>) -> (res: Result<Vec<Vec<u8>>, PemError>)
    ensures
        match res {
            Ok(v) => all_certs(sections(found@)) == Some(ders(v@)),
            Err(e) => all_certs(sections(found@)) is None && e == PemError::Malformed,
        },
{
    let ghost all = sections(found@);
    let mut out: Vec<Vec<u8>> = Vec::new();
    let mut i: usize = 0;
    while i < found.len()
        invariant
            i <= found.len(),
            all == sections(found@),
            out@.len() == i,
            forall|j: int| 0 <= j < i ==> #[trigger] all[j] == Some(out@[j]@),
        decreases found.len() - i,
    {
        match &found[i] {
            Some(d) => {
                let c = d.clone();
                assert(c@ =~= d@);
                out.push(c);
            },
            None => {
                assert(all[i as int] is None);
                return Err(PemError::Malformed);
            },
        }
        i = i + 1;
    }
    assert(ders(out@) =~= Seq::new(all.len(), |i: int| all[i]->0));
    Ok(out)
}

/// Parse the certificates of a PEM text.
pub fn certs_from_pem(pem: &str) -> (res: Result<Vec<Vec<u8>>, PemError>)
    ensures
        match res {
            Ok(v) => all_certs(pem_certificates(pem@)) == Some(ders(v@)),
            Err(e) => all_certs(pem_certificates(pem@)) is None && e == PemError::Malformed,
        },
{
    certs_found(read_certs(pem))
}

/// The first of the sections that were found.
pub fn first_cert(found: &Vec<Option<Vec<u8>>>) -> (res: Result<Vec<u8>, PemError>)
    ensures
        match res {
            Ok(d) => found@.len() > 0 && found@[0] is Some && d@ == found@[0]->0@,
            Err(PemError::NoCertificate) => found@.len() == 0,
            Err(e) => e == PemError::Malformed && found@.len() > 0 && found@[0] is None,
        },
{
    if found.len() == 0 {
        return Err(PemError::NoCertificate);
    }
    match &found[0] {
        Some(d) => {
            let c = d.clone();
            assert(c@ =~= d@);
            Ok(c)
        },
        None => Err(PemError::Malformed),
    }
}

/// Parse the first certificate of a PEM text.
pub fn pem_to_der(pem: &str) -> (res: Result<Vec<u8>, PemError>)
    ensures
        ({
            let found = pem_certificates(pem@);
            if found.len() == 0 {
                res == Err::<Vec<u8>, PemError>(PemError::NoCertificate)
            } else {
                match found[0] {
                    Some(d) => res matches Ok(c) && c@ == d,
                    None => res == Err::<Vec<u8>, PemError>(PemError::Malformed),
                }
            }
        }),
{
    let found = read_certs(pem);
    assert(found@.len() > 0 ==> sections(found@)[0] == (match found@[0] {
        Some(d) => Some(d@),
        None => None,
    }));
    first_cert(&found)
}

/// The key that was found, where one was.
pub fn key_found(found: Option<Option<PrivateKey>>) -> (res: Result<PrivateKey, PemError>)
    ensures
        match found {
            Some(Some(k)) => res == Ok::<PrivateKey, PemError>(k),
            Some(None) => res == Err::<PrivateKey, PemError>(PemError::NoKey),
            None => res == Err::<PrivateKey, PemError>(PemError::Malformed),
        },
{
    match found {
        Some(Some(k)) => Ok(k),
        Some(None) => Err(PemError::NoKey),
        None => Err(PemError::Malformed),
    }
}

/// Parse the first private key of a PEM text.
pub fn key_from_pem(pem: &str) -> (res: Result<PrivateKey, PemError>)
    ensures
        match pem_private_key(pem@) {
            Some(Some((kind, der))) => res matches Ok(k) && k.kind == kind && k.der@ == der,
            Some(None) => res == Err::<PrivateKey, PemError>(PemError::NoKey),
            None => res == Err::<PrivateKey, PemError>(PemError::Malformed),
        },
{
    key_found(read_private_key(pem))
}

/// One more than the largest number that a QUIC variable-length integer holds.
pub const VARINT_LIMIT: u64 = 0x4000_0000_0000_0000;

/// The transport values of an endpoint. A value that a QUIC integer cannot hold is
/// left at the transport's default.
#[derive(Debug, Clone, Copy)]
pub struct TransportValues {
    pub max_concurrent_bidi_streams: u32,
    pub keep_alive_interval: Duration,
    pub max_idle_timeout_ms: Option<u64>,
    pub stream_receive_window: u32,
    pub receive_window: Option<u64>,
}

fn as_varint(v: u64) -> (res: Option<u64>)
    ensures
        res == (if v < VARINT_LIMIT {
            Some(v)
        } else {
            None
        }),
{
    if v < VARINT_LIMIT {
        Some(v)
    } else {
        None
    }
}

/// The transport values that a configuration asks for.
pub fn build_transport(cfg: &QuicSection) -> (res: TransportValues)
    ensures
        res.max_concurrent_bidi_streams == cfg.max_concurrent_bidi_streams,
        res.keep_alive_interval.nanos() == cfg.keep_alive_interval_ms * 1_000_000,
        res.max_idle_timeout_ms == (if cfg.idle_timeout_ms < VARINT_LIMIT {
            Some(cfg.idle_timeout_ms)
        } else {
            None
        }),
        res.stream_receive_window == cfg.stream_receive_window,
        res.receive_window == (if cfg.connection_receive_window < VARINT_LIMIT {
            Some(cfg.connection_receive_window)
        } else {
            None
        }),
{
    TransportValues {
        max_concurrent_bidi_streams: cfg.max_concurrent_bidi_streams,
        keep_alive_interval: Duration::from_millis(cfg.keep_alive_interval_ms),
        max_idle_timeout_ms: as_varint(cfg.idle_timeout_ms),
        stream_receive_window: cfg.stream_receive_window,
        receive_window: as_varint(cfg.connection_receive_window),
    }
}

/// The transport values of a client: its keep-alive is shorter than its idle
/// timeout, so an idle mount stays connected and a dead server is noticed soon.
pub fn client_transport() -> (res: (Duration, Duration))
    ensures
        res.0.nanos() == 4_000_000_000,
        res.1.nanos() == 12_000_000_000,
{
    (Duration::from_secs(4), Duration::from_secs(12))
}

/// A text gives its certificates all or not at all: with one malformed section there are
/// none, otherwise there are as many as sections, in their order.
pub proof fn law_certificates_are_taken_all_or_none(found: Seq<Option<Seq<u8>>>, i: int)
    requires
        0 <= i < found.len(),
    ensures
        found[i] is None ==> all_certs(found) is None,
        all_certs(found) matches Some(v) ==> v.len() == found.len() && found[i] == Some(v[i]),
        (forall|k: int| 0 <= k < found.len() ==> #[trigger] found[k] is Some) ==> all_certs(
            found,
        ) is Some,
{
}

/// The transport gets the values of the configuration, each under its own name. What a QUIC
/// integer, of 62 bits, cannot hold is left at the transport's default.
pub proof fn law_transport_follows_the_configuration(cfg: QuicSection, t: TransportValues)
    requires
        call_ensures(build_transport, (&cfg,), t),
    ensures
        t.max_concurrent_bidi_streams == cfg.max_concurrent_bidi_streams,
        t.stream_receive_window == cfg.stream_receive_window,
        t.keep_alive_interval.nanos() == cfg.keep_alive_interval_ms * 1_000_000,
        t.max_idle_timeout_ms is Some <==> cfg.idle_timeout_ms < 0x4000_0000_0000_0000,
        t.max_idle_timeout_ms matches Some(v) ==> v == cfg.idle_timeout_ms,
        t.receive_window is Some <==> cfg.connection_receive_window < 0x4000_0000_0000_0000,
        t.receive_window matches Some(v) ==> v == cfg.connection_receive_window,
{
}

} // verus!
