//! Persistent self-signed identity: a long-lived key and a certificate around it.
//!
//! The certificate exists only to carry the public key over TLS; the key is the
//! identity. Expiry means nothing under key pinning, so the certificate is valid
//! for a very long time and is never re-issued.

use vstd::prelude::*;

use crate::common::base64::{
    base64_decode, base64_decoded, base64_text, law_base64_alphabet, law_decoding_undoes_encoding,
    padded_text,
};
use crate::common::trust::{cert_fingerprint, certificate_key, fingerprint};
use crate::path::{join, join_path};
use crate::text::{
    chars_of, copy_of, find_at, find_from, is_space, is_whitespace, lemma_filter_push,
    lemma_find_at, occurs_at, string_of,
};

verus! {

/// Why there is no identity.
#[derive(Debug, Clone, Copy, PartialEq, Eq, Structural)]
pub enum IdentityError {
    /// The PEM text holds no certificate.
    NoCertificate,
    /// The certificate in the PEM text does not end.
    Unterminated,
    /// What stands between the markers is not base64.
    BadBase64,
    /// What stands between the markers is no X.509 certificate.
    BadCertificate,
    /// A key or a certificate could not be made.
    Generation,
}

/// A loaded identity: certificate and private key in PEM, and the key's fingerprint.
#[derive(Clone)]
pub struct Identity {
    pub cert_pem: String,
    pub key_pem: String,
    pub fingerprint: String,
}

/// The base64 text of the first certificate in a PEM text: what stands between its
/// markers, without the white space.
pub open spec fn first_cert_text(pem: Seq<char>) -> Result<Seq<char>, IdentityError> {
    let begin = "-----BEGIN CERTIFICATE-----"@;
    let end = "-----END CERTIFICATE-----"@;
    match find_at(pem, begin, 0) {
        None => Err(IdentityError::NoCertificate),
        Some(start) => match find_at(pem, end, start + begin.len()) {
            None => Err(IdentityError::Unterminated),
            Some(stop) => Ok(
                pem.subrange(start + begin.len(), stop).filter(|c: char| !is_whitespace(c)),
            ),
        },
    }
}

/// The fingerprint of the first certificate in a PEM text.
pub open spec fn pem_fingerprint(pem: Seq<char>) -> Result<Seq<char>, IdentityError> {
    match first_cert_text(pem) {
        Err(e) => Err(e),
        Ok(b64) => match base64_decoded(b64) {
            None => Err(IdentityError::BadBase64),
            Some(der) => match certificate_key(der) {
                None => Err(IdentityError::BadCertificate),
                Some(spki) => Ok(fingerprint(spki)),
            },
        },
    }
}

/// The name that a certificate is issued for: the common name where it can be a DNS
/// name, else `quicfs`.
pub open spec fn alt_name(common_name: Seq<char>) -> Seq<char> {
    if forall|i: int| 0 <= i < common_name.len() ==> is_dns_char(#[trigger] common_name[i]) {
        common_name
    } else {
        "quicfs"@
    }
}

pub open spec fn is_dns_char(c: char) -> bool {
    ||| 'a' <= c <= 'z'
    ||| 'A' <= c <= 'Z'
    ||| '0' <= c <= '9'
    ||| c == '-'
    ||| c == '.'
}

#[verifier::external_type_specification]
#[verifier::external_body]
pub struct ExRcgenError(rcgen::Error);

/// A day of the calendar.
#[derive(Clone, Copy, Debug, PartialEq, Eq, Structural)]
pub struct Day {
    pub year: i32,
    pub month: u8,
    pub day: u8,
}

impl Day {
    /// The day exists, whatever the month's length.
    pub open spec fn is_day(self) -> bool {
        2000 <= self.year <= 9999 && 1 <= self.month <= 12 && 1 <= self.day <= 28
    }
}

/// A fresh key and a certificate for it, both in PEM, by `rcgen`: `KeyPair::generate`,
/// `CertificateParams::new` and `CertificateParams::self_signed`. The key is random, so
/// nothing is claimed of the texts. `rcgen` panics on a day that does not exist.
#[verifier::external_body]
fn self_signed(alt_name: &str, common_name: &str, from: Day, until: Day) -> (res: Result<
    (String, String),
    rcgen::Error,
>)
    requires
        from.is_day(),
        until.is_day(),
{
    let key = rcgen::KeyPair::generate()?;
    let mut params = rcgen::CertificateParams::new(vec![alt_name.to_owned()])?;
    params.distinguished_name.push(rcgen::DnType::CommonName, common_name);
    params.not_before = rcgen::date_time_ymd(from.year, from.month, from.day);
    params.not_after = rcgen::date_time_ymd(until.year, until.month, until.day);
    let cert = params.self_signed(&key)?;
    Ok((cert.pem(), key.serialize_pem()))
}

/// `issued` is an outcome that issuing a certificate for these names and days may have:
/// the certificate and its key, or a failure.
pub closed spec fn may_issue(
    alt_name: Seq<char>,
    common_name: Seq<char>,
    from: Day,
    until: Day,
    issued: Result<(String, String), rcgen::Error>,
) -> bool {
    exists|a: &str, c: &str|
        a@ == alt_name && c@ == common_name && #[trigger] call_ensures(
            self_signed,
            (a, c, from, until),
            issued,
        )
}

/// The days between which certificates are valid. A pinned key does not expire, so they
/// lie far apart.
pub open spec fn valid_from() -> Day {
    Day { year: 2020, month: 1, day: 1 }
}

pub open spec fn valid_until() -> Day {
    Day { year: 4096, month: 1, day: 1 }
}

/// What becomes of the outcome of issuing a certificate: an identity with these very
/// texts, the fault of a certificate that cannot be read, or the failure to issue one.
pub open spec fn is_made_of(
    res: Result<Identity, IdentityError>,
    issued: Result<(String, String), rcgen::Error>,
) -> bool {
    match issued {
        Ok((cert_pem, key_pem)) => match res {
            Ok(id) => id.wf() && id.cert_pem == cert_pem && id.key_pem == key_pem,
            Err(e) => pem_fingerprint(cert_pem@) == Err::<Seq<char>, IdentityError>(e),
        },
        Err(_) => res == Err::<Identity, IdentityError>(IdentityError::Generation),
    }
}

fn alt_name_of(common_name: &str) -> (res: String)
    ensures
        res@ == alt_name(common_name@),
{
    let chars = chars_of(common_name);
    let mut i: usize = 0;
    while i < chars.len()
        invariant
            i <= chars.len(),
            chars@ == common_name@,
            forall|j: int| 0 <= j < i ==> is_dns_char(#[trigger] common_name@[j]),
        decreases chars.len() - i,
    {
        let c = chars[i];
        let fits = ('a' <= c && c <= 'z') || ('A' <= c && c <= 'Z') || ('0' <= c && c <= '9') || c
            == '-' || c == '.';
        if !fits {
            assert(!is_dns_char(common_name@[i as int]));
            return copy_of("quicfs");
        }
        i = i + 1;
    }
    copy_of(common_name)
}

/// The base64 text of the first certificate in a PEM text.
pub fn first_cert_base64(pem: &str) -> (res: Result<String, IdentityError>)
    ensures
        match res {
            Ok(t) => first_cert_text(pem@) == Ok::<Seq<char>, IdentityError>(t@),
            Err(e) => first_cert_text(pem@) == Err::<Seq<char>, IdentityError>(e),
        },
{
    let text = chars_of(pem);
    let begin = chars_of("-----BEGIN CERTIFICATE-----");
    let end = chars_of("-----END CERTIFICATE-----");
    let start: usize = match find_from(&text, &begin, 0) {
        Some(i) => i,
        None => {
            return Err(IdentityError::NoCertificate);
        },
    };
    let after: usize = start + begin.len();
    let stop: usize = match find_from(&text, &end, after) {
        Some(i) => i,
        None => {
            return Err(IdentityError::Unterminated);
        },
    };
    let ghost body = pem@.subrange(after as int, stop as int);
    let ghost keep = |c: char| !is_whitespace(c);
    let mut out: Vec<char> = Vec::new();
    let mut i: usize = after;
    proof {
        reveal(Seq::filter);
        assert(out@ =~= body.take(0).filter(keep));
    }
    while i < stop
        invariant
            after <= i <= stop <= text.len(),
            text@ == pem@,
            body == pem@.subrange(after as int, stop as int),
            keep == (|c: char| !is_whitespace(c)),
            out@ == body.take(i - after).filter(keep),
        decreases stop - i,
    {
        proof {
            assert(body.take(i + 1 - after) =~= body.take(i - after).push(body[i - after]));
            lemma_filter_push(body.take(i - after), body[i - after], keep);
        }
        if !is_space(text[i]) {
            out.push(text[i]);
        }
        i = i + 1;
    }
    assert(body.take(stop - after) =~= body);
    Ok(string_of(out.as_slice()))
}

/// Compute the key fingerprint of the first certificate in a PEM text.
pub fn fingerprint_of_pem(cert_pem: &str) -> (res: Result<String, IdentityError>)
    ensures
        match res {
            Ok(fp) => pem_fingerprint(cert_pem@) == Ok::<Seq<char>, IdentityError>(fp@),
            Err(e) => pem_fingerprint(cert_pem@) == Err::<Seq<char>, IdentityError>(e),
        },
{
    let b64 = match first_cert_base64(cert_pem) {
        Ok(t) => t,
        Err(e) => {
            return Err(e);
        },
    };
    let der = match base64_decode(b64.as_str()) {
        Some(d) => d,
        None => {
            return Err(IdentityError::BadBase64);
        },
    };
    match cert_fingerprint(der.as_slice()) {
        Ok(fp) => Ok(fp),
        Err(_) => Err(IdentityError::BadCertificate),
    }
}

impl Identity {
    /// The fingerprint is that of the certificate.
    pub open spec fn wf(&self) -> bool {
        pem_fingerprint(self.cert_pem@) == Ok::<Seq<char>, IdentityError>(self.fingerprint@)
    }

    /// The identity that a certificate and its key make.
    pub fn from_pem(cert_pem: String, key_pem: String) -> (res: Result<Self, IdentityError>)
        ensures
            match res {
                Ok(id) => id.wf() && id.cert_pem == cert_pem && id.key_pem == key_pem,
                Err(e) => pem_fingerprint(cert_pem@) == Err::<Seq<char>, IdentityError>(e),
            },
    {
        match fingerprint_of_pem(cert_pem.as_str()) {
            Ok(fingerprint) => Ok(Identity { cert_pem, key_pem, fingerprint }),
            Err(e) => Err(e),
        }
    }

    /// The identity that was issued, or why there is none: it could not be made, or what
    /// was made is no certificate.
    pub fn from_issued(issued: Result<(String, String), rcgen::Error>) -> (res: Result<
        Self,
        IdentityError,
    >)
        ensures
            is_made_of(res, issued),
    {
        match issued {
            Ok((cert_pem, key_pem)) => Self::from_pem(cert_pem, key_pem),
            Err(_) => Err(IdentityError::Generation),
        }
    }

    /// A fresh self-signed identity. A certificate is issued for the common name, and
    /// what came of that is returned as it is; the key is random, and issuing one may
    /// fail.
    pub fn generate(common_name: &str) -> (res: Result<Self, IdentityError>)
        ensures
            exists|issued: Result<(String, String), rcgen::Error>|
                #[trigger] may_issue(
                    alt_name(common_name@),
                    common_name@,
                    valid_from(),
                    valid_until(),
                    issued,
                ) && is_made_of(res, issued),
            res matches Ok(id) ==> id.wf(),
    {
        let alt = alt_name_of(common_name);
        let from = Day { year: 2020, month: 1, day: 1 };
        let until = Day { year: 4096, month: 1, day: 1 };
        let alt = alt.as_str();
        let issued = self_signed(alt, common_name, from, until);
        proof {
            assert(call_ensures(self_signed, (alt, common_name, from, until), issued));
            assert(from == valid_from() && until == valid_until());
            assert(may_issue(
                alt_name(common_name@),
                common_name@,
                valid_from(),
                valid_until(),
                issued,
            ));
        }
        Self::from_issued(issued)
    }

    /// The stored identity, where both the certificate and the key are there; a fresh
    /// one otherwise. Tells whether it is fresh, and so has to be stored.
    pub fn load_or_generate(
        cert_pem: Option<String>,
        key_pem: Option<String>,
        common_name: &str,
    ) -> (res: Result<(Self, bool), IdentityError>)
        ensures
            match res {
                Ok((id, fresh)) => {
                    &&& id.wf()
                    &&& fresh == (cert_pem is None || key_pem is None)
                    &&& !fresh ==> id.cert_pem == cert_pem->0 && id.key_pem == key_pem->0
                },
                Err(e) => cert_pem is Some && key_pem is Some ==> pem_fingerprint(cert_pem->0@)
                    == Err::<Seq<char>, IdentityError>(e),
            },
            cert_pem is None || key_pem is None ==> exists|
                issued: Result<(String, String), rcgen::Error>,
            |
                #[trigger] may_issue(
                    alt_name(common_name@),
                    common_name@,
                    valid_from(),
                    valid_until(),
                    issued,
                ) && match res {
                    Ok((id, _)) => is_made_of(Ok(id), issued),
                    Err(e) => is_made_of(Err(e), issued),
                },
    {
        match (cert_pem, key_pem) {
            (Some(cert), Some(key)) => match Self::from_pem(cert, key) {
                Ok(id) => Ok((id, false)),
                Err(e) => Err(e),
            },
            _ => match Self::generate(common_name) {
                Ok(id) => Ok((id, true)),
                Err(e) => Err(e),
            },
        }
    }
}

/// Where an identity called `name` is kept in a directory: certificate and key.
pub fn identity_files(dir: &str, name: &str) -> (res: (String, String))
    ensures
        res.0@ == join(dir@, name@ + ".crt"@),
        res.1@ == join(dir@, name@ + ".key"@),
{
    let cert = copy_of(name).concat(".crt");
    let key = copy_of(name).concat(".key");
    (join_path(dir, cert.as_str()), join_path(dir, key.as_str()))
}

/// A certificate is issued for the common name where a DNS name can have its characters,
/// and for `quicfs` otherwise: never for what no DNS name can be.
pub proof fn law_certificates_name_what_dns_can(common_name: Seq<char>, i: int)
    ensures
        (forall|k: int|
            0 <= k < common_name.len() ==> {
                ||| 'a' <= #[trigger] common_name[k] <= 'z'
                ||| 'A' <= common_name[k] <= 'Z'
                ||| '0' <= common_name[k] <= '9'
                ||| common_name[k] == '-'
                ||| common_name[k] == '.'
            }) ==> alt_name(common_name) == common_name,
        0 <= i < alt_name(common_name).len() ==> {
            let c = alt_name(common_name)[i];
            'a' <= c <= 'z' || 'A' <= c <= 'Z' || '0' <= c <= '9' || c == '-' || c == '.'
        },
        alt_name(common_name) == common_name || alt_name(common_name) == "quicfs"@,
{
    reveal_strlit("quicfs");
    if forall|k: int|
        0 <= k < common_name.len() ==> {
            ||| 'a' <= #[trigger] common_name[k] <= 'z'
            ||| 'A' <= common_name[k] <= 'Z'
            ||| '0' <= common_name[k] <= '9'
            ||| common_name[k] == '-'
            ||| common_name[k] == '.'
        } {
        assert forall|k: int| 0 <= k < common_name.len() implies is_dns_char(
            #[trigger] common_name[k],
        ) by {
            assert('a' <= common_name[k] <= 'z' || 'A' <= common_name[k] <= 'Z' || '0'
                <= common_name[k] <= '9' || common_name[k] == '-' || common_name[k] == '.');
        }
    }
}

/// Certificates are good from 2020 on and for longer than anybody keeps a pin.
pub proof fn law_certificates_outlive_their_pins()
    ensures
        valid_from() == (Day { year: 2020, month: 1, day: 1 }),
        valid_until() == (Day { year: 4096, month: 1, day: 1 }),
{
}

proof fn lemma_no_dash_no_marker(s: Seq<char>, pat: Seq<char>, from: int, to: int)
    requires
        0 <= from <= to <= s.len(),
        pat.len() > 0,
        pat[0] == '-',
        forall|i: int| from <= i < to ==> s[i] != '-',
        occurs_at(s, pat, to),
    ensures
        find_at(s, pat, from) == Some(to),
    decreases to - from,
{
    if from < to {
        if occurs_at(s, pat, from) {
            assert(s.subrange(from, from + pat.len())[0] == s[from]);
        }
        lemma_no_dash_no_marker(s, pat, from + 1, to);
    }
}

/// What stands between the markers of the first certificate is its text, white space aside,
/// whatever follows. Without a marker there is no certificate.
pub proof fn law_certificate_stands_between_its_markers(
    before: Seq<char>,
    body: Seq<char>,
    after: Seq<char>,
)
    requires
        !before.contains('-'),
        !body.contains('-'),
    ensures
        first_cert_text(
            before + ("-----BEGIN CERTIFICATE-----"@ + (body + ("-----END CERTIFICATE-----"@
                + after))),
        ) == Ok::<Seq<char>, IdentityError>(body.filter(|c: char| !is_whitespace(c))),
        first_cert_text(body) == Err::<Seq<char>, IdentityError>(IdentityError::NoCertificate),
{
    reveal_strlit("-----BEGIN CERTIFICATE-----");
    reveal_strlit("-----END CERTIFICATE-----");
    let begin = "-----BEGIN CERTIFICATE-----"@;
    let end = "-----END CERTIFICATE-----"@;
    let pem = before + (begin + (body + (end + after)));
    let start = before.len() as int;
    let stop = start + begin.len() + body.len();
    assert forall|i: int| 0 <= i < start implies pem[i] != '-' by {
        assert(before.contains(before[i]));
    }
    assert forall|i: int| start + begin.len() <= i < stop implies pem[i] != '-' by {
        assert(pem[i] == body[i - start - begin.len()]);
        assert(body.contains(body[i - start - begin.len()]));
    }
    assert(pem.subrange(start, start + begin.len()) =~= begin);
    assert(pem.subrange(stop, stop + end.len()) =~= end);
    lemma_no_dash_no_marker(pem, begin, 0, start);
    lemma_no_dash_no_marker(pem, end, start + begin.len(), stop);
    assert(pem.subrange(start + begin.len(), stop) =~= body);
    lemma_find_at(body, begin, 0);
    if find_at(body, begin, 0) is Some {
        let i = find_at(body, begin, 0)->0;
        assert(body.subrange(i, i + begin.len())[0] == begin[0]);
        assert(body.contains(body[i]));
    }
}

proof fn lemma_filter_all<A>(s: Seq<A>, f: spec_fn(A) -> bool)
    requires
        forall|i: int| 0 <= i < s.len() ==> f(#[trigger] s[i]),
    ensures
        s.filter(f) == s,
    decreases s.len(),
{
    reveal(Seq::filter);
    if s.len() > 0 {
        let t = s.drop_last();
        assert forall|i: int| 0 <= i < t.len() implies f(#[trigger] t[i]) by {
            assert(t[i] == s[i]);
        }
        lemma_filter_all(t, f);
        assert(f(s[s.len() - 1]));
        assert(t.push(s.last()) =~= s);
    }
}

/// A certificate in PEM is known by the fingerprint of the key that it holds.
pub proof fn law_certificate_is_known_by_its_key(der: Seq<u8>, before: Seq<char>, after: Seq<char>)
    requires
        !before.contains('-'),
        certificate_key(der) is Some,
    ensures
        pem_fingerprint(
            before + ("-----BEGIN CERTIFICATE-----"@ + (padded_text(der) + (
            "-----END CERTIFICATE-----"@ + after))),
        ) == Ok::<Seq<char>, IdentityError>(fingerprint(certificate_key(der)->0)),
{
    let body = padded_text(der);
    let keep = |c: char| !is_whitespace(c);
    assert forall|i: int| 0 <= i < body.len() implies keep(#[trigger] body[i]) && body[i]
        != '-' by {
        if i < base64_text(der).len() {
            law_base64_alphabet(der, i);
            assert(body[i] == base64_text(der)[i]);
        }
    }
    lemma_filter_all(body, keep);
    law_certificate_stands_between_its_markers(before, body, after);
    law_decoding_undoes_encoding(der);
}

/// What was issued becomes the identity as it is, where its certificate can be read. What
/// could not be issued is a failure to make one.
pub proof fn law_issued_texts_are_kept(
    issued: Result<(String, String), rcgen::Error>,
    res: Result<Identity, IdentityError>,
)
    requires
        call_ensures(Identity::from_issued, (issued,), res),
    ensures
        issued is Err ==> res == Err::<Identity, IdentityError>(IdentityError::Generation),
        issued matches Ok((cert, key)) ==> {
            &&& res is Ok <==> pem_fingerprint(cert@) is Ok
            &&& res matches Ok(id) ==> {
                &&& id.cert_pem == cert
                &&& id.key_pem == key
                &&& pem_fingerprint(cert@) == Ok::<Seq<char>, IdentityError>(id.fingerprint@)
            }
            &&& res matches Err(e) ==> pem_fingerprint(cert@) == Err::<
                Seq<char>,
                IdentityError,
            >(e)
        },
{
}

} // verus!
