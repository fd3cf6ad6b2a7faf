//! Trust on first use: key fingerprints and the files that pin them.
//!
//! There is no certificate authority. A peer is its public key, named by the
//! SHA-256 fingerprint of the certificate's SubjectPublicKeyInfo, written like an
//! OpenSSH fingerprint: `SHA256:<base64, no padding>`. The client pins servers in
//! `known_hosts`; the server admits clients listed in `authorized_keys`.

use sha2::Digest;
use x509_parser::prelude::FromDer;

use vstd::prelude::*;

use crate::common::base64::{
    base64_decoded, base64_encode, base64_text, law_base64_alphabet, law_base64_is_injective,
    law_decoding_undoes_encoding, padded_text,
};
use crate::common::textmap::{in_order, lemma_map_of_pair, map_of, TextMap};
use crate::path::{join, join_path};
use crate::text::{
    byte_len, chars_of, copy_of, has_prefix, is_char, is_space, is_whitespace,
    law_trim_takes_the_ends_off, law_words_are_split_at_blanks,
    lemma_filter_first, lemma_filter_from, lemma_filter_push, lemma_filter_single,
    lemma_split_concat, lemma_split_first, lemma_split_lines, lemma_split_nonempty,
    lemma_split_pieces, lemma_split_single, lemma_trim_contains, lemma_trim_end_append,
    lemma_trim_ends, lemma_trim_fixed, lemma_trim_of_trim_end, lines_text, pieces, slice_of,
    split_by, split_chars, split_on, starts_with, string_of, trim, trim_chars, trim_end,
    trim_start, utf8_len, words, words_of,
};

verus! {

/// Why a certificate, a fingerprint or a directory was not accepted.
#[derive(Debug, Clone, Copy, PartialEq, Eq, Structural)]
pub enum TrustError {
    /// The bytes are no X.509 certificate.
    BadCertificate,
    /// The text is no `SHA256:` fingerprint.
    BadFingerprint,
    /// Neither a configuration nor a home directory is known.
    NoConfigDir,
}

// ── fingerprints ─────────────────────────────────────────────────────────────
/// The SHA-256 digest of some bytes.
pub uninterp spec fn sha256(data: Seq<u8>) -> Seq<u8>;

/// `Digest::digest` of `sha2::Sha256`: 32 bytes that depend on the input alone.
#[verifier::external_body]
fn sha256_digest(data: &[u8]) -> (res: Vec<u8>)
    ensures
        res@ == sha256(data@),
        res@.len() == 32,
{
    sha2::Sha256::digest(data).to_vec()
}

/// The SubjectPublicKeyInfo of a DER-encoded X.509 certificate, itself in DER;
/// none where the bytes do not parse.
pub uninterp spec fn certificate_key(der: Seq<u8>) -> Option<Seq<u8>>;

/// `X509Certificate::from_der` of `x509-parser`, and the raw SubjectPublicKeyInfo
/// of what it parsed. Parsing depends on the bytes alone; nothing is validated.
#[verifier::external_body]
fn certificate_spki(der: &[u8]) -> (res: Option<Vec<u8>>)
    ensures
        match res {
            Some(k) => certificate_key(der@) == Some(k@),
            None => certificate_key(der@) is None,
        },
{
    match x509_parser::certificate::X509Certificate::from_der(der) {
        Ok((_, cert)) => Some(cert.tbs_certificate.subject_pki.raw.to_vec()),
        Err(_) => None,
    }
}

/// The fingerprint of a key.
pub open spec fn fingerprint(spki: Seq<u8>) -> Seq<char> {
    "SHA256:"@ + base64_text(sha256(spki))
}

/// The text, its ends trimmed, looks like a fingerprint: the prefix, and at least
/// ten bytes behind it.
pub open spec fn is_fingerprint(s: Seq<char>) -> bool {
    has_prefix(trim(s), "SHA256:"@) && utf8_len(trim(s)) >= 17
}

/// Compute the SSH-style fingerprint of an X.509 certificate's public key.
pub fn cert_fingerprint(cert_der: &[u8]) -> (res: Result<String, TrustError>)
    ensures
        match res {
            Ok(fp) => certificate_key(cert_der@) is Some && fp@ == fingerprint(
                certificate_key(cert_der@)->0,
            ) && is_fingerprint(fp@) && trim(fp@) == fp@ && fp@.len() == 50,
            Err(e) => certificate_key(cert_der@) is None && e == TrustError::BadCertificate,
        },
{
    match certificate_spki(cert_der) {
        Some(spki) => Ok(fingerprint_of_spki(spki.as_slice())),
        None => Err(TrustError::BadCertificate),
    }
}

/// Fingerprint a raw SubjectPublicKeyInfo: 50 characters, without padding. What comes out
/// is always accepted by `parse_fingerprint`, which hands it back unchanged.
pub fn fingerprint_of_spki(spki_der: &[u8]) -> (res: String)
    ensures
        res@ == fingerprint(spki_der@),
        is_fingerprint(res@),
        trim(res@) == res@,
        res@.len() == 50,
        !res@.contains('='),
{
    let digest = sha256_digest(spki_der);
    proof {
        law_fingerprint_has_its_form(spki_der@);
    }
    let mut out = copy_of("SHA256:");
    out.append(base64_encode(digest.as_slice()).as_str());
    out
}

/// Two keys share a fingerprint only where their digests are the same.
pub proof fn law_fingerprint_names_digest(a: Seq<u8>, b: Seq<u8>)
    requires
        fingerprint(a) == fingerprint(b),
    ensures
        sha256(a) == sha256(b),
{
    reveal_strlit("SHA256:");
    let p = "SHA256:"@;
    assert((p + base64_text(sha256(a))).skip(p.len() as int) =~= base64_text(sha256(a)));
    assert((p + base64_text(sha256(b))).skip(p.len() as int) =~= base64_text(sha256(b)));
    law_base64_is_injective(sha256(a), sha256(b));
}

/// The fingerprint over a digest of 32 bytes looks like one, and has 50 characters, none
/// of which is padding.
pub proof fn law_fingerprint_has_its_form(spki: Seq<u8>)
    requires
        sha256(spki).len() == 32,
    ensures
        fingerprint(spki).len() == 50,
        has_prefix(fingerprint(spki), "SHA256:"@),
        !fingerprint(spki).contains('='),
        is_fingerprint(fingerprint(spki)),
        trim(fingerprint(spki)) == fingerprint(spki),
{
    reveal_strlit("SHA256:");
    let fp = fingerprint(spki);
    let p = "SHA256:"@;
    let b = base64_text(sha256(spki));
    assert(b.len() == 43);
    law_base64_alphabet(sha256(spki), 42);
    assert(fp[0] == 'S');
    assert(fp.last() == b[42]);
    lemma_trim_fixed(fp);
    assert(fp.subrange(0, p.len() as int) =~= p);
    assert forall|i: int| 0 <= i < fp.len() implies (fp[i] as int) < 128 && fp[i] != '=' by {
        if i >= 7 {
            law_base64_alphabet(sha256(spki), i - 7);
            assert(fp[i] == b[i - 7]);
        }
    }
    assert(vstd::utf8::is_ascii_chars(fp));
    vstd::utf8::is_ascii_chars_encode_utf8(fp);
}

/// Validate that a text looks like a `SHA256:...` fingerprint.
pub fn parse_fingerprint(s: &str) -> (res: Result<String, TrustError>)
    ensures
        match res {
            Ok(fp) => is_fingerprint(s@) && fp@ == trim(s@),
            Err(e) => !is_fingerprint(s@) && e == TrustError::BadFingerprint,
        },
{
    let t = trim_chars(&chars_of(s));
    let text = string_of(t.as_slice());
    let prefix = chars_of("SHA256:");
    if !starts_with(&t, &prefix) || byte_len(text.as_str()) < 17 {
        return Err(TrustError::BadFingerprint);
    }
    Ok(text)
}

// ── where the files lie ──────────────────────────────────────────────────────
/// The directory of per-user state: `custom` where it is set, else `quicfs` in the
/// configuration directory, else in the home directory.
pub fn config_dir(custom: Option<&str>, config: Option<&str>, home: Option<&str>) -> (res: Result<
    String,
    TrustError,
>)
    ensures
        match res {
            Ok(d) => if custom is Some {
                d@ == custom->0@
            } else if config is Some {
                d@ == join(config->0@, "quicfs"@)
            } else {
                home is Some && d@ == join(home->0@, "quicfs"@)
            },
            Err(e) => custom is None && config is None && home is None && e
                == TrustError::NoConfigDir,
        },
{
    if let Some(c) = custom {
        return Ok(copy_of(c));
    }
    match (config, home) {
        (Some(c), _) => Ok(join_path(c, "quicfs")),
        (None, Some(h)) => Ok(join_path(h, "quicfs")),
        (None, None) => Err(TrustError::NoConfigDir),
    }
}

// ── known_hosts ──────────────────────────────────────────────────────────────
/// The host and fingerprint that a line of `known_hosts` pins: its first two
/// words. Blank lines, comments and lines of one word pin nothing.
pub open spec fn host_line(line: Seq<char>) -> Option<(Seq<char>, Seq<char>)> {
    let t = trim(line);
    if t.len() == 0 || t[0] == '#' || words(t).len() < 2 {
        None
    } else {
        Some((words(t)[0], words(t)[1]))
    }
}

/// The pins of some lines; a later line overrides an earlier one.
pub open spec fn hosts_of(lines: Seq<Seq<char>>) -> Map<Seq<char>, Seq<char>>
    decreases lines.len(),
{
    if lines.len() == 0 {
        Map::empty()
    } else {
        match host_line(lines.last()) {
            Some((h, fp)) => hosts_of(lines.drop_last()).insert(h, fp),
            None => hosts_of(lines.drop_last()),
        }
    }
}

/// The pins of a `known_hosts` file.
pub open spec fn parsed_hosts(text: Seq<char>) -> Map<Seq<char>, Seq<char>> {
    hosts_of(split_on(text, '\n'))
}

/// The line that pins a host.
pub open spec fn host_entry(p: (Seq<char>, Seq<char>)) -> Seq<char> {
    p.0.push(' ') + p.1
}

/// The text of a `known_hosts` file.
pub open spec fn hosts_text(pairs: Seq<(Seq<char>, Seq<char>)>) -> Seq<char> {
    lines_text(
        seq!["# QuicFS known hosts - managed by quicfs, edit with care"@] + pairs.map_values(
            |p: (Seq<char>, Seq<char>)| host_entry(p),
        ),
    )
}

/// A nonempty text without white space.
pub open spec fn is_word(s: Seq<char>) -> bool {
    s.len() > 0 && forall|i: int| 0 <= i < s.len() ==> !is_whitespace(#[trigger] s[i])
}

/// A host and fingerprint that survive the file: two words, the first of which
/// does not look like a comment.
pub open spec fn is_host_pair(p: (Seq<char>, Seq<char>)) -> bool {
    is_word(p.0) && p.0[0] != '#' && is_word(p.1)
}

proof fn lemma_two_words(a: Seq<char>, b: Seq<char>)
    requires
        is_word(a),
        is_word(b),
    ensures
        words(a.push(' ') + b) == seq![a, b],
        trim(a.push(' ') + b) == a.push(' ') + b,
{
    let sep = |c: char| is_whitespace(c);
    let long = |w: Seq<char>| w.len() > 0;
    let s = a.push(' ') + b;
    assert(seq![a].push(b) == seq![a, b]);
    lemma_split_concat(a, ' ', b, sep);
    lemma_split_single(a, sep);
    lemma_split_single(b, sep);
    assert(seq![a] + seq![b] =~= seq![a].push(b));
    lemma_filter_push(seq![a], b, long);
    lemma_filter_single(a, long);
    assert(s[0] == a[0]);
    assert(s.last() == b[b.len() - 1]);
    lemma_trim_fixed(s);
}

proof fn lemma_host_entry_parses(p: (Seq<char>, Seq<char>))
    requires
        is_host_pair(p),
    ensures
        host_line(host_entry(p)) == Some(p),
        !host_entry(p).contains('\n'),
{
    lemma_two_words(p.0, p.1);
    let s = host_entry(p);
    assert(s[0] == p.0[0]);
    assert forall|i: int| 0 <= i < s.len() implies s[i] != '\n' by {
        if i < p.0.len() {
            assert(s[i] == p.0[i]);
        } else if i > p.0.len() {
            assert(s[i] == p.1[i - p.0.len() - 1]);
        }
    }
}

proof fn lemma_hosts_of_entries(head: Seq<char>, pairs: Seq<(Seq<char>, Seq<char>)>)
    requires
        host_line(head) is None,
        forall|i: int| 0 <= i < pairs.len() ==> is_host_pair(#[trigger] pairs[i]),
    ensures
        hosts_of(
            seq![head] + pairs.map_values(|p: (Seq<char>, Seq<char>)| host_entry(p)),
        ) == map_of(pairs),
    decreases pairs.len(),
{
    let f = |p: (Seq<char>, Seq<char>)| host_entry(p);
    let lines = seq![head] + pairs.map_values(f);
    if pairs.len() == 0 {
        assert(lines =~= seq![head]);
        assert(lines.drop_last() =~= Seq::empty());
        assert(hosts_of(lines.drop_last()) == Map::<Seq<char>, Seq<char>>::empty());
    } else {
        let p = pairs.drop_last();
        assert forall|i: int| 0 <= i < p.len() implies is_host_pair(#[trigger] p[i]) by {
            assert(p[i] == pairs[i]);
        }
        lemma_hosts_of_entries(head, p);
        assert(lines.drop_last() =~= seq![head] + p.map_values(f));
        assert(is_host_pair(pairs[pairs.len() - 1]));
        lemma_host_entry_parses(pairs.last());
        assert(lines.last() == host_entry(pairs.last()));
    }
}

proof fn lemma_comment_line(head: Seq<char>)
    requires
        head.len() > 0,
        head[0] == '#',
        !is_whitespace(head.last()),
    ensures
        trim(head) == head,
        host_line(head) is None,
        key_line(head) is None,
{
    lemma_trim_fixed(head);
}

proof fn lemma_blank_line()
    ensures
        host_line(Seq::empty()) is None,
        key_line(Seq::empty()) is None,
{
    lemma_trim_fixed(Seq::empty());
}

/// Every pin of a table survives the file.
pub open spec fn hosts_survive(m: Map<Seq<char>, Seq<char>>) -> bool {
    forall|h: Seq<char>| #[trigger] m.contains_key(h) ==> is_host_pair((h, m[h]))
}

/// A table with some pairs put into it, one after the other.
pub open spec fn with_pairs(
    m: Map<Seq<char>, Seq<char>>,
    added: Seq<(Seq<char>, Seq<char>)>,
) -> Map<Seq<char>, Seq<char>>
    decreases added.len(),
{
    if added.len() == 0 {
        m
    } else {
        with_pairs(m, added.drop_last()).insert(added.last().0, added.last().1)
    }
}

/// The words of a text are words, and a text that does not start with white space starts
/// with the first of them.
proof fn lemma_words(s: Seq<char>, i: int)
    requires
        0 <= i < words(s).len(),
    ensures
        is_word(words(s)[i]),
        s.len() > 0 && !is_whitespace(s[0]) ==> words(s)[0][0] == s[0],
{
    let sep = |c: char| is_whitespace(c);
    let long = |w: Seq<char>| w.len() > 0;
    let all = split_by(s, sep);
    let k = lemma_filter_from(all, long, i);
    assert forall|j: int| 0 <= j < words(s)[i].len() implies !is_whitespace(
        #[trigger] words(s)[i][j],
    ) by {
        lemma_split_pieces(s, sep, k, j);
    }
    if s.len() > 0 && !is_whitespace(s[0]) {
        lemma_split_nonempty(s, sep);
        lemma_split_first(s, sep);
        lemma_filter_first(all, long);
    }
}

proof fn lemma_hosts_of_survive(lines: Seq<Seq<char>>)
    ensures
        hosts_survive(hosts_of(lines)),
    decreases lines.len(),
{
    if lines.len() > 0 {
        lemma_hosts_of_survive(lines.drop_last());
        let line = lines.last();
        if host_line(line) is Some {
            let t = trim(line);
            lemma_trim_ends(line);
            lemma_words(t, 0);
            lemma_words(t, 1);
        }
    }
}

/// Whatever a file holds, the pins that are loaded from it survive being saved.
pub proof fn law_loaded_hosts_survive(text: Seq<char>)
    ensures
        hosts_survive(parsed_hosts(text)),
{
    lemma_hosts_of_survive(split_on(text, '\n'));
}

/// A table whose pins survive the file is loaded as it was saved.
pub proof fn law_saved_hosts_read_back(
    m: Map<Seq<char>, Seq<char>>,
    pairs: Seq<(Seq<char>, Seq<char>)>,
)
    requires
        in_order(pairs),
        map_of(pairs) == m,
        hosts_survive(m),
    ensures
        parsed_hosts(hosts_text(pairs)) == m,
{
    assert forall|i: int| 0 <= i < pairs.len() implies is_host_pair(#[trigger] pairs[i]) by {
        lemma_map_of_pair(pairs, i);
        assert(m.contains_key(pairs[i].0));
    }
    law_known_hosts_roundtrip(pairs);
}

/// Load, pin, save, load: the pins are those of the first file and the ones that were
/// added, whatever the first file held.
pub proof fn law_pins_survive_save_and_load(
    text: Seq<char>,
    added: Seq<(Seq<char>, Seq<char>)>,
    pairs: Seq<(Seq<char>, Seq<char>)>,
)
    requires
        forall|i: int| 0 <= i < added.len() ==> is_host_pair(#[trigger] added[i]),
        in_order(pairs),
        map_of(pairs) == with_pairs(parsed_hosts(text), added),
    ensures
        parsed_hosts(hosts_text(pairs)) == with_pairs(parsed_hosts(text), added),
{
    law_loaded_hosts_survive(text);
    lemma_added_hosts_survive(parsed_hosts(text), added);
    law_saved_hosts_read_back(with_pairs(parsed_hosts(text), added), pairs);
}

proof fn lemma_added_hosts_survive(
    m: Map<Seq<char>, Seq<char>>,
    added: Seq<(Seq<char>, Seq<char>)>,
)
    requires
        hosts_survive(m),
        forall|i: int| 0 <= i < added.len() ==> is_host_pair(#[trigger] added[i]),
    ensures
        hosts_survive(with_pairs(m, added)),
    decreases added.len(),
{
    if added.len() > 0 {
        let p = added.drop_last();
        assert forall|i: int| 0 <= i < p.len() implies is_host_pair(#[trigger] p[i]) by {
            assert(p[i] == added[i]);
        }
        lemma_added_hosts_survive(m, p);
        assert(is_host_pair(added[added.len() - 1]));
    }
}

/// What is saved is what is loaded: the pins of a file that was written from a
/// list of pins are those pins.
pub proof fn law_known_hosts_roundtrip(pairs: Seq<(Seq<char>, Seq<char>)>)
    requires
        forall|i: int| 0 <= i < pairs.len() ==> is_host_pair(#[trigger] pairs[i]),
    ensures
        parsed_hosts(hosts_text(pairs)) == map_of(pairs),
{
    let head = "# QuicFS known hosts - managed by quicfs, edit with care"@;
    reveal_strlit("# QuicFS known hosts - managed by quicfs, edit with care");
    let f = |p: (Seq<char>, Seq<char>)| host_entry(p);
    let lines = seq![head] + pairs.map_values(f);
    assert forall|i: int| 0 <= i < lines.len() implies !(#[trigger] lines[i]).contains('\n') by {
        if i > 0 {
            assert(is_host_pair(pairs[i - 1]));
            lemma_host_entry_parses(pairs[i - 1]);
            assert(lines[i] == host_entry(pairs[i - 1]));
        }
    }
    lemma_split_lines(lines);
    lemma_comment_line(head);
    lemma_blank_line();
    lemma_hosts_of_entries(head, pairs);
    assert(lines.push(Seq::empty()).drop_last() =~= lines);
}

/// A `known_hosts` file: `host:port` and the fingerprint pinned for it.
#[derive(Debug)]
pub struct KnownHosts {
    path: String,
    entries: TextMap,
}

impl KnownHosts {
    /// The pins.
    pub closed spec fn view(&self) -> Map<Seq<char>, Seq<char>> {
        self.entries@
    }

    /// The pins in the order in which they are saved.
    pub closed spec fn pairs(&self) -> Seq<(Seq<char>, Seq<char>)> {
        self.entries.pairs()
    }

    pub closed spec fn file(&self) -> Seq<char> {
        self.path@
    }

    /// The pins are in order, each host once.
    pub open spec fn wf(&self) -> bool {
        in_order(self.pairs()) && self@ == map_of(self.pairs())
    }

    /// Where the file lies in the configuration directory.
    pub fn default_path(config_dir: &str) -> (res: String)
        ensures
            res@ == join(config_dir@, "known_hosts"@),
    {
        join_path(config_dir, "known_hosts")
    }

    /// The pins of the file at `path`, given its text; none where it does not exist.
    pub fn load(path: &str, text: Option<&str>) -> (res: Self)
        ensures
            res.wf(),
            res.file() == path@,
            res@ == (match text {
                Some(t) => parsed_hosts(t@),
                None => Map::<Seq<char>, Seq<char>>::empty(),
            }),
            hosts_survive(res@),
    {
        proof {
            if text is Some {
                law_loaded_hosts_survive(text->0@);
            }
        }
        let mut entries = TextMap::new();
        if let Some(t) = text {
            let lines = split_chars(&chars_of(t), '\n');
            let ghost all = pieces(lines@);
            let mut i: usize = 0;
            assert(all.take(0) =~= Seq::empty());
            while i < lines.len()
                invariant
                    i <= lines.len(),
                    all == pieces(lines@),
                    entries.wf(),
                    entries@ == hosts_of(all.take(i as int)),
                decreases lines.len() - i,
            {
                proof {
                    assert(all.take(i + 1).drop_last() =~= all.take(i as int));
                    assert(all.take(i + 1).last() == lines@[i as int]@);
                }
                let line = trim_chars(&lines[i]);
                if line.len() > 0 && line[0] != '#' {
                    let parts = words_of(&line);
                    if parts.len() >= 2 {
                        assert(pieces(parts@)[0] == parts@[0]@);
                        assert(pieces(parts@)[1] == parts@[1]@);
                        let host = string_of(parts[0].as_slice());
                        let fp = string_of(parts[1].as_slice());
                        entries.insert(host.as_str(), fp.as_str());
                    }
                }
                i = i + 1;
            }
            assert(all.take(i as int) =~= all);
        }
        KnownHosts { path: copy_of(path), entries }
    }

    /// Where the file lies.
    pub fn path(&self) -> (res: &str)
        ensures
            res@ == self.file(),
    {
        self.path.as_str()
    }

    /// The pinned fingerprint for `host:port`, if any.
    pub fn get(&self, hostport: &str) -> (res: Option<&str>)
        requires
            self.wf(),
        ensures
            match res {
                Some(fp) => self@.contains_key(hostport@) && fp@ == self@[hostport@],
                None => !self@.contains_key(hostport@),
            },
    {
        self.entries.get(hostport)
    }

    /// Pin a fingerprint for `host:port`.
    pub fn insert(&mut self, hostport: &str, fingerprint: &str)
        requires
            old(self).wf(),
        ensures
            final(self).wf(),
            final(self).file() == old(self).file(),
            final(self)@ == old(self)@.insert(hostport@, fingerprint@),
            hosts_survive(old(self)@) && is_host_pair((hostport@, fingerprint@)) ==> hosts_survive(
                final(self)@,
            ),
    {
        self.entries.insert(hostport, fingerprint);
    }

    /// The text to save. Loading it gives the same pins.
    pub fn save(&self) -> (res: String)
        ensures
            res@ == hosts_text(self.pairs()),
            self.wf() && hosts_survive(self@) ==> parsed_hosts(res@) == self@,
    {
        proof {
            if self.wf() && hosts_survive(self@) {
                law_saved_hosts_read_back(self@, self.pairs());
            }
        }
        let mut out = copy_of("# QuicFS known hosts - managed by quicfs, edit with care");
        out.push('\n');
        let ghost head = "# QuicFS known hosts - managed by quicfs, edit with care"@;
        let ghost f = |p: (Seq<char>, Seq<char>)| host_entry(p);
        let ghost all = seq![head] + self.pairs().map_values(f);
        let mut i: usize = 0;
        proof {
            assert(all.take(1) =~= seq![head]);
            assert(seq![head].drop_last() =~= Seq::empty());
            assert(lines_text(Seq::empty()) =~= Seq::empty());
            assert(out@ =~= lines_text(all.take(1)));
        }
        while i < self.entries.len()
            invariant
                i <= self.pairs().len(),
                f == (|p: (Seq<char>, Seq<char>)| host_entry(p)),
                all == seq![head] + self.pairs().map_values(f),
                out@ == lines_text(all.take(i + 1)),
            decreases self.pairs().len() - i,
        {
            let (host, fp) = self.entries.entry(i);
            let ghost before = out@;
            out.append(host);
            out.push(' ');
            out.append(fp);
            out.push('\n');
            proof {
                assert(all.take(i + 2).drop_last() =~= all.take(i + 1));
                assert(all.take(i + 2).last() == host_entry(self.pairs()[i as int]));
                assert(out@ =~= before + host_entry((host@, fp@)).push('\n'));
            }
            i = i + 1;
        }
        assert(all.take(i + 1) =~= all);
        out
    }
}

// ── authorized_keys ──────────────────────────────────────────────────────────
/// Where the first white space of a text stands; behind its end where it has none.
pub open spec fn first_space(s: Seq<char>) -> int
    decreases s.len(),
{
    if s.len() == 0 || is_whitespace(s[0]) {
        0
    } else {
        1 + first_space(s.drop_first())
    }
}

/// The fingerprint and the comment of a line of `authorized_keys`: its first word,
/// and what follows it with the ends trimmed. Blank lines and comments have none.
pub open spec fn key_line(line: Seq<char>) -> Option<(Seq<char>, Seq<char>)> {
    let t = trim(line);
    let n = first_space(t);
    if t.len() == 0 || t[0] == '#' {
        None
    } else if n >= t.len() {
        Some((t, Seq::empty()))
    } else {
        Some((t.take(n), trim(t.skip(n + 1))))
    }
}

/// The keys of some lines; a later line overrides an earlier one.
pub open spec fn keys_of(lines: Seq<Seq<char>>) -> Map<Seq<char>, Seq<char>>
    decreases lines.len(),
{
    if lines.len() == 0 {
        Map::empty()
    } else {
        match key_line(lines.last()) {
            Some((fp, comment)) => keys_of(lines.drop_last()).insert(fp, comment),
            None => keys_of(lines.drop_last()),
        }
    }
}

/// The keys of an `authorized_keys` file.
pub open spec fn parsed_keys(text: Seq<char>) -> Map<Seq<char>, Seq<char>> {
    keys_of(split_on(text, '\n'))
}

/// The line that authorizes a key.
pub open spec fn key_entry(p: (Seq<char>, Seq<char>)) -> Seq<char> {
    if p.1.len() == 0 {
        p.0
    } else {
        p.0.push(' ') + p.1
    }
}

/// The text of an `authorized_keys` file.
pub open spec fn keys_text(pairs: Seq<(Seq<char>, Seq<char>)>) -> Seq<char> {
    lines_text(
        seq!["# QuicFS authorized client keys"@] + pairs.map_values(
            |p: (Seq<char>, Seq<char>)| key_entry(p),
        ),
    )
}

/// A key that survives the file: a word that does not look like a comment, with a comment
/// of one line. Of the comment, white space at its ends does not survive.
pub open spec fn is_key_pair(p: (Seq<char>, Seq<char>)) -> bool {
    is_word(p.0) && p.0[0] != '#' && !p.1.contains('\n')
}

/// Every key of a table survives the file.
pub open spec fn keys_survive(m: Map<Seq<char>, Seq<char>>) -> bool {
    forall|k: Seq<char>| #[trigger] m.contains_key(k) ==> is_key_pair((k, m[k]))
}

/// The keys with their comments trimmed.
pub open spec fn trimmed(pairs: Seq<(Seq<char>, Seq<char>)>) -> Seq<(Seq<char>, Seq<char>)> {
    pairs.map_values(|p: (Seq<char>, Seq<char>)| (p.0, trim(p.1)))
}

proof fn lemma_first_space_of_word(a: Seq<char>, rest: Seq<char>)
    requires
        forall|i: int| 0 <= i < a.len() ==> !is_whitespace(#[trigger] a[i]),
        rest.len() == 0 || is_whitespace(rest[0]),
    ensures
        first_space(a + rest) == a.len(),
    decreases a.len(),
{
    if a.len() == 0 {
        assert(a + rest =~= rest);
    } else {
        assert((a + rest).drop_first() =~= a.drop_first() + rest);
        assert((a + rest)[0] == a[0]);
        assert forall|i: int| 0 <= i < a.drop_first().len() implies !is_whitespace(
            #[trigger] a.drop_first()[i],
        ) by {
            assert(a.drop_first()[i] == a[i + 1]);
        }
        lemma_first_space_of_word(a.drop_first(), rest);
    }
}

proof fn lemma_key_entry_parses(p: (Seq<char>, Seq<char>))
    requires
        is_key_pair(p),
    ensures
        key_line(key_entry(p)) == Some((p.0, trim(p.1))),
        !key_entry(p).contains('\n'),
{
    let s = key_entry(p);
    let e = Seq::<char>::empty();
    assert(s[0] == p.0[0]);
    assert(p.0 + e =~= p.0);
    lemma_first_space_of_word(p.0, e);
    lemma_trim_fixed(e);
    lemma_trim_fixed(p.0);
    assert(!is_whitespace(p.0[p.0.len() - 1]));
    if p.1.len() == 0 {
        assert(p.1 =~= e);
        assert forall|i: int| 0 <= i < s.len() implies s[i] != '\n' by {
            assert(s[i] == p.0[i]);
        }
    } else {
        let head = p.0.push(' ');
        let tail = trim_end(p.1);
        assert(s =~= head + p.1);
        lemma_trim_end_append(head, p.1);
        lemma_trim_of_trim_end(p.1);
        assert(trim_start(s) == s);
        if tail.len() == 0 {
            assert(tail =~= e);
            assert(head.drop_last() =~= p.0);
            assert(trim_end(head) == trim_end(p.0));
            assert(trim(s) == p.0);
        } else {
            let t = head + tail;
            assert(trim(s) == t);
            let rest = seq![' '] + tail;
            assert(t =~= p.0 + rest);
            lemma_first_space_of_word(p.0, rest);
            assert(t.take(p.0.len() as int) =~= p.0);
            assert(t.skip(p.0.len() as int + 1) =~= tail);
        }
        assert forall|i: int| 0 <= i < s.len() implies s[i] != '\n' by {
            if i < p.0.len() {
                assert(s[i] == p.0[i]);
            } else if i > p.0.len() {
                assert(p.1.contains(p.1[i - p.0.len() - 1]));
                assert(s[i] == p.1[i - p.0.len() - 1]);
            }
        }
    }
}

/// The first white space of a text has none before it.
proof fn lemma_first_space(s: Seq<char>)
    ensures
        0 <= first_space(s) <= s.len(),
        forall|i: int| 0 <= i < first_space(s) ==> !is_whitespace(#[trigger] s[i]),
    decreases s.len(),
{
    if s.len() > 0 && !is_whitespace(s[0]) {
        let t = s.drop_first();
        lemma_first_space(t);
        assert forall|i: int| 0 <= i < first_space(s) implies !is_whitespace(#[trigger] s[i]) by {
            if i > 0 {
                assert(s[i] == t[i - 1]);
            }
        }
    }
}

proof fn lemma_key_line(line: Seq<char>)
    requires
        !line.contains('\n'),
    ensures
        key_line(line) matches Some(p) ==> is_key_pair(p),
{
    let t = trim(line);
    let n = first_space(t);
    lemma_trim_ends(line);
    lemma_trim_contains(line, '\n');
    lemma_first_space(t);
    if t.len() > 0 && t[0] != '#' {
        lemma_first_space(t.drop_first());
        if n >= t.len() {
            assert(is_word(t));
            assert(is_key_pair((t, Seq::empty())));
        } else {
            let rest = t.skip(n + 1);
            lemma_trim_contains(rest, '\n');
            if rest.contains('\n') {
                let i = choose|i: int| 0 <= i < rest.len() && rest[i] == '\n';
                assert(t[n + 1 + i] == '\n');
            }
            assert forall|i: int| 0 <= i < n implies !is_whitespace(#[trigger] t.take(n)[i]) by {
                assert(t.take(n)[i] == t[i]);
            }
            assert(t.take(n)[0] == t[0]);
            assert(is_key_pair((t.take(n), trim(rest))));
        }
    }
}

proof fn lemma_keys_of_survive(lines: Seq<Seq<char>>)
    requires
        forall|i: int| 0 <= i < lines.len() ==> !(#[trigger] lines[i]).contains('\n'),
    ensures
        keys_survive(keys_of(lines)),
    decreases lines.len(),
{
    if lines.len() > 0 {
        let p = lines.drop_last();
        assert forall|i: int| 0 <= i < p.len() implies !(#[trigger] p[i]).contains('\n') by {
            assert(p[i] == lines[i]);
        }
        lemma_keys_of_survive(p);
        assert(!lines[lines.len() - 1].contains('\n'));
        lemma_key_line(lines.last());
    }
}

/// Whatever a file holds, the keys that are loaded from it survive being saved.
pub proof fn law_loaded_keys_survive(text: Seq<char>)
    ensures
        keys_survive(parsed_keys(text)),
{
    let lines = split_on(text, '\n');
    assert forall|i: int| 0 <= i < lines.len() implies !(#[trigger] lines[i]).contains('\n') by {
        if lines[i].contains('\n') {
            let j = choose|j: int| 0 <= j < lines[i].len() && lines[i][j] == '\n';
            lemma_split_pieces(text, is_char('\n'), i, j);
        }
    }
    lemma_keys_of_survive(lines);
}

/// A table whose keys survive the file authorizes, once it is saved and loaded, exactly
/// the keys that it did before. Comments never matter to that.
pub proof fn law_saved_keys_read_back(
    m: Map<Seq<char>, Seq<char>>,
    pairs: Seq<(Seq<char>, Seq<char>)>,
)
    requires
        in_order(pairs),
        map_of(pairs) == m,
        keys_survive(m),
    ensures
        parsed_keys(keys_text(pairs)).dom() == m.dom(),
{
    assert forall|i: int| 0 <= i < pairs.len() implies is_key_pair(#[trigger] pairs[i]) by {
        lemma_map_of_pair(pairs, i);
        assert(m.contains_key(pairs[i].0));
    }
    law_authorized_keys_roundtrip(pairs);
}

proof fn lemma_added_keys_survive(
    m: Map<Seq<char>, Seq<char>>,
    added: Seq<(Seq<char>, Seq<char>)>,
)
    requires
        keys_survive(m),
        forall|i: int| 0 <= i < added.len() ==> is_key_pair(#[trigger] added[i]),
    ensures
        keys_survive(with_pairs(m, added)),
    decreases added.len(),
{
    if added.len() > 0 {
        let p = added.drop_last();
        assert forall|i: int| 0 <= i < p.len() implies is_key_pair(#[trigger] p[i]) by {
            assert(p[i] == added[i]);
        }
        lemma_added_keys_survive(m, p);
        assert(is_key_pair(added[added.len() - 1]));
    }
}

/// Load, authorize, save, load: the keys are those of the first file and the ones that
/// were added, whatever the first file held and whatever the comments are.
pub proof fn law_keys_survive_save_and_load(
    text: Seq<char>,
    added: Seq<(Seq<char>, Seq<char>)>,
    pairs: Seq<(Seq<char>, Seq<char>)>,
)
    requires
        forall|i: int| 0 <= i < added.len() ==> is_key_pair(#[trigger] added[i]),
        in_order(pairs),
        map_of(pairs) == with_pairs(parsed_keys(text), added),
    ensures
        parsed_keys(keys_text(pairs)).dom() == with_pairs(parsed_keys(text), added).dom(),
{
    law_loaded_keys_survive(text);
    lemma_added_keys_survive(parsed_keys(text), added);
    law_saved_keys_read_back(with_pairs(parsed_keys(text), added), pairs);
}

proof fn lemma_keys_of_entries(head: Seq<char>, pairs: Seq<(Seq<char>, Seq<char>)>)
    requires
        key_line(head) is None,
        forall|i: int| 0 <= i < pairs.len() ==> is_key_pair(#[trigger] pairs[i]),
    ensures
        keys_of(
            seq![head] + pairs.map_values(|p: (Seq<char>, Seq<char>)| key_entry(p)),
        ) == map_of(trimmed(pairs)),
        map_of(trimmed(pairs)).dom() == map_of(pairs).dom(),
    decreases pairs.len(),
{
    let f = |p: (Seq<char>, Seq<char>)| key_entry(p);
    let lines = seq![head] + pairs.map_values(f);
    if pairs.len() == 0 {
        assert(lines =~= seq![head]);
        assert(lines.drop_last() =~= Seq::empty());
        assert(keys_of(lines.drop_last()) == Map::<Seq<char>, Seq<char>>::empty());
        assert(trimmed(pairs) =~= pairs);
    } else {
        let p = pairs.drop_last();
        assert forall|i: int| 0 <= i < p.len() implies is_key_pair(#[trigger] p[i]) by {
            assert(p[i] == pairs[i]);
        }
        lemma_keys_of_entries(head, p);
        assert(lines.drop_last() =~= seq![head] + p.map_values(f));
        assert(is_key_pair(pairs[pairs.len() - 1]));
        lemma_key_entry_parses(pairs.last());
        assert(trimmed(pairs).drop_last() =~= trimmed(p));
        assert(map_of(trimmed(pairs)).dom() =~= map_of(pairs).dom());
        assert(lines.last() == key_entry(pairs.last()));
    }
}

/// What is saved is what is loaded: the keys, and their comments without white space at
/// the ends.
pub proof fn law_authorized_keys_roundtrip(pairs: Seq<(Seq<char>, Seq<char>)>)
    requires
        forall|i: int| 0 <= i < pairs.len() ==> is_key_pair(#[trigger] pairs[i]),
    ensures
        parsed_keys(keys_text(pairs)) == map_of(trimmed(pairs)),
        parsed_keys(keys_text(pairs)).dom() == map_of(pairs).dom(),
{
    let head = "# QuicFS authorized client keys"@;
    reveal_strlit("# QuicFS authorized client keys");
    let f = |p: (Seq<char>, Seq<char>)| key_entry(p);
    let lines = seq![head] + pairs.map_values(f);
    assert forall|i: int| 0 <= i < lines.len() implies !(#[trigger] lines[i]).contains('\n') by {
        if i > 0 {
            assert(is_key_pair(pairs[i - 1]));
            lemma_key_entry_parses(pairs[i - 1]);
            assert(lines[i] == key_entry(pairs[i - 1]));
        }
    }
    lemma_split_lines(lines);
    lemma_comment_line(head);
    lemma_blank_line();
    lemma_keys_of_entries(head, pairs);
    assert(lines.push(Seq::empty()).drop_last() =~= lines);
}

/// The permitted client keys, each with its comment.
#[derive(Debug)]
pub struct AuthorizedKeys {
    path: String,
    fingerprints: TextMap,
}

impl AuthorizedKeys {
    /// The permitted fingerprints and their comments.
    pub closed spec fn view(&self) -> Map<Seq<char>, Seq<char>> {
        self.fingerprints@
    }

    /// The keys in the order in which they are saved.
    pub closed spec fn pairs(&self) -> Seq<(Seq<char>, Seq<char>)> {
        self.fingerprints.pairs()
    }

    pub closed spec fn file(&self) -> Seq<char> {
        self.path@
    }

    /// The keys are in order, each once.
    pub open spec fn wf(&self) -> bool {
        in_order(self.pairs()) && self@ == map_of(self.pairs())
    }

    /// The keys of the file at `path`, given its text; none where it does not exist.
    pub fn load(path: &str, text: Option<&str>) -> (res: Self)
        ensures
            res.wf(),
            res.file() == path@,
            res@ == (match text {
                Some(t) => parsed_keys(t@),
                None => Map::<Seq<char>, Seq<char>>::empty(),
            }),
            keys_survive(res@),
    {
        proof {
            if text is Some {
                law_loaded_keys_survive(text->0@);
            }
        }
        let mut fingerprints = TextMap::new();
        if let Some(t) = text {
            let lines = split_chars(&chars_of(t), '\n');
            let ghost all = pieces(lines@);
            let mut i: usize = 0;
            assert(all.take(0) =~= Seq::empty());
            while i < lines.len()
                invariant
                    i <= lines.len(),
                    all == pieces(lines@),
                    fingerprints.wf(),
                    fingerprints@ == keys_of(all.take(i as int)),
                decreases lines.len() - i,
            {
                proof {
                    assert(all.take(i + 1).drop_last() =~= all.take(i as int));
                    assert(all.take(i + 1).last() == lines@[i as int]@);
                }
                let line = trim_chars(&lines[i]);
                if line.len() > 0 && line[0] != '#' {
                    let (fp, comment) = key_and_comment(&line);
                    fingerprints.insert(fp.as_str(), comment.as_str());
                }
                i = i + 1;
            }
            assert(all.take(i as int) =~= all);
        }
        AuthorizedKeys { path: copy_of(path), fingerprints }
    }

    /// Where the file lies in the configuration directory.
    pub fn default_path(config_dir: &str) -> (res: String)
        ensures
            res@ == join(config_dir@, "authorized_keys"@),
    {
        join_path(config_dir, "authorized_keys")
    }

    /// Where the file lies.
    pub fn path(&self) -> (res: &str)
        ensures
            res@ == self.file(),
    {
        self.path.as_str()
    }

    /// True if no keys are authorized.
    pub fn is_empty(&self) -> (res: bool)
        requires
            self.wf(),
        ensures
            res == (self@ == Map::<Seq<char>, Seq<char>>::empty()),
    {
        proof {
            let s = self.pairs();
            if s.len() > 0 {
                lemma_map_of_pair(s, 0);
                assert(self@.contains_key(s[0].0));
            }
        }
        self.fingerprints.len() == 0
    }

    /// Whether `fingerprint` is authorized.
    pub fn contains(&self, fingerprint: &str) -> (res: bool)
        requires
            self.wf(),
        ensures
            res == self@.contains_key(fingerprint@),
    {
        self.fingerprints.contains(fingerprint)
    }

    /// Add a fingerprint with its comment; returns the text to save. Loading that
    /// authorizes exactly the same fingerprints.
    pub fn authorize(&mut self, fingerprint: &str, comment: &str) -> (res: String)
        requires
            old(self).wf(),
        ensures
            final(self).wf(),
            final(self).file() == old(self).file(),
            final(self)@ == old(self)@.insert(fingerprint@, comment@),
            res@ == keys_text(final(self).pairs()),
            keys_survive(old(self)@) && is_key_pair((fingerprint@, comment@)) ==> {
                &&& keys_survive(final(self)@)
                &&& parsed_keys(res@).dom() == final(self)@.dom()
            },
    {
        self.fingerprints.insert(fingerprint, comment);
        self.save()
    }

    /// The text to save. Loading it authorizes the same fingerprints.
    pub fn save(&self) -> (res: String)
        ensures
            res@ == keys_text(self.pairs()),
            self.wf() && keys_survive(self@) ==> parsed_keys(res@).dom() == self@.dom(),
    {
        proof {
            if self.wf() && keys_survive(self@) {
                law_saved_keys_read_back(self@, self.pairs());
            }
        }
        let mut out = copy_of("# QuicFS authorized client keys");
        out.push('\n');
        let ghost head = "# QuicFS authorized client keys"@;
        let ghost f = |p: (Seq<char>, Seq<char>)| key_entry(p);
        let ghost all = seq![head] + self.pairs().map_values(f);
        let mut i: usize = 0;
        proof {
            assert(all.take(1) =~= seq![head]);
            assert(seq![head].drop_last() =~= Seq::empty());
            assert(lines_text(Seq::empty()) =~= Seq::empty());
            assert(out@ =~= lines_text(all.take(1)));
        }
        while i < self.fingerprints.len()
            invariant
                i <= self.pairs().len(),
                f == (|p: (Seq<char>, Seq<char>)| key_entry(p)),
                all == seq![head] + self.pairs().map_values(f),
                out@ == lines_text(all.take(i + 1)),
            decreases self.pairs().len() - i,
        {
            let (fp, comment) = self.fingerprints.entry(i);
            let ghost before = out@;
            out.append(fp);
            if !comment.is_empty() {
                out.push(' ');
                out.append(comment);
            }
            out.push('\n');
            proof {
                assert(all.take(i + 2).drop_last() =~= all.take(i + 1));
                assert(all.take(i + 2).last() == key_entry(self.pairs()[i as int]));
                assert(out@ =~= before + key_entry((fp@, comment@)).push('\n'));
            }
            i = i + 1;
        }
        assert(all.take(i + 1) =~= all);
        out
    }
}

/// The first word of a trimmed line, and the rest of it trimmed.
fn key_and_comment(line: &Vec<char>) -> (res: (String, String))
    requires
        line@.len() > 0,
    ensures
        ({
            let n = first_space(line@);
            if n >= line@.len() {
                res.0@ == line@ && res.1@ == Seq::<char>::empty()
            } else {
                res.0@ == line@.take(n) && res.1@ == trim(line@.skip(n + 1))
            }
        }),
{
    let mut n: usize = 0;
    assert(line@.skip(0) =~= line@);
    while n < line.len() && !is_space(line[n])
        invariant
            n <= line.len(),
            first_space(line@) == n + first_space(line@.skip(n as int)),
        decreases line.len() - n,
    {
        assert(line@.skip(n as int).drop_first() =~= line@.skip(n + 1));
        n = n + 1;
    }
    let fp = slice_of(line, 0, n);
    if n >= line.len() {
        assert(fp@ =~= line@);
        return (string_of(fp.as_slice()), String::new());
    }
    assert(fp@ =~= line@.take(n as int));
    let rest = slice_of(line, n + 1, line.len());
    assert(rest@ =~= line@.skip(n + 1));
    let comment = trim_chars(&rest);
    (string_of(fp.as_slice()), string_of(comment.as_slice()))
}

// ── laws of the files' lines ─────────────────────────────────────────────────
proof fn lemma_one_more_line(text: Seq<char>, line: Seq<char>)
    requires
        !line.contains('\n'),
    ensures
        split_on(text.push('\n') + line, '\n') == split_on(text, '\n').push(line),
{
    let sep = is_char('\n');
    assert forall|i: int| 0 <= i < line.len() implies !sep(#[trigger] line[i]) by {
        assert(line.contains(line[i]));
    }
    lemma_split_concat(text, '\n', line, sep);
    lemma_split_single(line, sep);
    assert(split_on(text, '\n') + seq![line] =~= split_on(text, '\n').push(line));
}

/// A line of two words pins the first to the second, whatever stood in the file before:
/// the host gets this key, and every other host keeps its own.
pub proof fn law_line_pins_a_host(text: Seq<char>, host: Seq<char>, fp: Seq<char>)
    requires
        is_word(host),
        host[0] != '#',
        is_word(fp),
    ensures
        parsed_hosts(text.push('\n') + (host.push(' ') + fp)) == parsed_hosts(text).insert(host, fp),
{
    let p = (host, fp);
    lemma_host_entry_parses(p);
    lemma_one_more_line(text, host_entry(p));
    assert(split_on(text, '\n').push(host_entry(p)).drop_last() =~= split_on(text, '\n'));
}

/// What follows the two words of a pin does not count.
pub proof fn law_rest_of_a_pin_does_not_count(
    text: Seq<char>,
    host: Seq<char>,
    fp: Seq<char>,
    rest: Seq<char>,
)
    requires
        is_word(host),
        host[0] != '#',
        is_word(fp),
        rest.len() > 0,
        !is_whitespace(rest.last()),
        !rest.contains('\n'),
    ensures
        parsed_hosts(text.push('\n') + (host.push(' ') + (fp.push(' ') + rest))) == parsed_hosts(
            text,
        ).insert(host, fp),
{
    let tail = fp.push(' ') + rest;
    let line = host.push(' ') + tail;
    law_words_are_split_at_blanks(fp, ' ', rest);
    law_words_are_split_at_blanks(host, ' ', tail);
    assert(line[0] == host[0]);
    assert(line.last() == rest.last());
    lemma_trim_fixed(line);
    assert(words(line)[0] == host);
    assert(words(line)[1] == fp);
    assert forall|i: int| 0 <= i < line.len() implies line[i] != '\n' by {
        if i < host.len() {
            assert(line[i] == host[i]);
        } else if i > host.len() && i < host.len() + 1 + fp.len() {
            assert(line[i] == fp[i - host.len() - 1]);
        } else if i > host.len() + 1 + fp.len() {
            assert(line[i] == rest[i - host.len() - fp.len() - 2]);
            assert(rest.contains(rest[i - host.len() - fp.len() - 2]));
        }
    }
    lemma_one_more_line(text, line);
    assert(split_on(text, '\n').push(line).drop_last() =~= split_on(text, '\n'));
}

/// Any white space stands between the words of a line, not the blank alone.
pub proof fn law_any_white_space_separates(
    first: Seq<char>,
    blank: char,
    second: Seq<char>,
    comment: Seq<char>,
)
    requires
        is_word(first),
        first[0] != '#',
        is_whitespace(blank),
        is_word(second),
        comment.len() > 0,
        !is_whitespace(comment.last()),
    ensures
        host_line(first.push(blank) + second) == Some((first, second)),
        key_line(first.push(blank) + comment) == Some((first, trim(comment))),
{
    let h = first.push(blank) + second;
    law_words_are_split_at_blanks(first, blank, second);
    law_words_are_split_at_blanks(second, blank, second);
    assert(h[0] == first[0]);
    assert(h.last() == second[second.len() - 1]);
    lemma_trim_fixed(h);
    let k = first.push(blank) + comment;
    assert(k[0] == first[0]);
    assert(k.last() == comment.last());
    lemma_trim_fixed(k);
    lemma_first_space_of_word(first, seq![blank] + comment);
    assert(first + (seq![blank] + comment) =~= k);
    assert(k.take(first.len() as int) =~= first);
    assert(k.skip(first.len() as int + 1) =~= comment);
}

/// White space around a line does not count, whatever the line says.
pub proof fn law_white_space_around_a_line_does_not_count(
    a: Seq<char>,
    line: Seq<char>,
    b: Seq<char>,
)
    requires
        forall|i: int| 0 <= i < a.len() ==> is_whitespace(#[trigger] a[i]),
        forall|i: int| 0 <= i < b.len() ==> is_whitespace(#[trigger] b[i]),
        line.len() > 0,
        !is_whitespace(line[0]),
        !is_whitespace(line.last()),
    ensures
        host_line(a + line + b) == host_line(line),
        key_line(a + line + b) == key_line(line),
{
    law_trim_takes_the_ends_off(a, line, b);
    lemma_trim_fixed(line);
}

/// A line that starts with `#`, or with nothing on it, changes neither pins nor keys.
pub proof fn law_comments_and_blank_lines_count_for_nothing(text: Seq<char>, line: Seq<char>)
    requires
        !line.contains('\n'),
        line.len() == 0 || line[0] == '#' && !is_whitespace(line.last()),
    ensures
        parsed_hosts(text.push('\n') + line) == parsed_hosts(text),
        parsed_keys(text.push('\n') + line) == parsed_keys(text),
{
    if line.len() == 0 {
        lemma_blank_line();
        assert(line =~= Seq::empty());
    } else {
        lemma_comment_line(line);
    }
    lemma_one_more_line(text, line);
    assert(split_on(text, '\n').push(line).drop_last() =~= split_on(text, '\n'));
}

/// A line authorizes the key that is its first word, and no other; what follows is a
/// comment, whose ends do not count.
pub proof fn law_line_authorizes_a_key(text: Seq<char>, fp: Seq<char>, comment: Seq<char>)
    requires
        is_word(fp),
        fp[0] != '#',
        !comment.contains('\n'),
        comment.len() > 0,
    ensures
        parsed_keys(text.push('\n') + fp) == parsed_keys(text).insert(fp, Seq::empty()),
        parsed_keys(text.push('\n') + (fp.push(' ') + comment)) == parsed_keys(text).insert(
            fp,
            trim(comment),
        ),
{
    let e = Seq::<char>::empty();
    lemma_key_entry_parses((fp, comment));
    lemma_key_entry_parses((fp, e));
    lemma_one_more_line(text, key_entry((fp, comment)));
    lemma_one_more_line(text, key_entry((fp, e)));
    assert(split_on(text, '\n').push(key_entry((fp, comment))).drop_last() =~= split_on(
        text,
        '\n',
    ));
    assert(split_on(text, '\n').push(key_entry((fp, e))).drop_last() =~= split_on(text, '\n'));
    assert(trim(e) =~= e);
}

/// A fingerprint is taken by its prefix and its length, without the white space around it.
pub proof fn law_fingerprints_are_known_by_their_form(s: &str, res: Result<String, TrustError>)
    requires
        call_ensures(parse_fingerprint, (s,), res),
    ensures
        res is Ok <==> trim(s@).len() >= 7 && trim(s@).take(7) == "SHA256:"@ && utf8_len(trim(s@))
            >= 17,
        res matches Ok(fp) ==> fp@ == trim(s@),
{
    reveal_strlit("SHA256:");
    if trim(s@).len() >= 7 {
        assert(trim(s@).subrange(0, 7) =~= trim(s@).take(7));
    }
}

proof fn lemma_entry_lines(head: Seq<char>, entries: Seq<Seq<char>>, i: int)
    requires
        !head.contains('\n'),
        forall|k: int| 0 <= k < entries.len() ==> !(#[trigger] entries[k]).contains('\n'),
        0 <= i < entries.len(),
    ensures
        split_on(lines_text(seq![head] + entries), '\n')[i + 1] == entries[i],
{
    let lines = seq![head] + entries;
    assert forall|k: int| 0 <= k < lines.len() implies !(#[trigger] lines[k]).contains('\n') by {
        if k > 0 {
            assert(lines[k] == entries[k - 1]);
        }
    }
    lemma_split_lines(lines);
    assert(lines.push(Seq::empty())[i + 1] == entries[i]);
}

/// In the files that are saved each pin and each key has a line of its own behind the
/// first: the host, a blank and its fingerprint; the fingerprint, and where there is a
/// comment a blank and that.
pub proof fn law_saved_lines_hold_one_entry_each(
    hosts: Seq<(Seq<char>, Seq<char>)>,
    keys: Seq<(Seq<char>, Seq<char>)>,
    i: int,
    j: int,
)
    requires
        forall|k: int| 0 <= k < hosts.len() ==> is_host_pair(#[trigger] hosts[k]),
        forall|k: int| 0 <= k < keys.len() ==> is_key_pair(#[trigger] keys[k]),
        0 <= i < hosts.len(),
        0 <= j < keys.len(),
    ensures
        split_on(hosts_text(hosts), '\n')[i + 1] == hosts[i].0 + seq![' '] + hosts[i].1,
        split_on(keys_text(keys), '\n')[j + 1] == (if keys[j].1.len() == 0 {
            keys[j].0
        } else {
            keys[j].0 + seq![' '] + keys[j].1
        }),
{
    let h = "# QuicFS known hosts - managed by quicfs, edit with care"@;
    let g = "# QuicFS authorized client keys"@;
    reveal_strlit("# QuicFS known hosts - managed by quicfs, edit with care");
    reveal_strlit("# QuicFS authorized client keys");
    assert forall|k: int| 0 <= k < h.len() implies h[k] != '\n' by {}
    assert forall|k: int| 0 <= k < g.len() implies g[k] != '\n' by {}
    let hs = hosts.map_values(|p: (Seq<char>, Seq<char>)| host_entry(p));
    let ks = keys.map_values(|p: (Seq<char>, Seq<char>)| key_entry(p));
    assert forall|k: int| 0 <= k < hs.len() implies !(#[trigger] hs[k]).contains('\n') by {
        assert(is_host_pair(hosts[k]));
        lemma_host_entry_parses(hosts[k]);
    }
    assert forall|k: int| 0 <= k < ks.len() implies !(#[trigger] ks[k]).contains('\n') by {
        assert(is_key_pair(keys[k]));
        lemma_key_entry_parses(keys[k]);
    }
    lemma_entry_lines(h, hs, i);
    lemma_entry_lines(g, ks, j);
    assert(hosts[i].0.push(' ') =~= hosts[i].0 + seq![' ']);
    assert(keys[j].0.push(' ') =~= keys[j].0 + seq![' ']);
}

/// A fingerprint holds the whole digest: behind its prefix stands the base64 text of it,
/// which lacks only the padding to be decoded.
pub proof fn law_fingerprint_holds_the_digest(spki: Seq<u8>)
    requires
        sha256(spki).len() == 32,
    ensures
        fingerprint(spki).take(7) == "SHA256:"@,
        base64_decoded(fingerprint(spki).skip(7).push('=')) == Some(sha256(spki)),
{
    reveal_strlit("SHA256:");
    let d = sha256(spki);
    assert(fingerprint(spki).take(7) =~= "SHA256:"@);
    assert(fingerprint(spki).skip(7) =~= base64_text(d));
    assert(padded_text(d) =~= base64_text(d).push('='));
    law_decoding_undoes_encoding(d);
}

} // verus!
