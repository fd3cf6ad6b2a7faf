//! The command line of the client: verbs, the remote spec, and the connection's
//! parameters.

use vstd::prelude::*;

use crate::client::conn::TofuPolicy;
use crate::common::identity::Identity;
use crate::text::{chars_of, copy_of, same_text, slice_of, string_of, texts};

verus! {

pub const DEFAULT_PORT: u16 = 9001;

/// Why the command line was not accepted.
#[derive(Debug, Clone, Copy, PartialEq, Eq, Structural)]
pub enum CliError {
    /// A `[` without its `]` in the host.
    UnterminatedHost,
    /// No host is named.
    NoHost,
    /// The chunk size is zero.
    ZeroChunkSize,
}

// ── verbs ────────────────────────────────────────────────────────────────────
/// What the first argument asks for.
#[derive(Debug, Clone, Copy, PartialEq, Eq, Structural)]
pub enum Verb {
    Help,
    Version,
    Key,
    KnownHosts,
    Ping,
    Mount,
    /// No verb: the arguments are those of a mount.
    BareMount,
}

pub open spec fn verb_named(s: Seq<char>) -> Verb {
    if s == ""@ || s == "-h"@ || s == "--help"@ || s == "help"@ {
        Verb::Help
    } else if s == "--version"@ || s == "-V"@ {
        Verb::Version
    } else if s == "key"@ {
        Verb::Key
    } else if s == "known-hosts"@ {
        Verb::KnownHosts
    } else if s == "ping"@ {
        Verb::Ping
    } else if s == "mount"@ {
        Verb::Mount
    } else {
        Verb::BareMount
    }
}

/// The verb of a command line; help where there is no argument.
pub fn verb_of(argv: &Vec<String>) -> (res: Verb)
    ensures
        res == verb_named(
            if argv@.len() > 1 {
                argv@[1]@
            } else {
                ""@
            },
        ),
{
    let s = if argv.len() > 1 {
        argv[1].as_str()
    } else {
        ""
    };
    if same_text(s, "") || same_text(s, "-h") || same_text(s, "--help") || same_text(s, "help") {
        Verb::Help
    } else if same_text(s, "--version") || same_text(s, "-V") {
        Verb::Version
    } else if same_text(s, "key") {
        Verb::Key
    } else if same_text(s, "known-hosts") {
        Verb::KnownHosts
    } else if same_text(s, "ping") {
        Verb::Ping
    } else if same_text(s, "mount") {
        Verb::Mount
    } else {
        Verb::BareMount
    }
}

/// The arguments from `from` on, behind a program name that is put in front.
fn args_from(program: String, argv: &Vec<String>, from: usize) -> (res: Vec<String>)
    requires
        from <= argv@.len(),
    ensures
        texts(res@) == seq![program@] + texts(argv@).skip(from as int),
{
    let mut out: Vec<String> = Vec::new();
    out.push(program);
    let ghost all = texts(argv@);
    let mut i: usize = from;
    assert(texts(out@) =~= seq![program@] + all.subrange(from as int, from as int));
    while i < argv.len()
        invariant
            from <= i <= argv.len(),
            all == texts(argv@),
            texts(out@) == seq![program@] + all.subrange(from as int, i as int),
        decreases argv.len() - i,
    {
        let ghost before = texts(out@);
        out.push(copy_of(argv[i].as_str()));
        assert(texts(out@) =~= before.push(all[i as int]));
        assert(texts(out@) =~= seq![program@] + all.subrange(from as int, i + 1));
        i = i + 1;
    }
    assert(all.subrange(from as int, i as int) =~= all.skip(from as int));
    out
}

/// The arguments of a verb, behind a program name that shows it.
pub fn sub_args(argv: &Vec<String>) -> (res: Vec<String>)
    requires
        argv@.len() >= 2,
    ensures
        texts(res@) == seq!["quicfs "@ + argv@[1]@] + texts(argv@).skip(2),
{
    let program = copy_of("quicfs ").concat(argv[1].as_str());
    args_from(program, argv, 2)
}

/// All arguments, as those of a mount.
pub fn bare_args(argv: &Vec<String>) -> (res: Vec<String>)
    requires
        argv@.len() >= 1,
    ensures
        texts(res@) == seq!["quicfs mount"@] + texts(argv@).skip(1),
{
    args_from(copy_of("quicfs mount"), argv, 1)
}

/// What the options say about unknown keys; strictness wins.
pub fn tofu(accept_new: bool, strict: bool) -> (res: TofuPolicy)
    ensures
        res == (if strict {
            TofuPolicy::Strict
        } else if accept_new {
            TofuPolicy::AcceptNew
        } else {
            TofuPolicy::Prompt
        }),
{
    if strict {
        TofuPolicy::Strict
    } else if accept_new {
        TofuPolicy::AcceptNew
    } else {
        TofuPolicy::Prompt
    }
}

// ── the remote spec ──────────────────────────────────────────────────────────
/// Where a character first stands in a text; behind its end where it does not.
pub open spec fn first_of(s: Seq<char>, c: char) -> int
    decreases s.len(),
{
    if s.len() == 0 || s[0] == c {
        0
    } else {
        1 + first_of(s.drop_first(), c)
    }
}

fn find_char(s: &Vec<char>, c: char) -> (res: usize)
    ensures
        res == first_of(s@, c),
        res <= s.len(),
{
    let mut i: usize = 0;
    assert(s@.skip(0) =~= s@);
    while i < s.len() && s[i] != c
        invariant
            i <= s.len(),
            first_of(s@, c) == i + first_of(s@.skip(i as int), c),
        decreases s.len() - i,
    {
        assert(s@.skip(i as int).drop_first() =~= s@.skip(i + 1));
        i = i + 1;
    }
    i
}

/// The user of a spec: what stands before the first `@`.
pub open spec fn spec_user(spec: Seq<char>, default_user: Seq<char>) -> Seq<char> {
    let at = first_of(spec, '@');
    if at < spec.len() {
        spec.take(at)
    } else {
        default_user
    }
}

/// The spec behind the user.
pub open spec fn spec_rest(spec: Seq<char>) -> Seq<char> {
    let at = first_of(spec, '@');
    if at < spec.len() {
        spec.skip(at + 1)
    } else {
        spec
    }
}

/// Host and path of what follows the user: `host:path`, or `[host]:path` for a host
/// that holds colons.
pub open spec fn host_and_path(rest: Seq<char>) -> Result<(Seq<char>, Seq<char>), CliError> {
    if rest.len() > 0 && rest[0] == '[' {
        let inner = rest.skip(1);
        let end = first_of(inner, ']');
        if end >= inner.len() {
            Err(CliError::UnterminatedHost)
        } else {
            let after = inner.skip(end + 1);
            Ok(
                (
                    inner.take(end),
                    if after.len() > 0 && after[0] == ':' {
                        after.skip(1)
                    } else {
                        after
                    },
                ),
            )
        }
    } else {
        let colon = first_of(rest, ':');
        if colon < rest.len() {
            Ok((rest.take(colon), rest.skip(colon + 1)))
        } else {
            Ok((rest, Seq::empty()))
        }
    }
}

/// The remote path, from the root; the root itself where none is named.
pub open spec fn rooted(path: Seq<char>) -> Seq<char> {
    if path.len() > 0 && path[0] == '/' {
        path
    } else {
        seq!['/'] + path
    }
}

/// User, host and path of a spec.
pub open spec fn parsed_spec(spec: Seq<char>, default_user: Seq<char>) -> Result<
    (Seq<char>, Seq<char>, Seq<char>),
    CliError,
> {
    match host_and_path(spec_rest(spec)) {
        Err(e) => Err(e),
        Ok((host, path)) => if host.len() == 0 {
            Err(CliError::NoHost)
        } else {
            Ok((spec_user(spec, default_user), host, rooted(path)))
        },
    }
}

/// A spec that parses names a host and a path from the root.
pub proof fn law_spec_names_host_and_rooted_path(spec: Seq<char>, default_user: Seq<char>)
    requires
        parsed_spec(spec, default_user) is Ok,
    ensures
        ({
            let (user, host, path) = parsed_spec(spec, default_user)->Ok_0;
            host.len() > 0 && path.len() > 0 && path[0] == '/'
        }),
{
}

fn host_path_of(rest: &Vec<char>) -> (res: Result<(Vec<char>, Vec<char>), CliError>)
    ensures
        match res {
            Ok((h, p)) => host_and_path(rest@) == Ok::<(Seq<char>, Seq<char>), CliError>(
                (h@, p@),
            ),
            Err(e) => host_and_path(rest@) == Err::<(Seq<char>, Seq<char>), CliError>(e),
        },
{
    if rest.len() > 0 && rest[0] == '[' {
        let inner = slice_of(rest, 1, rest.len());
        assert(inner@ =~= rest@.skip(1));
        let end: usize = find_char(&inner, ']');
        if end >= inner.len() {
            return Err(CliError::UnterminatedHost);
        }
        let host = slice_of(&inner, 0, end);
        assert(host@ =~= inner@.take(end as int));
        let after = slice_of(&inner, end + 1, inner.len());
        assert(after@ =~= inner@.skip(end + 1));
        if after.len() > 0 && after[0] == ':' {
            let path = slice_of(&after, 1, after.len());
            assert(path@ =~= after@.skip(1));
            return Ok((host, path));
        }
        return Ok((host, after));
    }
    let colon: usize = find_char(rest, ':');
    let host = slice_of(rest, 0, colon);
    if colon < rest.len() {
        assert(host@ =~= rest@.take(colon as int));
        let path = slice_of(rest, colon + 1, rest.len());
        assert(path@ =~= rest@.skip(colon + 1));
        Ok((host, path))
    } else {
        assert(host@ =~= rest@);
        Ok((host, Vec::new()))
    }
}

/// Parse `[user@]host[:/remote/path]`. A host that holds colons stands in brackets.
pub fn parse_spec(spec: &str, default_user: &str) -> (res: Result<
    (String, String, String),
    CliError,
>)
    ensures
        match res {
            Ok((u, h, p)) => parsed_spec(spec@, default_user@) == Ok::<
                (Seq<char>, Seq<char>, Seq<char>),
                CliError,
            >((u@, h@, p@)),
            Err(e) => parsed_spec(spec@, default_user@) == Err::<
                (Seq<char>, Seq<char>, Seq<char>),
                CliError,
            >(e),
        },
{
    let s = chars_of(spec);
    let at: usize = find_char(&s, '@');
    let (user, rest) = if at < s.len() {
        let u = slice_of(&s, 0, at);
        assert(u@ =~= s@.take(at as int));
        let r = slice_of(&s, at + 1, s.len());
        assert(r@ =~= s@.skip(at + 1));
        (string_of(u.as_slice()), r)
    } else {
        let r = slice_of(&s, 0, s.len());
        assert(r@ =~= s@);
        (copy_of(default_user), r)
    };
    let (host, path) = match host_path_of(&rest) {
        Ok(hp) => hp,
        Err(e) => {
            return Err(e);
        },
    };
    if host.len() == 0 {
        return Err(CliError::NoHost);
    }
    let mut full: Vec<char> = Vec::new();
    if !(path.len() > 0 && path[0] == '/') {
        full.push('/');
    }
    let mut tail = path;
    full.append(&mut tail);
    proof {
        if path@.len() > 0 && path@[0] == '/' {
            assert(full@ =~= path@);
        } else {
            assert(full@ =~= seq!['/'] + path@);
        }
    }
    Ok((user, string_of(host.as_slice()), string_of(full.as_slice())))
}

// ── the connection ───────────────────────────────────────────────────────────
/// The decimal digits of a number.
pub open spec fn decimal(n: nat) -> Seq<char>
    decreases n,
{
    if n < 10 {
        seq![(48 + n) as char]
    } else {
        decimal(n / 10).push((48 + n % 10) as char)
    }
}

fn digit(d: u16) -> (res: char)
    requires
        d < 10,
    ensures
        res == (48 + d) as char,
{
    match d {
        0 => '0',
        1 => '1',
        2 => '2',
        3 => '3',
        4 => '4',
        5 => '5',
        6 => '6',
        7 => '7',
        8 => '8',
        _ => '9',
    }
}

fn decimal_of(n: u16) -> (res: String)
    ensures
        res@ == decimal(n as nat),
    decreases n,
{
    let mut out = String::new();
    if n < 10 {
        out.push(digit(n));
        assert(out@ =~= decimal(n as nat));
    } else {
        out = decimal_of(n / 10);
        out.push(digit(n % 10));
    }
    out
}

/// The name under which a server's key is pinned: `host:port`.
pub open spec fn host_key_text(host: Seq<char>, port: u16) -> Seq<char> {
    host.push(':') + decimal(port as nat)
}

pub fn host_key(host: &str, port: u16) -> (res: String)
    ensures
        res@ == host_key_text(host@, port),
{
    let mut out = copy_of(host);
    out.push(':');
    out.append(decimal_of(port).as_str());
    out
}

/// Which of the addresses of a host is used: the first of version 4, else the first.
pub fn pick_address(is_v4: &Vec<bool>) -> (res: Option<usize>)
    ensures
        match res {
            None => is_v4@.len() == 0,
            Some(i) => {
                &&& i < is_v4@.len()
                &&& if exists|j: int| 0 <= j < is_v4@.len() && #[trigger] is_v4@[j] {
                    is_v4@[i as int] && forall|j: int| 0 <= j < i ==> !#[trigger] is_v4@[j]
                } else {
                    i == 0
                }
            },
        },
{
    let mut i: usize = 0;
    while i < is_v4.len()
        invariant
            i <= is_v4.len(),
            forall|j: int| 0 <= j < i ==> !#[trigger] is_v4@[j],
        decreases is_v4.len() - i,
    {
        if is_v4[i] {
            assert(is_v4@[i as int]);
            return Some(i);
        }
        i = i + 1;
    }
    if is_v4.len() > 0 {
        Some(0)
    } else {
        None
    }
}

/// The parameters of a connection, but for the server's address.
#[derive(Clone)]
pub struct MountConfig {
    /// The name asked for in TLS; trust rests on the key.
    pub server_name: String,
    /// `host:port`, under which the server's key is pinned.
    pub host_key: String,
    /// The client's certificate, in PEM.
    pub client_cert_pem: String,
    /// The client's private key, in PEM.
    pub client_key_pem: String,
    pub chunk_size: u32,
    /// What to do on first contact.
    pub tofu: TofuPolicy,
    /// Where the pinned keys are kept.
    pub known_hosts_path: String,
}

/// The name of the local user, by what the environment says.
pub fn current_user(user: Option<&str>, username: Option<&str>) -> (res: String)
    ensures
        res@ == (match (user, username) {
            (Some(u), _) => u@,
            (None, Some(u)) => u@,
            (None, None) => "user"@,
        }),
{
    match (user, username) {
        (Some(u), _) => copy_of(u),
        (None, Some(u)) => copy_of(u),
        (None, None) => copy_of("user"),
    }
}

/// A chunk size must not be zero.
pub fn check_chunk_size(chunk_size: u32) -> (res: Result<(), CliError>)
    ensures
        res == (if chunk_size == 0 {
            Err::<(), CliError>(CliError::ZeroChunkSize)
        } else {
            Ok::<(), CliError>(())
        }),
{
    if chunk_size == 0 {
        Err(CliError::ZeroChunkSize)
    } else {
        Ok(())
    }
}

/// Put the parameters of a connection together.
pub fn build_config(
    host: &str,
    port: u16,
    server_name_override: Option<&str>,
    tofu: TofuPolicy,
    identity: Identity,
    known_hosts_path: String,
    chunk_size: u32,
) -> (res: Result<MountConfig, CliError>)
    ensures
        if chunk_size == 0 {
            res == Err::<MountConfig, CliError>(CliError::ZeroChunkSize)
        } else {
            res matches Ok(cfg) && {
                &&& cfg.server_name@ == (match server_name_override {
                    Some(n) => n@,
                    None => host@,
                })
                &&& cfg.host_key@ == host_key_text(host@, port)
                &&& cfg.client_cert_pem == identity.cert_pem
                &&& cfg.client_key_pem == identity.key_pem
                &&& cfg.chunk_size == chunk_size
                &&& cfg.tofu == tofu
                &&& cfg.known_hosts_path == known_hosts_path
            }
        },
{
    if let Err(e) = check_chunk_size(chunk_size) {
        return Err(e);
    }
    let server_name = match server_name_override {
        Some(n) => copy_of(n),
        None => copy_of(host),
    };
    Ok(
        MountConfig {
            server_name,
            host_key: host_key(host, port),
            client_cert_pem: identity.cert_pem,
            client_key_pem: identity.key_pem,
            chunk_size,
            tofu,
            known_hosts_path,
        },
    )
}

// ── laws ─────────────────────────────────────────────────────────────────────
/// Each verb has its words, and whatever is none of them is the spec of a mount.
pub proof fn law_verbs_have_their_words(s: Seq<char>)
    ensures
        verb_named(s) is Help <==> s == ""@ || s == "-h"@ || s == "--help"@ || s == "help"@,
        verb_named(s) is Version <==> s == "--version"@ || s == "-V"@,
        verb_named(s) is Key <==> s == "key"@,
        verb_named(s) is KnownHosts <==> s == "known-hosts"@,
        verb_named(s) is Ping <==> s == "ping"@,
        verb_named(s) is Mount <==> s == "mount"@,
{
    reveal_strlit("");
    reveal_strlit("-h");
    reveal_strlit("--help");
    reveal_strlit("help");
    reveal_strlit("--version");
    reveal_strlit("-V");
    reveal_strlit("key");
    reveal_strlit("known-hosts");
    reveal_strlit("ping");
    reveal_strlit("mount");
    assert(""@.len() == 0 && "-h"@.len() == 2 && "--help"@.len() == 6 && "help"@.len() == 4);
    assert("--version"@.len() == 9 && "-V"@.len() == 2 && "key"@.len() == 3);
    assert("known-hosts"@.len() == 11 && "ping"@.len() == 4 && "mount"@.len() == 5);
    assert("-h"@[1] == 'h' && "-V"@[1] == 'V' && "help"@[0] == 'h' && "ping"@[0] == 'p');
}

proof fn lemma_first_of(a: Seq<char>, c: char, b: Seq<char>)
    requires
        !a.contains(c),
    ensures
        first_of(a, c) == a.len(),
        first_of(a.push(c) + b, c) == a.len(),
    decreases a.len(),
{
    let s = a.push(c) + b;
    if a.len() > 0 {
        let t = a.drop_first();
        assert(a.contains(a[0]));
        assert forall|i: int| 0 <= i < t.len() implies t[i] != c by {
            assert(a.contains(a[i + 1]));
        }
        lemma_first_of(t, c, b);
        assert(s[0] == a[0]);
        assert(s.drop_first() =~= t.push(c) + b);
    } else {
        assert(s[0] == c);
    }
}

/// A spec is taken apart where it was put together: `user@host:path` names these three,
/// without a user the default one is meant, without a path the root. A path that does not
/// start at the root is taken from there.
pub proof fn law_spec_is_taken_apart(
    user: Seq<char>,
    host: Seq<char>,
    path: Seq<char>,
    default_user: Seq<char>,
)
    requires
        !user.contains('@'),
        host.len() > 0,
        host[0] != '[',
        !host.contains(':'),
        !host.contains('@'),
        !path.contains('@'),
    ensures
        ({
            let from_root = if path.len() > 0 && path[0] == '/' {
                path
            } else {
                seq!['/'] + path
            };
            &&& parsed_spec(user.push('@') + (host.push(':') + path), default_user) == Ok::<
                (Seq<char>, Seq<char>, Seq<char>),
                CliError,
            >((user, host, from_root))
            &&& parsed_spec(user.push('@') + host, default_user) == Ok::<
                (Seq<char>, Seq<char>, Seq<char>),
                CliError,
            >((user, host, seq!['/']))
            &&& parsed_spec(host.push(':') + path, default_user) == Ok::<
                (Seq<char>, Seq<char>, Seq<char>),
                CliError,
            >((default_user, host, from_root))
        }),
{
    let rest = host.push(':') + path;
    let e = Seq::<char>::empty();
    lemma_first_of(user, '@', rest);
    lemma_first_of(user, '@', host);
    lemma_first_of(host, ':', path);
    let full = user.push('@') + rest;
    let short = user.push('@') + host;
    assert(full.take(user.len() as int) =~= user);
    assert(full.skip(user.len() as int + 1) =~= rest);
    assert(short.take(user.len() as int) =~= user);
    assert(short.skip(user.len() as int + 1) =~= host);
    assert(rest.take(host.len() as int) =~= host);
    assert(rest.skip(host.len() as int + 1) =~= path);
    assert(rest[0] == host[0]);
    assert(seq!['/'] + e =~= seq!['/']);
    assert forall|i: int| 0 <= i < rest.len() implies rest[i] != '@' by {
        if i < host.len() {
            assert(host.contains(host[i]));
        } else if i > host.len() {
            assert(path.contains(path[i - host.len() - 1]));
        }
    }
    lemma_first_of(rest, '@', e);
}

/// A host that holds colons stands in brackets, which are not part of it.
pub proof fn law_bracketed_host_is_taken_whole(
    user: Seq<char>,
    host: Seq<char>,
    path: Seq<char>,
    default_user: Seq<char>,
)
    requires
        !user.contains('@'),
        host.len() > 0,
        !host.contains(']'),
        path.len() > 0,
        path[0] == '/',
    ensures
        parsed_spec(
            user.push('@') + (seq!['['] + (host.push(']') + (seq![':'] + path))),
            default_user,
        ) == Ok::<(Seq<char>, Seq<char>, Seq<char>), CliError>((user, host, path)),
        parsed_spec(user.push('@') + (seq!['['] + host), default_user) == Err::<
            (Seq<char>, Seq<char>, Seq<char>),
            CliError,
        >(CliError::UnterminatedHost),
{
    let after = seq![':'] + path;
    let inner = host.push(']') + after;
    let rest = seq!['['] + inner;
    let open = seq!['['] + host;
    lemma_first_of(user, '@', rest);
    lemma_first_of(user, '@', open);
    lemma_first_of(host, ']', after);
    assert((user.push('@') + rest).take(user.len() as int) =~= user);
    assert((user.push('@') + rest).skip(user.len() as int + 1) =~= rest);
    assert((user.push('@') + open).skip(user.len() as int + 1) =~= open);
    assert(rest.skip(1) =~= inner);
    assert(open.skip(1) =~= host);
    assert(inner.take(host.len() as int) =~= host);
    assert(inner.skip(host.len() as int + 1) =~= after);
    assert(after.skip(1) =~= path);
}

/// A spec without a host is refused, whatever user and path it names.
pub proof fn law_spec_needs_a_host(user: Seq<char>, path: Seq<char>, default_user: Seq<char>)
    requires
        !user.contains('@'),
    ensures
        parsed_spec(user.push('@') + (seq![':'] + path), default_user) == Err::<
            (Seq<char>, Seq<char>, Seq<char>),
            CliError,
        >(CliError::NoHost),
{
    let rest = seq![':'] + path;
    let e = Seq::<char>::empty();
    lemma_first_of(user, '@', rest);
    lemma_first_of(e, ':', path);
    assert(e.push(':') + path =~= rest);
    assert((user.push('@') + rest).skip(user.len() as int + 1) =~= rest);
}

/// The number that decimal digits stand for.
pub open spec fn digits_value(s: Seq<char>) -> int
    decreases s.len(),
{
    if s.len() == 0 {
        0
    } else {
        digits_value(s.drop_last()) * 10 + (s.last() as int - 48)
    }
}

proof fn lemma_decimal(n: nat)
    ensures
        digits_value(decimal(n)) == n,
        decimal(n).len() > 0,
        forall|i: int| 0 <= i < decimal(n).len() ==> '0' <= #[trigger] decimal(n)[i] <= '9',
    decreases n,
{
    let d = decimal(n);
    if n < 10 {
        assert(d.drop_last() =~= Seq::empty());
        assert(digits_value(d.drop_last()) == 0);
    } else {
        lemma_decimal(n / 10);
        assert(d.drop_last() =~= decimal(n / 10));
    }
}

/// The name under which a server's key is pinned says which server it is: two servers
/// share one only where host and port are the same.
pub proof fn law_pins_are_kept_apart(a: Seq<char>, p: u16, b: Seq<char>, q: u16)
    requires
        host_key_text(a, p) == host_key_text(b, q),
    ensures
        a == b,
        p == q,
{
    lemma_decimal(p as nat);
    lemma_decimal(q as nat);
    let s = host_key_text(a, p);
    let dp = decimal(p as nat);
    let dq = decimal(q as nat);
    assert(s.len() == a.len() + 1 + dp.len());
    assert(s.len() == b.len() + 1 + dq.len());
    assert(s[a.len() as int] == ':');
    assert(host_key_text(b, q)[b.len() as int] == ':');
    if a.len() < b.len() {
        assert(s[b.len() as int] == dp[b.len() - a.len() - 1]);
    }
    if b.len() < a.len() {
        assert(host_key_text(b, q)[a.len() as int] == dq[a.len() - b.len() - 1]);
    }
    assert(s.take(a.len() as int) =~= a);
    assert(s.take(b.len() as int) =~= b);
    assert(s.skip(a.len() as int + 1) =~= dp);
    assert(s.skip(b.len() as int + 1) =~= dq);
}

/// A server's pin is kept under its host, a colon and the digits of its port.
pub proof fn law_pin_names_host_and_port(host: Seq<char>, port: u16)
    ensures
        host_key_text(host, port).len() > host.len() + 1,
        host_key_text(host, port).take(host.len() as int) == host,
        host_key_text(host, port)[host.len() as int] == ':',
        digits_value(host_key_text(host, port).skip(host.len() as int + 1)) == port,
{
    lemma_decimal(port as nat);
    let s = host_key_text(host, port);
    assert(s.take(host.len() as int) =~= host);
    assert(s.skip(host.len() as int + 1) =~= decimal(port as nat));
}

} // verus!
