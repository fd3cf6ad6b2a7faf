//! Confinement of client-supplied paths beneath the export root.
//!
//! A path is first taken apart and put together again below the root; what the
//! filesystem then says about it (which prefixes are symbolic links, what the
//! whole resolves to) can still refuse it. Every sink opens relative to the root,
//! so the kernel re-checks the confinement when it opens.

use vstd::prelude::*;
use vstd::utf8::encode_utf8;

use crate::common::status::IoErrorKind;
use crate::path::{
    components, components_of, file_name, file_name_of, is_beneath, is_name, is_part, join_all,
    join_path, law_join_all_stays_beneath, law_parent_of_join, law_strip_tail_keeps_components,
    parent, parent_of, starts_with_path,
};
use crate::text::{
    byte_len, chars_of, contains_char, copy_of, is_char, lemma_filter_from, lemma_filter_push,
    lemma_filter_single, lemma_split_concat, lemma_split_pieces, lemma_split_single, lists_text, pieces, split_chars, split_on, string_of, texts, utf8_len,
};

verus! {

/// Maximum byte length accepted for a client-supplied path (PATH_MAX).
pub const MAX_PATH_LEN: usize = 4096;

/// Maximum byte length of one component (NAME_MAX).
pub const MAX_COMPONENT_LEN: usize = 255;

/// Maximum number of path components allowed.
pub const MAX_PATH_DEPTH: usize = 128;

/// Why a client's path was refused. The client is told no more than that it was.
#[derive(Debug, Clone, Copy, PartialEq, Eq, Structural)]
pub enum ResolveError {
    TooLong,
    NullByte,
    Traversal,
    ComponentTooLong,
    TooDeep,
    EscapesRoot,
}

/// What the filesystem says about a path below the root.
#[derive(Debug, Clone)]
pub struct PathFacts {
    /// The paths, among the leading directories of the one asked for, that are
    /// themselves symbolic links.
    pub symlinks: Vec<String>,
    /// If the whole path exists: where it and the root really lie.
    pub canonical: Option<(String, String)>,
}

impl PathFacts {
    /// Nothing of the path is there.
    pub fn absent() -> (res: Self)
        ensures
            res.symlinks@.len() == 0,
            res.canonical is None,
    {
        PathFacts { symlinks: Vec::new(), canonical: None }
    }

    pub open spec fn is_symlink(self, path: Seq<char>) -> bool {
        texts(self.symlinks@).contains(path)
    }
}

/// The parts of a path that name something: empty pieces and `.` are skipped.
pub open spec fn parts(path: Seq<char>) -> Seq<Seq<char>> {
    split_on(path, '/').filter(|p: Seq<char>| is_part(p))
}

/// A part that no accepted path may hold, and the reason.
pub open spec fn fault(p: Seq<char>) -> Option<ResolveError> {
    if p == seq!['.', '.'] {
        Some(ResolveError::Traversal)
    } else if utf8_len(p) > MAX_COMPONENT_LEN {
        Some(ResolveError::ComponentTooLong)
    } else {
        None
    }
}

/// The fault of the first part that has one.
pub open spec fn first_fault(ps: Seq<Seq<char>>) -> Option<ResolveError>
    decreases ps.len(),
{
    if ps.len() == 0 {
        None
    } else if first_fault(ps.drop_last()) is Some {
        first_fault(ps.drop_last())
    } else {
        fault(ps.last())
    }
}

/// The components that a client's path names, or why it is refused.
pub open spec fn normalized(path: Seq<char>) -> Result<Seq<Seq<char>>, ResolveError> {
    if utf8_len(path) > MAX_PATH_LEN {
        Err(ResolveError::TooLong)
    } else if path.contains('\0') {
        Err(ResolveError::NullByte)
    } else if first_fault(parts(path)) is Some {
        Err(first_fault(parts(path))->0)
    } else if parts(path).len() > MAX_PATH_DEPTH {
        Err(ResolveError::TooDeep)
    } else {
        Ok(parts(path))
    }
}

/// Some directory on the way to the last of `names` is a symbolic link.
pub open spec fn crosses_symlink(root: Seq<char>, names: Seq<Seq<char>>, facts: PathFacts) -> bool {
    exists|i: int|
        0 < i < names.len() && #[trigger] facts.is_symlink(join_all(root, names.take(i)))
}

/// The path that exists really lies somewhere else than below the root.
pub open spec fn lies_outside(facts: PathFacts) -> bool {
    facts.canonical matches Some((lies, lies_root)) && !is_beneath(lies_root@, lies@)
}

/// The confined path that a client's path stands for, or why it is refused.
pub open spec fn resolved(root: Seq<char>, path: Seq<char>, facts: PathFacts) -> Result<
    Seq<char>,
    ResolveError,
> {
    match normalized(path) {
        Err(e) => Err(e),
        Ok(names) => if crosses_symlink(root, names, facts) || lies_outside(facts) {
            Err(ResolveError::EscapesRoot)
        } else {
            Ok(join_all(root, names))
        },
    }
}

/// `p` is the confined path that a client's path stands for.
pub open spec fn is_resolved(
    root: Seq<char>,
    path: Seq<char>,
    facts: PathFacts,
    p: Seq<char>,
) -> bool {
    resolved(root, path, facts) == Ok::<Seq<char>, ResolveError>(p)
}

// ── laws ─────────────────────────────────────────────────────────────────────
proof fn lemma_first_fault_none(ps: Seq<Seq<char>>, i: int)
    requires
        first_fault(ps) is None,
        0 <= i < ps.len(),
    ensures
        fault(ps[i]) is None,
    decreases ps.len(),
{
    if i < ps.len() - 1 {
        lemma_first_fault_none(ps.drop_last(), i);
    }
}

/// Every component of an accepted path is a plain name: not empty, neither `.`
/// nor `..`, without a slash or a null byte, and not too long.
pub proof fn law_accepted_components_are_names(path: Seq<char>)
    requires
        normalized(path) is Ok,
    ensures
        (normalized(path)->Ok_0).len() <= MAX_PATH_DEPTH,
        forall|i: int|
            0 <= i < (normalized(path)->Ok_0).len() ==> is_name(
                #[trigger] (normalized(path)->Ok_0)[i],
            ) && !(normalized(path)->Ok_0)[i].contains('\0') && utf8_len(
                (normalized(path)->Ok_0)[i],
            ) <= MAX_COMPONENT_LEN,
{
    let sep = is_char('/');
    let keep = |p: Seq<char>| is_part(p);
    let all = split_on(path, '/');
    let names = parts(path);
    assert forall|i: int| 0 <= i < names.len() implies is_name(#[trigger] names[i])
        && !names[i].contains('\0') && utf8_len(names[i]) <= MAX_COMPONENT_LEN by {
        lemma_first_fault_none(names, i);
        let k = lemma_filter_from(all, keep, i);
        assert(keep(names[i]));
        assert forall|j: int| 0 <= j < names[i].len() implies names[i][j] != '/' && names[i][j]
            != '\0' by {
            lemma_split_pieces(path, sep, k, j);
        }
    }
}

/// The jail: whatever a client sends, and whatever the filesystem answers, a path
/// that is accepted lies below the export root, and the way down from the root is
/// made of plain names.
pub proof fn law_resolve_never_escapes_root(root: Seq<char>, path: Seq<char>, facts: PathFacts)
    requires
        resolved(root, path, facts) is Ok,
    ensures
        is_beneath(root, resolved(root, path, facts)->Ok_0),
        components(resolved(root, path, facts)->Ok_0) == components(root)
            + normalized(path)->Ok_0,
{
    law_accepted_components_are_names(path);
    law_join_all_stays_beneath(root, normalized(path)->Ok_0);
}

/// A path whose existing target really lies outside the root is always refused.
pub proof fn law_outside_target_is_refused(root: Seq<char>, path: Seq<char>, facts: PathFacts)
    requires
        lies_outside(facts),
    ensures
        resolved(root, path, facts) is Err,
{
}

proof fn lemma_no_fault(ps: Seq<Seq<char>>)
    requires
        forall|i: int| 0 <= i < ps.len() ==> fault(#[trigger] ps[i]) is None,
    ensures
        first_fault(ps) is None,
    decreases ps.len(),
{
    if ps.len() > 0 {
        let p = ps.drop_last();
        assert forall|i: int| 0 <= i < p.len() implies fault(#[trigger] p[i]) is None by {
            assert(p[i] == ps[i]);
        }
        lemma_no_fault(p);
        assert(fault(ps[ps.len() - 1]) is None);
    }
}

/// Acceptance is exact. What lies between the slashes counts, except for nothing and `.`.
/// A path is refused only where it is longer than 4096 bytes, holds a null byte, has more
/// than 128 such parts, one of more than 255 bytes or one that is exactly `..`, goes through
/// a symbolic link, or ends outside. Every other path is accepted, hidden files among them,
/// and stands for the root followed by its parts in their order.
pub proof fn law_only_escaping_paths_are_refused(
    root: Seq<char>,
    path: Seq<char>,
    facts: PathFacts,
    names: Seq<Seq<char>>,
)
    requires
        names == split_on(path, '/').filter(|p: Seq<char>| p.len() > 0 && p != seq!['.']),
    ensures
        resolved(root, path, facts) is Ok <==> {
            &&& encode_utf8(path).len() <= 4096
            &&& !path.contains('\0')
            &&& names.len() <= 128
            &&& forall|i: int|
                0 <= i < names.len() ==> #[trigger] names[i] != seq!['.', '.'] && encode_utf8(
                    names[i],
                ).len() <= 255
            &&& forall|i: int|
                0 < i < names.len() ==> !texts(facts.symlinks@).contains(
                    #[trigger] join_all(root, names.take(i)),
                )
            &&& facts.canonical matches Some((lies, lies_root)) ==> is_beneath(lies_root@, lies@)
        },
        resolved(root, path, facts) matches Ok(p) ==> {
            &&& p == join_all(root, names)
            &&& components(p) == components(root) + names
        },
{
    let keep = |p: Seq<char>| is_part(p);
    assert(keep =~= (|p: Seq<char>| p.len() > 0 && p != seq!['.']));
    assert(parts(path) == names);
    if forall|i: int| 0 <= i < names.len() ==> #[trigger] names[i] != seq!['.', '.'] && utf8_len(
        names[i],
    ) <= 255 {
        assert forall|i: int| 0 <= i < names.len() implies fault(#[trigger] names[i]) is None by {
            assert(names[i] != seq!['.', '.'] && utf8_len(names[i]) <= 255);
        }
        lemma_no_fault(names);
    }
    if resolved(root, path, facts) is Ok {
        assert forall|i: int| 0 <= i < names.len() implies #[trigger] names[i] != seq!['.', '.']
            && utf8_len(names[i]) <= 255 by {
            lemma_first_fault_none(names, i);
        }
        assert forall|i: int| 0 < i < names.len() implies !texts(facts.symlinks@).contains(
            #[trigger] join_all(root, names.take(i)),
        ) by {
            assert(!facts.is_symlink(join_all(root, names.take(i))));
        }
        law_resolve_never_escapes_root(root, path, facts);
    }
}

proof fn lemma_absolute_text(names: Seq<Seq<char>>)
    requires
        forall|i: int|
            0 <= i < names.len() ==> is_name(#[trigger] names[i]) && !names[i].contains('\0'),
    ensures
        join_all(seq!['/'], names).len() > 0,
        join_all(seq!['/'], names)[0] == '/',
        !join_all(seq!['/'], names).contains('\0'),
    decreases names.len(),
{
    if names.len() > 0 {
        let up = names.drop_last();
        assert forall|i: int| 0 <= i < up.len() implies is_name(#[trigger] up[i])
            && !up[i].contains('\0') by {
            assert(up[i] == names[i]);
        }
        lemma_absolute_text(up);
        let base = join_all(seq!['/'], up);
        let name = names[names.len() - 1];
        let whole = join_all(seq!['/'], names);
        assert(is_name(name));
        assert(name.contains(name[0]));
        assert(base.contains(base[0]));
        assert forall|i: int| 0 <= i < whole.len() implies whole[i] != '\0' by {
            if i < base.len() {
                assert(base.contains(base[i]));
            } else {
                let k = if base.last() == '/' {
                    i - base.len()
                } else {
                    i - base.len() - 1
                };
                if k >= 0 {
                    assert(name.contains(name[k]));
                }
            }
        }
    }
}

/// Every file has a path: whatever names lead to it, as long as a directory can hold them,
/// the path that puts them one below the other is accepted and stands for the file that
/// they lead to from the root.
pub proof fn law_every_file_can_be_named(
    root: Seq<char>,
    names: Seq<Seq<char>>,
    facts: PathFacts,
)
    requires
        names.len() <= 128,
        forall|i: int|
            0 <= i < names.len() ==> {
                &&& (#[trigger] names[i]).len() > 0
                &&& names[i] != seq!['.']
                &&& names[i] != seq!['.', '.']
                &&& !names[i].contains('/')
                &&& !names[i].contains('\0')
                &&& encode_utf8(names[i]).len() <= 255
            },
        encode_utf8(join_all(seq!['/'], names)).len() <= 4096,
        facts.symlinks@.len() == 0,
        facts.canonical is None,
    ensures
        resolved(root, join_all(seq!['/'], names), facts) == Ok::<Seq<char>, ResolveError>(
            join_all(root, names),
        ),
{
    let path = join_all(seq!['/'], names);
    let top = seq!['/'];
    assert forall|i: int| 0 <= i < names.len() implies is_name(#[trigger] names[i])
        && !names[i].contains('\0') by {
        assert(names[i].len() > 0);
    }
    lemma_absolute_text(names);
    law_join_all_stays_beneath(top, names);
    let keep = |p: Seq<char>| is_part(p);
    let e = Seq::<char>::empty();
    assert(parts(top).len() == 0) by {
        lemma_split_single(e, is_char('/'));
        assert(top =~= e.push('/') + e);
        lemma_split_concat(e, '/', e, is_char('/'));
        lemma_filter_single(e, keep);
        Seq::filter_distributes_over_add(seq![e], seq![e], keep);
        assert(split_on(top, '/') == seq![e] + seq![e]);
    }
    assert(components(top) =~= seq![top]);
    assert(components(path) == seq![top] + parts(path));
    assert(parts(path) =~= names) by {
        assert(parts(path) =~= components(path).skip(1));
        assert(names =~= (seq![top] + names).skip(1));
    }
    assert forall|i: int| 0 <= i < names.len() implies fault(#[trigger] names[i]) is None by {
        assert(utf8_len(names[i]) <= 255);
    }
    lemma_no_fault(names);
    assert(!crosses_symlink(root, names, facts));
}

// ── functions ────────────────────────────────────────────────────────────────
fn fault_of(p: &str) -> (res: Option<ResolveError>)
    ensures
        res == fault(p@),
{
    let c = chars_of(p);
    assert(c@.len() == 2 && c@[0] == '.' && c@[1] == '.' ==> c@ =~= seq!['.', '.']);
    if c.len() == 2 && c[0] == '.' && c[1] == '.' {
        Some(ResolveError::Traversal)
    } else if byte_len(p) > MAX_COMPONENT_LEN {
        Some(ResolveError::ComponentTooLong)
    } else {
        None
    }
}

/// Takes a client's path apart into the components it names.
pub fn normalize(client_path: &str) -> (res: Result<Vec<String>, ResolveError>)
    ensures
        match res {
            Ok(names) => normalized(client_path@) == Ok::<Seq<Seq<char>>, ResolveError>(
                texts(names@),
            ),
            Err(e) => normalized(client_path@) == Err::<Seq<Seq<char>>, ResolveError>(e),
        },
{
    if byte_len(client_path) > MAX_PATH_LEN {
        return Err(ResolveError::TooLong);
    }
    let chars = chars_of(client_path);
    if contains_char(&chars, '\0') {
        return Err(ResolveError::NullByte);
    }
    let all = split_chars(&chars, '/');
    let ghost ps = pieces(all@);
    let ghost keep = |p: Seq<char>| is_part(p);
    let mut names: Vec<String> = Vec::new();
    let mut bad: Option<ResolveError> = None;
    let mut i: usize = 0;
    proof {
        reveal(Seq::filter);
        assert(texts(names@) =~= ps.take(0).filter(keep));
    }
    while i < all.len()
        invariant
            i <= all.len(),
            ps == pieces(all@),
            keep == (|p: Seq<char>| is_part(p)),
            texts(names@) == ps.take(i as int).filter(keep),
            bad == first_fault(texts(names@)),
        decreases all.len() - i,
    {
        let ghost before = texts(names@);
        proof {
            assert(ps.take(i + 1) =~= ps.take(i as int).push(ps[i as int]));
            lemma_filter_push(ps.take(i as int), ps[i as int], keep);
            assert(all@[i as int]@.len() == 1 && all@[i as int]@[0] == '.' ==> all@[i as int]@
                =~= seq!['.']);
        }
        let skip = all[i].len() == 0 || (all[i].len() == 1 && all[i][0] == '.');
        if !skip {
            let name = string_of(all[i].as_slice());
            assert(name@ =~= ps[i as int]);
            if bad.is_none() {
                bad = fault_of(name.as_str());
            }
            names.push(name);
            assert(texts(names@) =~= before.push(ps[i as int]));
            assert(texts(names@).drop_last() =~= before);
        }
        i = i + 1;
    }
    assert(ps.take(i as int) =~= ps);
    match bad {
        Some(e) => Err(e),
        None => if names.len() > MAX_PATH_DEPTH {
            Err(ResolveError::TooDeep)
        } else {
            Ok(names)
        },
    }
}

/// The directories on the way to the last of `names`, from the root down: each
/// must not be a symbolic link.
pub fn leading_paths(root: &str, names: &Vec<String>) -> (res: Vec<String>)
    ensures
        res@.len() == (if names@.len() > 0 {
            names@.len() - 1
        } else {
            0
        }),
        forall|i: int|
            0 <= i < res@.len() ==> (#[trigger] res@[i])@ == join_all(
                root@,
                texts(names@).take(i + 1),
            ),
{
    let ghost all = texts(names@);
    let mut out: Vec<String> = Vec::new();
    let mut cur = copy_of(root);
    let mut i: usize = 0;
    assert(cur@ == join_all(root@, all.take(0)));
    while i < names.len()
        invariant
            i <= names.len(),
            all == texts(names@),
            cur@ == join_all(root@, all.take(i as int)),
            out@.len() == (if i < names.len() {
                i as int
            } else if names.len() > 0 {
                names.len() - 1
            } else {
                0
            }),
            forall|k: int|
                0 <= k < out@.len() ==> (#[trigger] out@[k])@ == join_all(root@, all.take(k + 1)),
        decreases names.len() - i,
    {
        proof {
            assert(all.take(i + 1).drop_last() =~= all.take(i as int));
            assert(all.take(i + 1).last() == names@[i as int]@);
        }
        cur = join_path(cur.as_str(), names[i].as_str());
        if i + 1 < names.len() {
            out.push(copy_of(cur.as_str()));
        }
        i = i + 1;
    }
    out
}

/// Resolve a client-supplied path relative to `root`, given what the filesystem
/// says about it: rejects every path that would leave the export root or that
/// holds a suspicious component.
pub fn resolve(root: &str, client_path: &str, facts: &PathFacts) -> (res: Result<
    String,
    ResolveError,
>)
    ensures
        match res {
            Ok(p) => is_resolved(root@, client_path@, *facts, p@) && is_beneath(root@, p@),
            Err(e) => resolved(root@, client_path@, *facts) == Err::<Seq<char>, ResolveError>(e),
        },
{
    let names = match normalize(client_path) {
        Ok(n) => n,
        Err(e) => {
            return Err(e);
        },
    };
    let ghost all = texts(names@);
    let mut walking = copy_of(root);
    let mut i: usize = 0;
    assert(walking@ == join_all(root@, all.take(0)));
    while i < names.len()
        invariant
            i <= names.len(),
            all == texts(names@),
            normalized(client_path@) == Ok::<Seq<Seq<char>>, ResolveError>(all),
            walking@ == join_all(root@, all.take(i as int)),
            forall|k: int|
                0 < k <= i && k < all.len() ==> !#[trigger] facts.is_symlink(
                    join_all(root@, all.take(k)),
                ),
        decreases names.len() - i,
    {
        proof {
            assert(all.take(i + 1).drop_last() =~= all.take(i as int));
            assert(all.take(i + 1).last() == names@[i as int]@);
        }
        walking = join_path(walking.as_str(), names[i].as_str());
        // Leading directories must not be links. The last component may be one:
        // it is what readlink and lstat are asked about.
        if i + 1 < names.len() && lists_text(&facts.symlinks, walking.as_str()) {
            proof {
                assert(facts.is_symlink(join_all(root@, all.take(i + 1))));
                assert(crosses_symlink(root@, all, *facts));
            }
            return Err(ResolveError::EscapesRoot);
        }
        i = i + 1;
    }
    assert(all.take(i as int) =~= all);
    assert(!crosses_symlink(root@, all, *facts));
    if let Some(pair) = &facts.canonical {
        if !starts_with_path(pair.0.as_str(), pair.1.as_str()) {
            return Err(ResolveError::EscapesRoot);
        }
    }
    proof {
        law_resolve_never_escapes_root(root@, client_path@, *facts);
    }
    Ok(walking)
}

// ── confined opens ───────────────────────────────────────────────────────────
/// How a file is accessed.
#[derive(Debug, Clone, Copy, PartialEq, Eq, Structural)]
pub enum Access {
    ReadOnly,
    WriteOnly,
    ReadWrite,
}

/// How a file is opened.
#[derive(Debug, Clone, Copy, PartialEq, Eq, Structural)]
pub struct OpenHow {
    pub access: Access,
    pub create: bool,
    pub exclusive: bool,
    pub truncate: bool,
    pub append: bool,
    /// Refuse a symbolic link as the last component.
    pub no_follow: bool,
    /// Only a reference to the file, not its contents.
    pub path_only: bool,
    /// Refuse anything but a directory.
    pub directory: bool,
    /// Permission bits of a file that is created; zero where none is.
    pub mode: u32,
}

/// The components that `path` has below `root`, one below the other.
pub open spec fn below(root: Seq<char>, path: Seq<char>) -> Seq<Seq<char>> {
    components(path).skip(components(root).len() as int)
}

/// The path to open relative to a descriptor of the root: `.` for the root
/// itself. Nothing outside the root has one, and no name with a null byte.
pub open spec fn beneath_path(root: Seq<char>, path: Seq<char>) -> Result<Seq<char>, IoErrorKind> {
    if !is_beneath(root, path) {
        Err(IoErrorKind::PermissionDenied)
    } else {
        let rel = if below(root, path).len() == 0 {
            seq!['.']
        } else {
            join_all(Seq::empty(), below(root, path))
        };
        if rel.contains('\0') || root.contains('\0') {
            Err(IoErrorKind::InvalidInput)
        } else {
            Ok(rel)
        }
    }
}

/// For a path that `resolve` accepted, the way down from the root is exactly the
/// components that the client named.
pub proof fn law_resolved_path_opens_beneath_root(
    root: Seq<char>,
    path: Seq<char>,
    facts: PathFacts,
)
    requires
        resolved(root, path, facts) is Ok,
    ensures
        below(root, resolved(root, path, facts)->Ok_0) == normalized(path)->Ok_0,
        !(beneath_path(root, resolved(root, path, facts)->Ok_0) matches Err(
            IoErrorKind::PermissionDenied,
        )),
{
    law_resolve_never_escapes_root(root, path, facts);
    let names = normalized(path)->Ok_0;
    assert((components(root) + names).skip(components(root).len() as int) =~= names);
}

/// An entry below the root is reached through a directory that lies below the root too,
/// by the last name that the client gave, which is a plain one.
pub proof fn law_entries_are_reached_beneath_root(
    root: Seq<char>,
    path: Seq<char>,
    facts: PathFacts,
)
    requires
        resolved(root, path, facts) is Ok,
        (normalized(path)->Ok_0).len() > 0,
    ensures
        ({
            let p = resolved(root, path, facts)->Ok_0;
            &&& parent(p) is Some
            &&& is_beneath(root, parent(p)->0)
            &&& file_name(p) == Some((normalized(path)->Ok_0).last())
            &&& is_name((normalized(path)->Ok_0).last())
        }),
{
    let names = normalized(path)->Ok_0;
    let up = names.drop_last();
    let dir = join_all(root, up);
    law_accepted_components_are_names(path);
    assert(is_name(names[names.len() - 1]));
    assert forall|i: int| 0 <= i < up.len() implies is_name(#[trigger] up[i]) by {
        assert(up[i] == names[i]);
    }
    law_parent_of_join(dir, names.last());
    law_join_all_stays_beneath(root, up);
    law_strip_tail_keeps_components(dir);
}

/// The path to open relative to a descriptor of the root.
pub fn path_beneath(root: &str, path: &str) -> (res: Result<String, IoErrorKind>)
    ensures
        match res {
            Ok(rel) => beneath_path(root@, path@) == Ok::<Seq<char>, IoErrorKind>(rel@),
            Err(e) => beneath_path(root@, path@) == Err::<Seq<char>, IoErrorKind>(e),
        },
{
    if !starts_with_path(path, root) {
        return Err(IoErrorKind::PermissionDenied);
    }
    let all = components_of(path);
    let n: usize = components_of(root).len();
    let ghost names = below(root@, path@);
    let mut rel = String::new();
    let mut i: usize = n;
    proof {
        assert(components(root@).len() <= components(path@).len());
        assert(rel@ =~= join_all(Seq::empty(), names.take(0)));
    }
    while i < all.len()
        invariant
            n <= i <= all.len(),
            n == components(root@).len(),
            pieces(all@) == components(path@),
            names == below(root@, path@),
            rel@ == join_all(Seq::empty(), names.take(i - n)),
        decreases all.len() - i,
    {
        proof {
            assert(names.take(i + 1 - n).drop_last() =~= names.take(i - n));
            assert(names.take(i + 1 - n).last() == names[i - n]);
            assert(names[i - n] == pieces(all@)[i as int]);
        }
        rel = join_path(rel.as_str(), string_of(all[i].as_slice()).as_str());
        i = i + 1;
    }
    assert(names.take(all.len() - n) =~= names);
    if all.len() == n {
        rel = String::new();
        rel.push('.');
        assert(rel@ =~= seq!['.']);
    }
    if contains_char(&chars_of(rel.as_str()), '\0') || contains_char(&chars_of(root), '\0') {
        return Err(IoErrorKind::InvalidInput);
    }
    Ok(rel)
}

/// The directory to open and the name in it, for an operation on a directory
/// entry; the root itself and names with a null byte have none.
pub fn confined_parent(path: &str) -> (res: Result<(String, String), IoErrorKind>)
    ensures
        match res {
            Ok((dir, name)) => parent(path@) == Some(dir@) && file_name(path@) == Some(name@)
                && !name@.contains('\0'),
            Err(e) => e == IoErrorKind::InvalidInput && (parent(path@) is None || file_name(
                path@,
            ) is None || file_name(path@)->0.contains('\0')),
        },
{
    let dir = match parent_of(path) {
        Some(d) => d,
        None => {
            return Err(IoErrorKind::InvalidInput);
        },
    };
    let name = match file_name_of(path) {
        Some(n) => n,
        None => {
            return Err(IoErrorKind::InvalidInput);
        },
    };
    if contains_char(&chars_of(name.as_str()), '\0') {
        return Err(IoErrorKind::InvalidInput);
    }
    Ok((dir, name))
}

/// How a directory is opened for its entries to be forced to disk.
pub fn sync_dir_how() -> (res: OpenHow)
    ensures
        res == (OpenHow {
            access: Access::ReadOnly,
            create: false,
            exclusive: false,
            truncate: false,
            append: false,
            no_follow: true,
            path_only: false,
            directory: true,
            mode: 0,
        }),
{
    OpenHow {
        access: Access::ReadOnly,
        create: false,
        exclusive: false,
        truncate: false,
        append: false,
        no_follow: true,
        path_only: false,
        directory: true,
        mode: 0,
    }
}

/// How a directory is opened for an operation on one of its entries.
pub fn parent_dir_how() -> (res: OpenHow)
    ensures
        res == (OpenHow {
            access: Access::ReadOnly,
            create: false,
            exclusive: false,
            truncate: false,
            append: false,
            no_follow: false,
            path_only: true,
            directory: true,
            mode: 0,
        }),
{
    OpenHow {
        access: Access::ReadOnly,
        create: false,
        exclusive: false,
        truncate: false,
        append: false,
        no_follow: false,
        path_only: true,
        directory: true,
        mode: 0,
    }
}

/// The permission bits of a mode: never setuid, setgid or sticky.
pub fn permission_bits(mode: u32) -> (res: u32)
    ensures
        res == mode & 0o777,
        res <= 0o777,
{
    assert(mode & 0o777 <= 0o777) by (bit_vector);
    mode & 0o777
}

/// What is opened below the root is what the path names below it: the same components, and
/// nothing that starts at the root of the host. The root itself is `.`.
pub proof fn law_opened_path_names_the_same_file(root: Seq<char>, path: Seq<char>, facts: PathFacts)
    requires
        resolved(root, path, facts) is Ok,
        !root.contains('\0'),
    ensures
        ({
            let names = normalized(path)->Ok_0;
            let rel = beneath_path(root, resolved(root, path, facts)->Ok_0);
            &&& rel is Ok
            &&& names.len() > 0 ==> components(rel->Ok_0) == names
            &&& names.len() == 0 ==> rel->Ok_0 == seq!['.']
            &&& rel->Ok_0[0] != '/'
        }),
{
    let names = normalized(path)->Ok_0;
    let e = Seq::<char>::empty();
    law_resolved_path_opens_beneath_root(root, path, facts);
    law_accepted_components_are_names(path);
    law_join_all_stays_beneath(e, names);
    lemma_split_single(e, is_char('/'));
    lemma_filter_single(e, |p: Seq<char>| is_part(p));
    assert(components(e) =~= Seq::empty());
    assert(components(e) + names =~= names);
    lemma_relative_text(names);
}

proof fn lemma_relative_text(names: Seq<Seq<char>>)
    requires
        forall|i: int|
            0 <= i < names.len() ==> is_name(#[trigger] names[i]) && !names[i].contains('\0'),
    ensures
        !join_all(Seq::empty(), names).contains('\0'),
        names.len() > 0 ==> join_all(Seq::empty(), names).len() > 0 && join_all(
            Seq::empty(),
            names,
        )[0] != '/',
    decreases names.len(),
{
    if names.len() > 0 {
        let up = names.drop_last();
        assert forall|i: int| 0 <= i < up.len() implies is_name(#[trigger] up[i])
            && !up[i].contains('\0') by {
            assert(up[i] == names[i]);
        }
        lemma_relative_text(up);
        let base = join_all(Seq::empty(), up);
        let name = names[names.len() - 1];
        let whole = join_all(Seq::empty(), names);
        assert(is_name(name));
        assert(name.contains(name[0]));
        assert forall|i: int| 0 <= i < whole.len() implies whole[i] != '\0' by {
            if i < base.len() {
                assert(base.contains(base[i]));
            } else {
                let k = if base.len() == 0 || base.last() == '/' {
                    i - base.len()
                } else {
                    i - base.len() - 1
                };
                if k >= 0 {
                    assert(name.contains(name[k]));
                }
            }
        }
    }
}

/// What does not lie below the root is never opened.
pub proof fn law_outside_paths_are_not_opened(root: Seq<char>, path: Seq<char>)
    requires
        !is_beneath(root, path),
    ensures
        beneath_path(root, path) == Err::<Seq<char>, IoErrorKind>(IoErrorKind::PermissionDenied),
{
}

} // verus!
