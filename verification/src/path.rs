//! Unix paths as text: joining, components, parent and last name.

use vstd::prelude::*;

use crate::text::{
    chars_of, copy_of, is_char, lemma_filter_from, lemma_filter_push, lemma_filter_single,
    lemma_split_concat, lemma_split_nonempty, lemma_split_pieces, lemma_split_single, pieces,
    same_chars, slice_of, split_by, split_chars, split_on, string_of,
};

verus! {

/// A piece between slashes that names something: neither empty nor `.`.
pub open spec fn is_part(p: Seq<char>) -> bool {
    p.len() > 0 && p != seq!['.']
}

/// A name that a directory entry can have.
pub open spec fn is_name(p: Seq<char>) -> bool {
    is_part(p) && p != seq!['.', '.'] && !p.contains('/')
}

/// The components of a path. A leading slash counts as the component `/`, a
/// leading `.` as the component `.`; empty pieces and other `.` are skipped.
pub open spec fn components(s: Seq<char>) -> Seq<Seq<char>> {
    let ps = split_on(s, '/');
    let parts = ps.filter(|p: Seq<char>| is_part(p));
    if s.len() > 0 && s[0] == '/' {
        seq![seq!['/']] + parts
    } else if ps[0] == seq!['.'] {
        seq![seq!['.']] + parts
    } else {
        parts
    }
}

/// `base` with `name` put below it; an absolute `name` stands for itself.
pub open spec fn join(base: Seq<char>, name: Seq<char>) -> Seq<char> {
    if name.len() > 0 && name[0] == '/' {
        name
    } else if base.len() == 0 || base.last() == '/' {
        base + name
    } else {
        base.push('/') + name
    }
}

/// `base` with each of `names` put below the one before.
pub open spec fn join_all(base: Seq<char>, names: Seq<Seq<char>>) -> Seq<char>
    decreases names.len(),
{
    if names.len() == 0 {
        base
    } else {
        join(join_all(base, names.drop_last()), names.last())
    }
}

/// The shortest spelling of a path: its components, one below the other.
pub open spec fn canonical(s: Seq<char>) -> Seq<char> {
    join_all(Seq::empty(), components(s))
}

/// The components of `base` are the first ones of `path`.
pub open spec fn is_beneath(base: Seq<char>, path: Seq<char>) -> bool {
    components(base).is_prefix_of(components(path))
}

/// The path without the separators and `.` pieces at its end.
pub open spec fn strip_tail(s: Seq<char>) -> Seq<char>
    decreases s.len(),
{
    if s.len() >= 2 && (s.last() == '/' || (s.last() == '.' && s[s.len() - 2] == '/')) {
        strip_tail(s.drop_last())
    } else {
        s
    }
}

/// Where the piece behind the last slash starts.
pub open spec fn last_piece_start(s: Seq<char>) -> int
    decreases s.len(),
{
    if s.len() == 0 || s.last() == '/' {
        s.len() as int
    } else {
        last_piece_start(s.drop_last())
    }
}

/// The path without its last component; none of the root or of an empty path.
pub open spec fn parent(s: Seq<char>) -> Option<Seq<char>> {
    let t = strip_tail(s);
    if t.len() == 0 || t == seq!['/'] {
        None
    } else {
        Some(strip_tail(t.take(last_piece_start(t))))
    }
}

/// The last component, where it is a plain name.
pub open spec fn file_name(s: Seq<char>) -> Option<Seq<char>> {
    let t = strip_tail(s);
    let piece = t.skip(last_piece_start(t));
    if t.len() == 0 || t == seq!['/'] || piece == seq!['.'] || piece == seq!['.', '.'] {
        None
    } else {
        Some(piece)
    }
}

// ── laws ─────────────────────────────────────────────────────────────────────
/// Joining a name adds it as the last component.
pub proof fn law_join_adds_component(base: Seq<char>, name: Seq<char>)
    requires
        is_part(name),
        !name.contains('/'),
    ensures
        components(join(base, name)) == components(base).push(name),
{
    let sep = is_char('/');
    let keep = |p: Seq<char>| is_part(p);
    assert forall|i: int| 0 <= i < name.len() implies !sep(#[trigger] name[i]) by {
        assert(name.contains(name[i]));
    }
    assert(name.contains(name[0]));
    lemma_split_single(name, sep);
    lemma_split_nonempty(base, sep);
    let whole = join(base, name);
    let e = Seq::<char>::empty();
    lemma_filter_single(name, keep);
    lemma_filter_single(e, keep);
    if base.len() == 0 {
        assert(whole =~= name);
        assert(base =~= e);
        assert(components(base) =~= Seq::empty());
        assert(components(whole) =~= seq![name]);
        assert(Seq::<Seq<char>>::empty().push(name) =~= seq![name]);
    } else if base.last() == '/' {
        let a = base.drop_last();
        assert(base =~= a.push('/'));
        assert(base =~= a.push('/') + e);
        lemma_split_nonempty(a, sep);
        lemma_split_concat(a, '/', name, sep);
        lemma_split_concat(a, '/', e, sep);
        let ra = split_by(a, sep);
        Seq::filter_distributes_over_add(ra, seq![name], keep);
        Seq::filter_distributes_over_add(ra, seq![e], keep);
        assert(whole[0] == base[0]);
        assert((ra + seq![name])[0] == ra[0]);
        assert((ra + seq![e])[0] == ra[0]);
        assert(components(whole) =~= components(base).push(name));
    } else {
        lemma_split_concat(base, '/', name, sep);
        let rb = split_by(base, sep);
        Seq::filter_distributes_over_add(rb, seq![name], keep);
        assert(whole[0] == base[0]);
        assert((rb + seq![name])[0] == rb[0]);
        assert(components(whole) =~= components(base).push(name));
    }
}

/// Joining names one below the other adds them all, so the result stays beneath
/// the base.
pub proof fn law_join_all_stays_beneath(base: Seq<char>, names: Seq<Seq<char>>)
    requires
        forall|i: int| 0 <= i < names.len() ==> is_name(#[trigger] names[i]),
    ensures
        components(join_all(base, names)) == components(base) + names,
        is_beneath(base, join_all(base, names)),
    decreases names.len(),
{
    if names.len() == 0 {
        assert(components(base) + names =~= components(base));
    } else {
        let p = names.drop_last();
        assert forall|i: int| 0 <= i < p.len() implies is_name(#[trigger] p[i]) by {
            assert(p[i] == names[i]);
        }
        law_join_all_stays_beneath(base, p);
        assert(is_name(names[names.len() - 1]));
        law_join_adds_component(join_all(base, p), names.last());
        assert((components(base) + p).push(names.last()) =~= components(base) + names);
    }
    assert(components(base).is_prefix_of(components(base) + names));
}

proof fn lemma_last_piece_of_join(a: Seq<char>, name: Seq<char>)
    requires
        !name.contains('/'),
        a.len() == 0 || a.last() == '/',
    ensures
        last_piece_start(a + name) == a.len(),
    decreases name.len(),
{
    if name.len() == 0 {
        assert(a + name =~= a);
        assert(a.len() == 0 || a.last() == '/');
    } else {
        assert(name.contains(name.last()));
        assert((a + name).drop_last() =~= a + name.drop_last());
        assert forall|i: int| 0 <= i < name.drop_last().len() implies name.drop_last()[i]
            != '/' by {
            assert(name.contains(name[i]));
        }
        lemma_last_piece_of_join(a, name.drop_last());
    }
}

/// A path made by joining a name to a directory has that name as its last one
/// and that directory as its parent.
pub proof fn law_parent_of_join(dir: Seq<char>, name: Seq<char>)
    requires
        is_name(name),
    ensures
        parent(join(dir, name)) == Some(strip_tail(dir)),
        file_name(join(dir, name)) == Some(name),
{
    let a = if dir.len() == 0 || dir.last() == '/' {
        dir
    } else {
        dir.push('/')
    };
    let t = join(dir, name);
    assert(name.contains(name[0]));
    assert(t =~= a + name);
    assert(name.contains(name.last()));
    assert(t.last() == name.last());
    if name.last() == '.' && t.len() >= 2 && t[t.len() - 2] == '/' {
        if name.len() >= 2 {
            assert(name.contains(name[name.len() - 2]));
        } else {
            assert(name =~= seq!['.']);
        }
    }
    assert(strip_tail(t) == t);
    lemma_last_piece_of_join(a, name);
    assert(t.take(a.len() as int) =~= a);
    assert(t.skip(a.len() as int) =~= name);
    if dir.len() > 0 && dir.last() != '/' {
        assert(a.drop_last() =~= dir);
        assert(strip_tail(a) == strip_tail(dir));
    }
    assert(t != seq!['/']) by {
        assert(seq!['/'].last() == '/');
    }
}

/// Separators and `.` pieces at the end of a path do not change it.
pub proof fn law_strip_tail_keeps_components(s: Seq<char>)
    ensures
        components(strip_tail(s)) == components(s),
    decreases s.len(),
{
    if s.len() >= 2 && (s.last() == '/' || (s.last() == '.' && s[s.len() - 2] == '/')) {
        let t = s.drop_last();
        let sep = is_char('/');
        let keep = |p: Seq<char>| is_part(p);
        let e = Seq::<char>::empty();
        let dot = seq!['.'];
        law_strip_tail_keeps_components(t);
        lemma_filter_single(e, keep);
        lemma_filter_single(dot, keep);
        if s.last() == '/' {
            assert(s =~= t.push('/') + e);
            lemma_split_concat(t, '/', e, sep);
            lemma_split_nonempty(t, sep);
            let r = split_by(t, sep);
            Seq::filter_distributes_over_add(r, seq![e], keep);
            assert((r + seq![e])[0] == r[0]);
            assert(s[0] == t[0]);
        } else {
            let a = t.drop_last();
            assert(t =~= a.push('/') + e);
            assert(s =~= a.push('/') + dot);
            assert forall|i: int| 0 <= i < dot.len() implies !sep(#[trigger] dot[i]) by {}
            lemma_split_single(dot, sep);
            lemma_split_concat(a, '/', e, sep);
            lemma_split_concat(a, '/', dot, sep);
            lemma_split_nonempty(a, sep);
            let r = split_by(a, sep);
            Seq::filter_distributes_over_add(r, seq![e], keep);
            Seq::filter_distributes_over_add(r, seq![dot], keep);
            assert((r + seq![e])[0] == r[0]);
            assert((r + seq![dot])[0] == r[0]);
            assert(s[0] == t[0]);
        }
        assert(components(s) =~= components(t));
    }
}

/// A component behind the first: a part without a slash.
spec fn is_inner(p: Seq<char>) -> bool {
    is_part(p) && !p.contains('/')
}

proof fn lemma_parts(s: Seq<char>, i: int)
    requires
        0 <= i < split_on(s, '/').filter(|p: Seq<char>| is_part(p)).len(),
    ensures
        is_inner(split_on(s, '/').filter(|p: Seq<char>| is_part(p))[i]),
{
    let ps = split_on(s, '/');
    let keep = |p: Seq<char>| is_part(p);
    let part = ps.filter(keep)[i];
    let k = lemma_filter_from(ps, keep, i);
    assert forall|j: int| 0 <= j < part.len() implies part[j] != '/' by {
        lemma_split_pieces(s, is_char('/'), k, j);
    }
}

proof fn lemma_join_all_components(cs: Seq<Seq<char>>)
    requires
        cs.len() > 0,
        cs[0] == seq!['/'] || cs[0] == seq!['.'] || is_inner(cs[0]),
        forall|i: int| 1 <= i < cs.len() ==> is_inner(#[trigger] cs[i]),
    ensures
        components(join_all(Seq::empty(), cs)) == cs,
    decreases cs.len(),
{
    let e = Seq::<char>::empty();
    let p = cs.drop_last();
    if cs.len() == 1 {
        let keep = |p: Seq<char>| is_part(p);
        let h = cs[0];
        let sep = is_char('/');
        assert(join_all(e, p) == e);
        assert(join_all(e, cs) =~= h);
        lemma_filter_single(h, keep);
        lemma_filter_single(e, keep);
        if h == seq!['/'] {
            assert(e.push('/') + e =~= h);
            lemma_split_concat(e, '/', e, sep);
            assert(split_by(h, sep) =~= seq![e] + seq![e]);
            Seq::filter_distributes_over_add(seq![e], seq![e], keep);
            assert(components(h) =~= cs);
        } else {
            assert forall|i: int| 0 <= i < h.len() implies !sep(#[trigger] h[i]) by {
                if h != seq!['.'] {
                    assert(h.contains(h[i]));
                }
            }
            lemma_split_single(h, sep);
            assert(h[0] != '/') by {
                assert(!sep(h[0]));
            }
            assert(components(h) =~= cs);
        }
    } else {
        assert forall|i: int| 1 <= i < p.len() implies is_inner(#[trigger] p[i]) by {
            assert(p[i] == cs[i]);
        }
        lemma_join_all_components(p);
        assert(is_inner(cs[cs.len() - 1]));
        law_join_adds_component(join_all(e, p), cs.last());
        assert(p.push(cs.last()) =~= cs);
    }
}

/// The shortest spelling is the same path.
pub proof fn law_canonical_keeps_components(s: Seq<char>)
    ensures
        components(canonical(s)) == components(s),
{
    let cs = components(s);
    let parts = split_on(s, '/').filter(|p: Seq<char>| is_part(p));
    assert forall|i: int| 0 <= i < parts.len() implies is_inner(#[trigger] parts[i]) by {
        lemma_parts(s, i);
    }
    if cs.len() == 0 {
        assert(canonical(s) =~= Seq::empty());
        let e = Seq::<char>::empty();
        lemma_filter_single(e, |p: Seq<char>| is_part(p));
        assert(components(e) =~= cs);
    } else {
        assert(forall|i: int| 1 <= i < cs.len() ==> is_inner(#[trigger] cs[i])) by {
            assert forall|i: int| 1 <= i < cs.len() implies is_inner(#[trigger] cs[i]) by {
                if cs == parts {
                    assert(is_inner(parts[i]));
                } else {
                    assert(cs[i] == parts[i - 1]);
                }
            }
        }
        assert(cs[0] == seq!['/'] || cs[0] == seq!['.'] || is_inner(cs[0])) by {
            if cs == parts {
                assert(is_inner(parts[0]));
            }
        }
        lemma_join_all_components(cs);
    }
}

/// Two paths have the same shortest spelling exactly where they are the same path.
pub proof fn law_canonical_decides_sameness(a: Seq<char>, b: Seq<char>)
    ensures
        canonical(a) == canonical(b) <==> components(a) == components(b),
{
    law_canonical_keeps_components(a);
    law_canonical_keeps_components(b);
}

// ── functions ────────────────────────────────────────────────────────────────
fn is_part_chars(p: &Vec<char>) -> (res: bool)
    ensures
        res == is_part(p@),
{
    assert(p@.len() == 1 && p@[0] == '.' ==> p@ =~= seq!['.']);
    p.len() > 0 && !(p.len() == 1 && p[0] == '.')
}

/// The components of a path.
pub fn components_of(path: &str) -> (res: Vec<Vec<char>>)
    ensures
        pieces(res@) == components(path@),
{
    let s = chars_of(path);
    let parts = split_chars(&s, '/');
    let ghost ps = pieces(parts@);
    let ghost keep = |p: Seq<char>| is_part(p);
    let mut out: Vec<Vec<char>> = Vec::new();
    proof {
        lemma_split_nonempty(s@, is_char('/'));
        assert(parts@[0]@ == ps[0]);
    }
    if s.len() > 0 && s[0] == '/' {
        let mut root: Vec<char> = Vec::new();
        root.push('/');
        assert(root@ =~= seq!['/']);
        out.push(root);
    } else if parts[0].len() == 1 && parts[0][0] == '.' {
        let mut dot: Vec<char> = Vec::new();
        dot.push('.');
        assert(dot@ =~= seq!['.']);
        assert(ps[0] =~= seq!['.']);
        out.push(dot);
    }
    let ghost head = pieces(out@);
    proof {
        assert(ps.take(0).filter(keep) =~= Seq::empty()) by {
            reveal(Seq::filter);
        }
        assert(head =~= head + ps.take(0).filter(keep));
    }
    let mut i: usize = 0;
    while i < parts.len()
        invariant
            i <= parts.len(),
            ps == pieces(parts@),
            keep == (|p: Seq<char>| is_part(p)),
            pieces(out@) == head + ps.take(i as int).filter(keep),
        decreases parts.len() - i,
    {
        let ghost before = pieces(out@);
        proof {
            assert(ps.take(i + 1) =~= ps.take(i as int).push(ps[i as int]));
            lemma_filter_push(ps.take(i as int), ps[i as int], keep);
        }
        if is_part_chars(&parts[i]) {
            let piece = slice_of(&parts[i], 0, parts[i].len());
            assert(piece@ =~= ps[i as int]);
            out.push(piece);
            assert(pieces(out@) =~= before.push(ps[i as int]));
            assert(pieces(out@) =~= head + ps.take(i + 1).filter(keep));
        }
        i = i + 1;
    }
    assert(ps.take(i as int) =~= ps);
    assert(pieces(out@) =~= components(path@));
    out
}

/// `base` with `name` put below it; an absolute `name` stands for itself.
pub fn join_path(base: &str, name: &str) -> (res: String)
    ensures
        res@ == join(base@, name@),
{
    let n = chars_of(name);
    if n.len() > 0 && n[0] == '/' {
        return copy_of(name);
    }
    let b = chars_of(base);
    let mut out = string_of(b.as_slice());
    if b.len() > 0 && b[b.len() - 1] != '/' {
        out.push('/');
    }
    out.append(name);
    out
}

/// The shortest spelling of a path.
pub fn canonical_path(path: &str) -> (res: String)
    ensures
        res@ == canonical(path@),
{
    let parts = components_of(path);
    let ghost cs = pieces(parts@);
    let mut out = String::new();
    let mut i: usize = 0;
    assert(cs.take(0) =~= Seq::empty());
    assert(out@ =~= Seq::empty());
    while i < parts.len()
        invariant
            i <= parts.len(),
            cs == pieces(parts@),
            out@ == join_all(Seq::empty(), cs.take(i as int)),
        decreases parts.len() - i,
    {
        proof {
            assert(cs.take(i + 1).drop_last() =~= cs.take(i as int));
            assert(cs.take(i + 1).last() == parts@[i as int]@);
        }
        let name = string_of(parts[i].as_slice());
        out = join_path(out.as_str(), name.as_str());
        i = i + 1;
    }
    assert(cs.take(i as int) =~= cs);
    out
}

/// The components of `base` are the first ones of `path`.
pub fn starts_with_path(path: &str, base: &str) -> (res: bool)
    ensures
        res == is_beneath(base@, path@),
{
    let p = components_of(path);
    let b = components_of(base);
    let ghost cp = components(path@);
    let ghost cb = components(base@);
    if b.len() > p.len() {
        return false;
    }
    let mut i: usize = 0;
    while i < b.len()
        invariant
            i <= b.len() <= p.len(),
            pieces(p@) == cp,
            pieces(b@) == cb,
            cp == components(path@),
            cb == components(base@),
            forall|j: int| 0 <= j < i ==> cp[j] == cb[j],
        decreases b.len() - i,
    {
        assert(pieces(p@)[i as int] == p@[i as int]@ && pieces(b@)[i as int] == b@[i as int]@);
        if !same_chars(&p[i], &b[i]) {
            proof {
                if cb.is_prefix_of(cp) {
                    assert(cp.subrange(0, cb.len() as int)[i as int] == cp[i as int]);
                }
            }
            return false;
        }
        i = i + 1;
    }
    assert(cp.subrange(0, cb.len() as int) =~= cb);
    true
}

fn strip_tail_chars(s: Vec<char>) -> (res: Vec<char>)
    ensures
        res@ == strip_tail(s@),
{
    let mut v = s;
    while v.len() >= 2 && (v[v.len() - 1] == '/' || (v[v.len() - 1] == '.' && v[v.len() - 2] == '/'))
        invariant
            strip_tail(v@) == strip_tail(s@),
        decreases v.len(),
    {
        let ghost before = v@;
        v.pop();
        assert(v@ =~= before.drop_last());
    }
    v
}

fn last_piece_start_of(v: &Vec<char>) -> (res: usize)
    ensures
        res == last_piece_start(v@),
        res <= v.len(),
{
    let mut i: usize = v.len();
    assert(v@.take(i as int) =~= v@);
    while i > 0 && v[i - 1] != '/'
        invariant
            i <= v.len(),
            last_piece_start(v@) == last_piece_start(v@.take(i as int)),
        decreases i,
    {
        assert(v@.take(i as int).drop_last() =~= v@.take(i - 1));
        i = i - 1;
    }
    i
}

fn is_root_chars(t: &Vec<char>) -> (res: bool)
    ensures
        res == (t@ == seq!['/']),
{
    assert(t@.len() == 1 && t@[0] == '/' ==> t@ =~= seq!['/']);
    t.len() == 1 && t[0] == '/'
}

/// The path without its last component.
pub fn parent_of(path: &str) -> (res: Option<String>)
    ensures
        match res {
            Some(p) => parent(path@) == Some(p@),
            None => parent(path@) is None,
        },
{
    let t = strip_tail_chars(chars_of(path));
    if t.len() == 0 || is_root_chars(&t) {
        return None;
    }
    let at: usize = last_piece_start_of(&t);
    let dir = slice_of(&t, 0, at);
    assert(dir@ =~= t@.take(at as int));
    let dir = strip_tail_chars(dir);
    Some(string_of(dir.as_slice()))
}

/// The last component, where it is a plain name.
pub fn file_name_of(path: &str) -> (res: Option<String>)
    ensures
        match res {
            Some(n) => file_name(path@) == Some(n@),
            None => file_name(path@) is None,
        },
{
    let t = strip_tail_chars(chars_of(path));
    if t.len() == 0 || is_root_chars(&t) {
        return None;
    }
    let at: usize = last_piece_start_of(&t);
    let name = slice_of(&t, at, t.len());
    assert(name@ =~= t@.skip(at as int));
    proof {
        assert(name@.len() == 1 && name@[0] == '.' ==> name@ =~= seq!['.']);
        assert(name@.len() == 2 && name@[0] == '.' && name@[1] == '.' ==> name@ =~= seq!['.', '.']);
    }
    if (name.len() == 1 && name[0] == '.') || (name.len() == 2 && name[0] == '.' && name[1] == '.') {
        return None;
    }
    Some(string_of(name.as_slice()))
}

/// Two paths are the same where their components are.
pub fn same_path(a: &str, b: &str) -> (res: bool)
    ensures
        res == (components(a@) == components(b@)),
{
    let res = starts_with_path(a, b) && starts_with_path(b, a);
    proof {
        let ca = components(a@);
        let cb = components(b@);
        if res {
            assert(ca =~= cb);
        }
        if ca == cb {
            assert(ca.subrange(0, ca.len() as int) =~= ca);
        }
    }
    res
}

/// A path lies beneath another exactly where it starts with all of its components: what
/// follows them leads down from there.
pub proof fn law_beneath_means_further_down(base: Seq<char>, path: Seq<char>)
    ensures
        is_beneath(base, path) <==> exists|rest: Seq<Seq<char>>|
            components(path) == #[trigger] (components(base) + rest),
{
    let n = components(base).len() as int;
    if is_beneath(base, path) {
        let rest = components(path).skip(n);
        assert(components(path) =~= components(base) + rest);
    }
    if exists|rest: Seq<Seq<char>>| components(path) == #[trigger] (components(base) + rest) {
        let rest = choose|rest: Seq<Seq<char>>|
            components(path) == #[trigger] (components(base) + rest);
        assert(components(base).is_prefix_of(components(base) + rest));
    }
}

/// A neighbour does not lie beneath, however much its name starts alike.
pub proof fn law_neighbours_are_not_beneath(dir: Seq<char>, a: Seq<char>, b: Seq<char>)
    requires
        is_name(a),
        is_name(b),
        a != b,
    ensures
        !is_beneath(join(dir, a), join(dir, b)),
        is_beneath(dir, join(dir, a)),
{
    law_join_adds_component(dir, a);
    law_join_adds_component(dir, b);
    let n = components(dir).len() as int;
    assert(components(join(dir, a))[n] == a);
    assert(components(join(dir, b))[n] == b);
    assert(components(dir).is_prefix_of(components(dir).push(a)));
}

/// A name is put below a directory with one slash between them.
pub proof fn law_join_puts_one_slash_between(dir: Seq<char>, name: Seq<char>)
    requires
        name.len() > 0,
        name[0] != '/',
    ensures
        dir.len() > 0 && dir.last() != '/' ==> join(dir, name) == dir + seq!['/'] + name,
        dir.len() > 0 && dir.last() == '/' ==> join(dir, name) == dir + name,
        dir.len() == 0 ==> join(dir, name) == name,
{
    assert(dir.push('/') =~= dir + seq!['/']);
    if dir.len() == 0 {
        assert(dir + name =~= name);
    }
}

} // verus!
