//! Text as sequences of characters: splitting, trimming, searching.

use vstd::prelude::*;

verus! {

/// `String::push` puts the character behind the text.
pub assume_specification[ String::push ](s: &mut String, c: char)
    ensures
        final(s)@ == old(s)@.push(c),
;

/// The characters with Unicode's `White_Space` property.
pub open spec fn is_whitespace(c: char) -> bool {
    let u = c as u32;
    ||| 0x09 <= u <= 0x0d
    ||| u == 0x20
    ||| u == 0x85
    ||| u == 0xa0
    ||| u == 0x1680
    ||| 0x2000 <= u <= 0x200a
    ||| u == 0x2028
    ||| u == 0x2029
    ||| u == 0x202f
    ||| u == 0x205f
    ||| u == 0x3000
}

pub fn is_space(c: char) -> (res: bool)
    ensures
        res == is_whitespace(c),
{
    let u: u32 = c as u32;
    (0x09 <= u && u <= 0x0d) || u == 0x20 || u == 0x85 || u == 0xa0 || u == 0x1680 || (0x2000 <= u
        && u <= 0x200a) || u == 0x2028 || u == 0x2029 || u == 0x202f || u == 0x205f || u == 0x3000
}

/// The characters of a string.
pub fn chars_of(s: &str) -> (res: Vec<char>)
    ensures
        res@ == s@,
{
    let mut out: Vec<char> = Vec::new();
    for c in it: s.chars()
        invariant
            out@ =~= it.seq().take(it.index()),
            it.seq() == s@,
    {
        out.push(c);
    }
    assert(s@.take(s@.len() as int) =~= s@);
    out
}

/// The string of some characters.
pub fn string_of(chars: &[char]) -> (res: String)
    ensures
        res@ == chars@,
{
    let mut out = String::new();
    let mut i: usize = 0;
    while i < chars.len()
        invariant
            i <= chars.len(),
            out@ =~= chars@.take(i as int),
        decreases chars.len() - i,
    {
        out.push(chars[i]);
        i = i + 1;
    }
    assert(chars@.take(chars@.len() as int) =~= chars@);
    out
}

/// A copy of a string.
pub fn copy_of(s: &str) -> (res: String)
    ensures
        res@ == s@,
{
    s.to_owned()
}

/// The length of a text in UTF-8 bytes.
pub open spec fn utf8_len(s: Seq<char>) -> nat {
    vstd::utf8::encode_utf8(s).len()
}

pub fn byte_len(s: &str) -> (res: usize)
    ensures
        res == utf8_len(s@),
{
    s.as_bytes().len()
}

/// `chars[from..to]`, copied.
pub fn slice_of(chars: &Vec<char>, from: usize, to: usize) -> (res: Vec<char>)
    requires
        from <= to <= chars.len(),
    ensures
        res@ == chars@.subrange(from as int, to as int),
{
    let mut out: Vec<char> = Vec::new();
    let mut i: usize = from;
    while i < to
        invariant
            from <= i <= to <= chars.len(),
            out@ =~= chars@.subrange(from as int, i as int),
        decreases to - i,
    {
        out.push(chars[i]);
        i = i + 1;
    }
    out
}

/// Two runs of characters are the same.
pub fn same_chars(a: &Vec<char>, b: &Vec<char>) -> (res: bool)
    ensures
        res == (a@ == b@),
{
    if a.len() != b.len() {
        return false;
    }
    let mut i: usize = 0;
    while i < a.len()
        invariant
            i <= a.len(),
            a.len() == b.len(),
            forall|j: int| 0 <= j < i ==> a@[j] == b@[j],
        decreases a.len() - i,
    {
        if a[i] != b[i] {
            return false;
        }
        i = i + 1;
    }
    assert(a@ =~= b@);
    true
}

/// The text of two strings is the same.
pub fn same_text(a: &str, b: &str) -> (res: bool)
    ensures
        res == (a@ == b@),
{
    same_chars(&chars_of(a), &chars_of(b))
}

/// The text is one of a list.
pub fn lists_text(v: &Vec<String>, s: &str) -> (res: bool)
    ensures
        res == texts(v@).contains(s@),
{
    let mut i: usize = 0;
    while i < v.len()
        invariant
            i <= v.len(),
            forall|j: int| 0 <= j < i ==> (#[trigger] v@[j])@ != s@,
        decreases v.len() - i,
    {
        if same_text(v[i].as_str(), s) {
            assert(texts(v@)[i as int] == s@);
            return true;
        }
        i = i + 1;
    }
    assert forall|j: int| 0 <= j < texts(v@).len() implies texts(v@)[j] != s@ by {
        assert(v@[j]@ != s@);
    }
    false
}

// ── splitting ────────────────────────────────────────────────────────────────
/// The pieces between the characters that `sep` picks; always at least one.
pub open spec fn split_by(s: Seq<char>, sep: spec_fn(char) -> bool) -> Seq<Seq<char>>
    decreases s.len(),
{
    if s.len() == 0 {
        seq![Seq::empty()]
    } else {
        let r = split_by(s.drop_last(), sep);
        if sep(s.last()) {
            r.push(Seq::empty())
        } else {
            r.update(r.len() - 1, r.last().push(s.last()))
        }
    }
}

/// Picks one character.
pub open spec fn is_char(sep: char) -> spec_fn(char) -> bool {
    |c: char| c == sep
}

/// The pieces between occurrences of one character.
pub open spec fn split_on(s: Seq<char>, sep: char) -> Seq<Seq<char>> {
    split_by(s, is_char(sep))
}

/// The words of a text: its longest runs without white space.
pub open spec fn words(s: Seq<char>) -> Seq<Seq<char>> {
    split_by(s, |c: char| is_whitespace(c)).filter(|w: Seq<char>| w.len() > 0)
}

/// The pieces, each by its characters.
pub open spec fn pieces(v: Seq<Vec<char>>) -> Seq<Seq<char>> {
    v.map_values(|p: Vec<char>| p@)
}

/// The texts of some strings.
pub open spec fn texts(v: Seq<String>) -> Seq<Seq<char>> {
    v.map_values(|s: String| s@)
}

pub proof fn lemma_split_nonempty(s: Seq<char>, sep: spec_fn(char) -> bool)
    ensures
        split_by(s, sep).len() > 0,
    decreases s.len(),
{
    if s.len() > 0 {
        lemma_split_nonempty(s.drop_last(), sep);
    }
}

/// No piece holds a separator, and every character of a piece is one of the text.
pub proof fn lemma_split_pieces(s: Seq<char>, sep: spec_fn(char) -> bool, i: int, j: int)
    requires
        0 <= i < split_by(s, sep).len(),
        0 <= j < split_by(s, sep)[i].len(),
    ensures
        !sep(split_by(s, sep)[i][j]),
        s.contains(split_by(s, sep)[i][j]),
    decreases s.len(),
{
    if s.len() > 0 {
        let p = s.drop_last();
        let r = split_by(p, sep);
        lemma_split_nonempty(p, sep);
        let x = split_by(s, sep)[i][j];
        if i < r.len() && j < r[i].len() {
            lemma_split_pieces(p, sep, i, j);
            let k = choose|k: int| 0 <= k < p.len() && p[k] == x;
            assert(s[k] == x);
        } else {
            assert(s[s.len() - 1] == x);
        }
    }
}

/// Splitting a text in two at a separator splits its pieces in two.
pub proof fn lemma_split_concat(a: Seq<char>, c: char, b: Seq<char>, sep: spec_fn(char) -> bool)
    requires
        sep(c),
    ensures
        split_by(a.push(c) + b, sep) == split_by(a, sep) + split_by(b, sep),
    decreases b.len(),
{
    lemma_split_nonempty(b, sep);
    if b.len() == 0 {
        assert(a.push(c) + b =~= a.push(c));
        assert(a.push(c).drop_last() =~= a);
        assert(split_by(a, sep).push(Seq::empty()) =~= split_by(a, sep) + split_by(b, sep));
    } else {
        lemma_split_concat(a, c, b.drop_last(), sep);
        lemma_split_nonempty(b.drop_last(), sep);
        let whole = a.push(c) + b;
        assert(whole.drop_last() =~= a.push(c) + b.drop_last());
        assert(whole.last() == b.last());
        let ra = split_by(a, sep);
        let rb = split_by(b.drop_last(), sep);
        if sep(b.last()) {
            assert((ra + rb).push(Seq::empty()) =~= ra + rb.push(Seq::empty()));
        } else {
            let last = rb.last().push(b.last());
            assert((ra + rb).last() == rb.last());
            assert((ra + rb).update((ra + rb).len() - 1, last) =~= ra + rb.update(
                rb.len() - 1,
                last,
            ));
        }
    }
}

/// A text that does not start with a separator starts with its first piece.
pub proof fn lemma_split_first(s: Seq<char>, sep: spec_fn(char) -> bool)
    requires
        s.len() > 0,
        !sep(s[0]),
    ensures
        split_by(s, sep)[0].len() > 0,
        split_by(s, sep)[0][0] == s[0],
    decreases s.len(),
{
    let p = s.drop_last();
    lemma_split_nonempty(p, sep);
    if p.len() > 0 {
        lemma_split_first(p, sep);
    } else {
        assert(p =~= Seq::empty());
    }
}

/// A text without a separator is its own only piece.
pub proof fn lemma_split_single(s: Seq<char>, sep: spec_fn(char) -> bool)
    requires
        forall|i: int| 0 <= i < s.len() ==> !sep(#[trigger] s[i]),
    ensures
        split_by(s, sep) == seq![s],
    decreases s.len(),
{
    if s.len() > 0 {
        assert forall|i: int| 0 <= i < s.drop_last().len() implies !sep(
            #[trigger] s.drop_last()[i],
        ) by {
            assert(s.drop_last()[i] == s[i]);
        }
        lemma_split_single(s.drop_last(), sep);
        assert(s.drop_last().push(s.last()) =~= s);
        assert(!sep(s[s.len() - 1]));
        assert(seq![s.drop_last()].update(0, s) =~= seq![s]);
    } else {
        assert(s =~= Seq::empty());
    }
}

/// Text without a separator, put behind a text, goes to its last piece.
pub proof fn lemma_split_extend(a: Seq<char>, b: Seq<char>, sep: spec_fn(char) -> bool)
    requires
        forall|i: int| 0 <= i < b.len() ==> !sep(#[trigger] b[i]),
    ensures
        split_by(a + b, sep) == split_by(a, sep).update(
            split_by(a, sep).len() - 1,
            split_by(a, sep).last() + b,
        ),
    decreases b.len(),
{
    lemma_split_nonempty(a, sep);
    let ra = split_by(a, sep);
    if b.len() == 0 {
        assert(a + b =~= a);
        assert(ra.last() + b =~= ra.last());
        assert(ra.update(ra.len() - 1, ra.last()) =~= ra);
    } else {
        let p = b.drop_last();
        assert forall|i: int| 0 <= i < p.len() implies !sep(#[trigger] p[i]) by {
            assert(p[i] == b[i]);
        }
        lemma_split_extend(a, p, sep);
        assert((a + b).drop_last() =~= a + p);
        assert((a + b).last() == b[b.len() - 1]);
        assert((ra.last() + p).push(b.last()) =~= ra.last() + b);
        assert(ra.update(ra.len() - 1, ra.last() + p).update(ra.len() - 1, ra.last() + b)
            =~= ra.update(ra.len() - 1, ra.last() + b));
    }
}

/// The text of some lines, each with a line feed behind it.
pub open spec fn lines_text(lines: Seq<Seq<char>>) -> Seq<char>
    decreases lines.len(),
{
    if lines.len() == 0 {
        Seq::empty()
    } else {
        lines_text(lines.drop_last()) + lines.last().push('\n')
    }
}

/// A text of lines splits into those lines, and nothing behind the last line feed.
pub proof fn lemma_split_lines(lines: Seq<Seq<char>>)
    requires
        forall|i: int| 0 <= i < lines.len() ==> !(#[trigger] lines[i]).contains('\n'),
    ensures
        split_on(lines_text(lines), '\n') == lines.push(Seq::empty()),
    decreases lines.len(),
{
    let sep = is_char('\n');
    let e = Seq::<char>::empty();
    if lines.len() == 0 {
        assert(lines.push(e) =~= seq![e]);
    } else {
        let p = lines.drop_last();
        let l = lines.last();
        assert forall|i: int| 0 <= i < p.len() implies !(#[trigger] p[i]).contains('\n') by {
            assert(p[i] == lines[i]);
        }
        lemma_split_lines(p);
        let a = lines_text(p);
        assert forall|i: int| 0 <= i < l.len() implies !sep(#[trigger] l[i]) by {
            assert(!lines[lines.len() - 1].contains('\n'));
            assert(l.contains(l[i]));
        }
        lemma_split_extend(a, l, sep);
        assert(e + l =~= l);
        assert(p.push(e).update(p.len() as int, l) =~= lines);
        lemma_split_concat(a + l, '\n', e, sep);
        assert((a + l).push('\n') + e =~= lines_text(lines));
        assert(lines + seq![e] =~= lines.push(e));
    }
}

/// Splits at every occurrence of `sep`.
pub fn split_chars(s: &Vec<char>, sep: char) -> (res: Vec<Vec<char>>)
    ensures
        pieces(res@) == split_on(s@, sep),
{
    let ghost f = is_char(sep);
    let mut out: Vec<Vec<char>> = Vec::new();
    let mut cur: Vec<char> = Vec::new();
    let mut i: usize = 0;
    assert(s@.take(0) =~= Seq::empty());
    assert(pieces(out@).push(cur@) =~= split_by(s@.take(0), f));
    while i < s.len()
        invariant
            i <= s.len(),
            f == is_char(sep),
            pieces(out@).push(cur@) == split_by(s@.take(i as int), f),
        decreases s.len() - i,
    {
        let c = s[i];
        proof {
            assert(s@.take(i + 1).drop_last() =~= s@.take(i as int));
            assert(s@.take(i + 1).last() == c);
        }
        let ghost before = pieces(out@);
        let ghost piece = cur@;
        if c == sep {
            out.push(cur);
            cur = Vec::new();
            assert(pieces(out@) =~= before.push(piece));
            assert(pieces(out@).push(cur@) =~= before.push(piece).push(Seq::empty()));
        } else {
            cur.push(c);
            assert(before.push(piece).update(before.len() as int, piece.push(c)) =~= before.push(
                piece.push(c),
            ));
        }
        i = i + 1;
    }
    assert(s@.take(s@.len() as int) =~= s@);
    let ghost before = pieces(out@);
    let ghost piece = cur@;
    out.push(cur);
    assert(pieces(out@) =~= before.push(piece));
    out
}

/// The words of a text.
pub fn words_of(s: &Vec<char>) -> (res: Vec<Vec<char>>)
    ensures
        pieces(res@) == words(s@),
{
    let ghost f = |c: char| is_whitespace(c);
    let ghost long = |w: Seq<char>| w.len() > 0;
    let ghost mut all: Seq<Seq<char>> = Seq::empty();
    let mut out: Vec<Vec<char>> = Vec::new();
    let mut cur: Vec<char> = Vec::new();
    let mut i: usize = 0;
    proof {
        assert(s@.take(0) =~= Seq::empty());
        assert(all.push(cur@) =~= split_by(s@.take(0), f));
        reveal(Seq::filter);
        assert(pieces(out@) =~= all.filter(long));
    }
    while i < s.len()
        invariant
            i <= s.len(),
            f == (|c: char| is_whitespace(c)),
            long == (|w: Seq<char>| w.len() > 0),
            all.push(cur@) == split_by(s@.take(i as int), f),
            pieces(out@) == all.filter(long),
        decreases s.len() - i,
    {
        let c = s[i];
        proof {
            assert(s@.take(i + 1).drop_last() =~= s@.take(i as int));
            assert(s@.take(i + 1).last() == c);
        }
        let ghost before = pieces(out@);
        let ghost piece = cur@;
        if is_space(c) {
            proof {
                lemma_filter_push(all, piece, long);
                all = all.push(piece);
            }
            if cur.len() > 0 {
                out.push(cur);
                cur = Vec::new();
                assert(pieces(out@) =~= before.push(piece));
            }
            assert(cur@ =~= Seq::empty());
        } else {
            cur.push(c);
            assert(all.push(piece).update(all.len() as int, piece.push(c)) =~= all.push(
                piece.push(c),
            ));
        }
        i = i + 1;
    }
    proof {
        assert(s@.take(s@.len() as int) =~= s@);
        lemma_filter_push(all, cur@, long);
    }
    let ghost before = pieces(out@);
    let ghost piece = cur@;
    if cur.len() > 0 {
        out.push(cur);
        assert(pieces(out@) =~= before.push(piece));
    }
    out
}

pub proof fn lemma_filter_push<A>(s: Seq<A>, x: A, f: spec_fn(A) -> bool)
    ensures
        s.push(x).filter(f) == (if f(x) {
            s.filter(f).push(x)
        } else {
            s.filter(f)
        }),
{
    reveal(Seq::filter);
    assert(s.push(x).drop_last() =~= s);
}

/// What a filter keeps passes it and comes from the sequence; returns where from.
pub proof fn lemma_filter_from<A>(s: Seq<A>, f: spec_fn(A) -> bool, i: int) -> (k: int)
    requires
        0 <= i < s.filter(f).len(),
    ensures
        0 <= k < s.len(),
        s[k] == s.filter(f)[i],
        f(s[k]),
    decreases s.len(),
{
    reveal(Seq::filter);
    let t = s.drop_last();
    if i < t.filter(f).len() {
        lemma_filter_from(t, f, i)
    } else {
        s.len() - 1
    }
}

/// A filter that keeps the first element keeps it first.
pub proof fn lemma_filter_first<A>(s: Seq<A>, f: spec_fn(A) -> bool)
    requires
        s.len() > 0,
        f(s[0]),
    ensures
        s.filter(f).len() > 0,
        s.filter(f)[0] == s[0],
    decreases s.len(),
{
    reveal(Seq::filter);
    let t = s.drop_last();
    if t.len() > 0 {
        lemma_filter_first(t, f);
    } else {
        assert(t.filter(f) =~= Seq::empty());
    }
}

pub proof fn lemma_filter_single<A>(x: A, f: spec_fn(A) -> bool)
    ensures
        seq![x].filter(f) == (if f(x) {
            seq![x]
        } else {
            Seq::empty()
        }),
{
    let e = Seq::<A>::empty();
    lemma_filter_push(e, x, f);
    assert(e.filter(f) =~= e) by {
        reveal(Seq::filter);
    }
    assert(e.push(x) =~= seq![x]);
}

// ── trimming ─────────────────────────────────────────────────────────────────
pub open spec fn trim_start(s: Seq<char>) -> Seq<char>
    decreases s.len(),
{
    if s.len() > 0 && is_whitespace(s[0]) {
        trim_start(s.drop_first())
    } else {
        s
    }
}

pub open spec fn trim_end(s: Seq<char>) -> Seq<char>
    decreases s.len(),
{
    if s.len() > 0 && is_whitespace(s.last()) {
        trim_end(s.drop_last())
    } else {
        s
    }
}

/// The text without the white space at its two ends.
pub open spec fn trim(s: Seq<char>) -> Seq<char> {
    trim_end(trim_start(s))
}

pub fn trim_chars(s: &Vec<char>) -> (res: Vec<char>)
    ensures
        res@ == trim(s@),
{
    let mut from: usize = 0;
    assert(s@.skip(0) =~= s@);
    while from < s.len() && is_space(s[from])
        invariant
            from <= s.len(),
            trim_start(s@) == trim_start(s@.skip(from as int)),
        decreases s.len() - from,
    {
        assert(s@.skip(from as int).drop_first() =~= s@.skip(from + 1));
        from = from + 1;
    }
    let ghost rest = s@.skip(from as int);
    assert(trim_start(s@) == rest);
    let mut to: usize = s.len();
    assert(rest =~= s@.subrange(from as int, to as int));
    while to > from && is_space(s[to - 1])
        invariant
            from <= to <= s.len(),
            trim_end(rest) == trim_end(s@.subrange(from as int, to as int)),
        decreases to,
    {
        let ghost cur = s@.subrange(from as int, to as int);
        assert(cur.drop_last() =~= s@.subrange(from as int, to - 1));
        assert(cur.last() == s@[to - 1]);
        to = to - 1;
    }
    let ghost cur = s@.subrange(from as int, to as int);
    assert(to > from ==> cur.last() == s@[to - 1]);
    slice_of(s, from, to)
}

/// A trimmed text is left alone by trimming.
pub proof fn lemma_trim_fixed(s: Seq<char>)
    requires
        s.len() > 0 ==> !is_whitespace(s[0]) && !is_whitespace(s.last()),
    ensures
        trim(s) == s,
{
}

/// The end of two texts put together is that of the second, unless that is all white
/// space.
pub proof fn lemma_trim_end_append(a: Seq<char>, b: Seq<char>)
    ensures
        trim_end(a + b) == (if trim_end(b).len() > 0 {
            a + trim_end(b)
        } else {
            trim_end(a)
        }),
    decreases b.len(),
{
    if b.len() == 0 {
        assert(a + b =~= a);
    } else {
        assert((a + b).last() == b.last());
        assert((a + b).drop_last() =~= a + b.drop_last());
        if is_whitespace(b.last()) {
            lemma_trim_end_append(a, b.drop_last());
        }
    }
}

proof fn lemma_trim_start_push(s: Seq<char>, c: char)
    requires
        is_whitespace(c),
    ensures
        trim_start(s.push(c)) == (if trim_start(s).len() == 0 {
            Seq::empty()
        } else {
            trim_start(s).push(c)
        }),
    decreases s.len(),
{
    if s.len() == 0 {
        let one = s.push(c);
        assert(one[0] == c);
        assert(one.drop_first() =~= Seq::empty());
        assert(trim_start(one) == trim_start(one.drop_first()));
    } else {
        assert(s.push(c)[0] == s[0]);
        if is_whitespace(s[0]) {
            assert(s.push(c).drop_first() =~= s.drop_first().push(c));
            lemma_trim_start_push(s.drop_first(), c);
        }
    }
}

/// Trimming the end first makes no difference to trimming both.
pub proof fn lemma_trim_of_trim_end(s: Seq<char>)
    ensures
        trim(trim_end(s)) == trim(s),
    decreases s.len(),
{
    if s.len() > 0 && is_whitespace(s.last()) {
        let p = s.drop_last();
        lemma_trim_of_trim_end(p);
        lemma_trim_start_push(p, s.last());
        assert(p.push(s.last()) =~= s);
        let t = trim_start(p);
        if t.len() == 0 {
            assert(t =~= Seq::empty());
        } else {
            assert(t.push(s.last()).drop_last() =~= t);
        }
    }
}

/// A trimmed text that is not empty neither starts nor ends with white space.
pub proof fn lemma_trim_ends(s: Seq<char>)
    ensures
        trim(s).len() > 0 ==> !is_whitespace(trim(s)[0]) && !is_whitespace(trim(s).last()),
{
    lemma_trim_start_front(s);
    lemma_trim_end_front(trim_start(s));
}

proof fn lemma_trim_start_front(s: Seq<char>)
    ensures
        trim_start(s).len() > 0 ==> !is_whitespace(trim_start(s)[0]),
    decreases s.len(),
{
    if s.len() > 0 && is_whitespace(s[0]) {
        lemma_trim_start_front(s.drop_first());
    }
}

proof fn lemma_trim_end_front(s: Seq<char>)
    ensures
        trim_end(s).len() > 0 ==> trim_end(s)[0] == s[0] && !is_whitespace(trim_end(s).last()),
    decreases s.len(),
{
    if s.len() > 0 && is_whitespace(s.last()) {
        lemma_trim_end_front(s.drop_last());
    }
}

/// Trimming adds no character.
pub proof fn lemma_trim_contains(s: Seq<char>, c: char)
    ensures
        trim(s).contains(c) ==> s.contains(c),
{
    lemma_trim_start_contains(s, c);
    lemma_trim_end_contains(trim_start(s), c);
}

proof fn lemma_trim_start_contains(s: Seq<char>, c: char)
    ensures
        trim_start(s).contains(c) ==> s.contains(c),
    decreases s.len(),
{
    if s.len() > 0 && is_whitespace(s[0]) {
        let t = s.drop_first();
        lemma_trim_start_contains(t, c);
        if t.contains(c) {
            let i = choose|i: int| 0 <= i < t.len() && t[i] == c;
            assert(s[i + 1] == c);
        }
    }
}

proof fn lemma_trim_end_contains(s: Seq<char>, c: char)
    ensures
        trim_end(s).contains(c) ==> s.contains(c),
    decreases s.len(),
{
    if s.len() > 0 && is_whitespace(s.last()) {
        let t = s.drop_last();
        lemma_trim_end_contains(t, c);
        if t.contains(c) {
            let i = choose|i: int| 0 <= i < t.len() && t[i] == c;
            assert(s[i] == c);
        }
    }
}

// ── searching ────────────────────────────────────────────────────────────────
pub open spec fn occurs_at(s: Seq<char>, pat: Seq<char>, i: int) -> bool {
    0 <= i && i + pat.len() <= s.len() && s.subrange(i, i + pat.len()) == pat
}

/// The text starts with `pat`.
pub open spec fn has_prefix(s: Seq<char>, pat: Seq<char>) -> bool {
    occurs_at(s, pat, 0)
}

/// `pat` occurs somewhere in the text.
pub open spec fn has_text(s: Seq<char>, pat: Seq<char>) -> bool {
    exists|i: int| occurs_at(s, pat, i)
}

/// Where `pat` first occurs at or behind `from`.
pub open spec fn find_at(s: Seq<char>, pat: Seq<char>, from: int) -> Option<int>
    decreases s.len() - from + 1,
{
    if from < 0 || from + pat.len() > s.len() {
        None
    } else if occurs_at(s, pat, from) {
        Some(from)
    } else {
        find_at(s, pat, from + 1)
    }
}

pub proof fn lemma_find_at(s: Seq<char>, pat: Seq<char>, from: int)
    requires
        0 <= from,
    ensures
        match find_at(s, pat, from) {
            Some(i) => from <= i && occurs_at(s, pat, i) && forall|j: int|
                from <= j < i ==> !#[trigger] occurs_at(s, pat, j),
            None => forall|j: int| from <= j ==> !#[trigger] occurs_at(s, pat, j),
        },
    decreases s.len() - from + 1,
{
    if from + pat.len() <= s.len() && !occurs_at(s, pat, from) {
        lemma_find_at(s, pat, from + 1);
    }
}

pub fn matches_at(s: &Vec<char>, pat: &Vec<char>, at: usize) -> (res: bool)
    ensures
        res == occurs_at(s@, pat@, at as int),
{
    if at > s.len() || pat.len() > s.len() - at {
        return false;
    }
    let mut i: usize = 0;
    while i < pat.len()
        invariant
            i <= pat.len(),
            at <= s.len(),
            pat.len() <= s.len() - at,
            forall|j: int| 0 <= j < i ==> s@[at + j] == pat@[j],
        decreases pat.len() - i,
    {
        if s[at + i] != pat[i] {
            proof {
                assert(s@.subrange(at as int, at + pat@.len())[i as int] == s@[at + i]);
            }
            return false;
        }
        i = i + 1;
    }
    assert(s@.subrange(at as int, at + pat@.len()) =~= pat@);
    true
}

pub fn starts_with(s: &Vec<char>, pat: &Vec<char>) -> (res: bool)
    ensures
        res == has_prefix(s@, pat@),
{
    matches_at(s, pat, 0)
}

/// Where `pat` first occurs at or behind `from`.
pub fn find_from(s: &Vec<char>, pat: &Vec<char>, from: usize) -> (res: Option<usize>)
    ensures
        match res {
            Some(i) => find_at(s@, pat@, from as int) == Some(i as int) && from <= i && i
                + pat.len() <= s.len(),
            None => find_at(s@, pat@, from as int) is None,
        },
{
    let mut i: usize = from;
    while i <= s.len() && pat.len() <= s.len() - i
        invariant
            from <= i,
            find_at(s@, pat@, from as int) == find_at(s@, pat@, i as int),
        decreases s.len() + 1 - i,
    {
        if matches_at(s, pat, i) {
            return Some(i);
        }
        proof {
            if i == s.len() {
                assert(s@.subrange(i as int, i as int) =~= pat@);
            }
        }
        i = i + 1;
    }
    None
}

/// `pat` occurs somewhere in the text.
pub fn contains_text(s: &Vec<char>, pat: &Vec<char>) -> (res: bool)
    ensures
        res == has_text(s@, pat@),
{
    match find_from(s, pat, 0) {
        Some(i) => {
            assert(occurs_at(s@, pat@, i as int)) by {
                lemma_find_at(s@, pat@, 0);
            }
            true
        },
        None => {
            proof {
                lemma_find_at(s@, pat@, 0);
                if has_text(s@, pat@) {
                    let i = choose|i: int| occurs_at(s@, pat@, i);
                    assert(occurs_at(s@, pat@, i) && 0 <= i);
                }
            }
            false
        },
    }
}

/// The text contains one character.
pub fn contains_char(s: &Vec<char>, c: char) -> (res: bool)
    ensures
        res == s@.contains(c),
{
    let mut i: usize = 0;
    while i < s.len()
        invariant
            i <= s.len(),
            forall|j: int| 0 <= j < i ==> s@[j] != c,
        decreases s.len() - i,
    {
        if s[i] == c {
            assert(s@[i as int] == c);
            return true;
        }
        i = i + 1;
    }
    false
}

/// White space is what Unicode calls so.
pub proof fn law_white_space(c: char)
    ensures
        is_whitespace(c) <==> {
            ||| c == '\t' || c == '\n' || c == '\u{b}' || c == '\u{c}' || c == '\r' || c == ' '
            ||| c == '\u{85}' || c == '\u{a0}' || c == '\u{1680}'
            ||| '\u{2000}' <= c <= '\u{200a}'
            ||| c == '\u{2028}' || c == '\u{2029}' || c == '\u{202f}' || c == '\u{205f}'
            ||| c == '\u{3000}'
        },
{
}

/// Trimming takes the white space off both ends, and nothing else.
pub proof fn law_trim_takes_the_ends_off(a: Seq<char>, mid: Seq<char>, b: Seq<char>)
    requires
        forall|i: int| 0 <= i < a.len() ==> is_whitespace(#[trigger] a[i]),
        forall|i: int| 0 <= i < b.len() ==> is_whitespace(#[trigger] b[i]),
        mid.len() > 0,
        !is_whitespace(mid[0]),
        !is_whitespace(mid.last()),
    ensures
        trim(a + mid + b) == mid,
    decreases a.len() + b.len(),
{
    let s = a + mid + b;
    if a.len() > 0 {
        assert(s[0] == a[0]);
        assert(s.drop_first() =~= a.drop_first() + mid + b);
        assert forall|i: int| 0 <= i < a.drop_first().len() implies is_whitespace(
            #[trigger] a.drop_first()[i],
        ) by {
            assert(a.drop_first()[i] == a[i + 1]);
        }
        law_trim_takes_the_ends_off(a.drop_first(), mid, b);
    } else {
        assert(s[0] == mid[0]);
        assert(trim_start(s) == s);
        if b.len() > 0 {
            assert(s.last() == b[b.len() - 1]);
            assert(s.drop_last() =~= a + mid + b.drop_last());
            assert forall|i: int| 0 <= i < b.drop_last().len() implies is_whitespace(
                #[trigger] b.drop_last()[i],
            ) by {
                assert(b.drop_last()[i] == b[i]);
            }
            law_trim_takes_the_ends_off(a, mid, b.drop_last());
            assert(s.drop_last()[0] == mid[0]);
            assert(trim_start(s.drop_last()) == s.drop_last());
        } else {
            assert(s =~= mid);
        }
    }
}

/// A word and a blank, of whatever kind, in front of a text put that word in front of its
/// words.
pub proof fn law_words_are_split_at_blanks(word: Seq<char>, blank: char, rest: Seq<char>)
    requires
        is_whitespace(blank),
        word.len() > 0,
        forall|i: int| 0 <= i < word.len() ==> !is_whitespace(#[trigger] word[i]),
    ensures
        words(word.push(blank) + rest) == seq![word] + words(rest),
        words(word) == seq![word],
{
    let sep = |c: char| is_whitespace(c);
    let long = |w: Seq<char>| w.len() > 0;
    lemma_split_concat(word, blank, rest, sep);
    lemma_split_single(word, sep);
    Seq::filter_distributes_over_add(seq![word], split_by(rest, sep), long);
    lemma_filter_single(word, long);
}

} // verus!
