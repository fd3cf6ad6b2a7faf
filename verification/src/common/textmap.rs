//! A map from text to text, kept in the order of its keys.

use vstd::prelude::*;

use crate::text::{chars_of, copy_of, same_text};

verus! {

/// Texts in the order of their characters' code points, which is also that of
/// their UTF-8 bytes.
pub open spec fn text_less(a: Seq<char>, b: Seq<char>) -> bool
    decreases a.len(),
{
    if b.len() == 0 {
        false
    } else if a.len() == 0 {
        true
    } else if a[0] != b[0] {
        (a[0] as int) < (b[0] as int)
    } else {
        text_less(a.drop_first(), b.drop_first())
    }
}

pub proof fn lemma_text_less_irreflexive(a: Seq<char>)
    ensures
        !text_less(a, a),
    decreases a.len(),
{
    if a.len() > 0 {
        lemma_text_less_irreflexive(a.drop_first());
    }
}

pub proof fn lemma_text_less_transitive(a: Seq<char>, b: Seq<char>, c: Seq<char>)
    requires
        text_less(a, b),
        text_less(b, c),
    ensures
        text_less(a, c),
    decreases a.len(),
{
    if a.len() > 0 && a[0] == b[0] && b[0] == c[0] {
        lemma_text_less_transitive(a.drop_first(), b.drop_first(), c.drop_first());
    }
}

pub proof fn lemma_text_less_total(a: Seq<char>, b: Seq<char>)
    ensures
        text_less(a, b) || a == b || text_less(b, a),
    decreases a.len(),
{
    if a.len() == 0 || b.len() == 0 {
        if a.len() == 0 && b.len() == 0 {
            assert(a =~= b);
        }
    } else if a[0] == b[0] {
        lemma_text_less_total(a.drop_first(), b.drop_first());
        if a.drop_first() == b.drop_first() {
            assert(a =~= seq![a[0]] + a.drop_first());
            assert(b =~= seq![b[0]] + b.drop_first());
        }
    }
}

/// `a` comes before `b`.
pub fn comes_before(a: &str, b: &str) -> (res: bool)
    ensures
        res == text_less(a@, b@),
{
    let x = chars_of(a);
    let y = chars_of(b);
    let mut i: usize = 0;
    assert(x@.skip(0) =~= x@);
    assert(y@.skip(0) =~= y@);
    while i < x.len() && i < y.len() && x[i] == y[i]
        invariant
            i <= x.len(),
            i <= y.len(),
            text_less(x@, y@) == text_less(x@.skip(i as int), y@.skip(i as int)),
        decreases x.len() - i,
    {
        assert(x@.skip(i as int).drop_first() =~= x@.skip(i + 1));
        assert(y@.skip(i as int).drop_first() =~= y@.skip(i + 1));
        i = i + 1;
    }
    if i >= y.len() {
        false
    } else if i >= x.len() {
        true
    } else {
        x[i] < y[i]
    }
}

/// A key and its value, as texts.
pub open spec fn pairs_of(s: Seq<(String, String)>) -> Seq<(Seq<char>, Seq<char>)> {
    s.map_values(|p: (String, String)| (p.0@, p.1@))
}

/// The keys come in order, each once.
pub open spec fn in_order(s: Seq<(Seq<char>, Seq<char>)>) -> bool {
    forall|i: int, j: int| 0 <= i < j < s.len() ==> text_less((#[trigger] s[i]).0, (#[trigger] s[j]).0)
}

/// The map that a list of pairs stands for: the last pair of a key decides.
pub open spec fn map_of(s: Seq<(Seq<char>, Seq<char>)>) -> Map<Seq<char>, Seq<char>>
    decreases s.len(),
{
    if s.len() == 0 {
        Map::empty()
    } else {
        map_of(s.drop_last()).insert(s.last().0, s.last().1)
    }
}

proof fn lemma_map_of_keys(s: Seq<(Seq<char>, Seq<char>)>, k: Seq<char>)
    ensures
        map_of(s).contains_key(k) <==> exists|i: int| 0 <= i < s.len() && (#[trigger] s[i]).0 == k,
    decreases s.len(),
{
    if s.len() > 0 {
        let p = s.drop_last();
        lemma_map_of_keys(p, k);
        if map_of(s).contains_key(k) {
            if s.last().0 == k {
                assert(s[s.len() - 1].0 == k);
            } else {
                let i = choose|i: int| 0 <= i < p.len() && (#[trigger] p[i]).0 == k;
                assert(s[i].0 == k);
            }
        }
        if exists|i: int| 0 <= i < s.len() && (#[trigger] s[i]).0 == k {
            let i = choose|i: int| 0 <= i < s.len() && (#[trigger] s[i]).0 == k;
            if i < p.len() {
                assert(p[i].0 == k);
            }
        }
    }
}

/// In an ordered list every pair is one of the map.
pub proof fn lemma_map_of_pair(s: Seq<(Seq<char>, Seq<char>)>, i: int)
    requires
        in_order(s),
        0 <= i < s.len(),
    ensures
        map_of(s).contains_key(s[i].0),
        map_of(s)[s[i].0] == s[i].1,
    decreases s.len(),
{
    let p = s.drop_last();
    if i < p.len() {
        assert(in_order(p)) by {
            assert forall|a: int, b: int| 0 <= a < b < p.len() implies text_less(
                (#[trigger] p[a]).0,
                (#[trigger] p[b]).0,
            ) by {
                assert(p[a] == s[a] && p[b] == s[b]);
            }
        }
        lemma_map_of_pair(p, i);
        assert(text_less(s[i].0, s[s.len() - 1].0));
        lemma_text_less_irreflexive(s[i].0);
    }
}

/// A map from text to text.
#[derive(Debug)]
pub struct TextMap {
    entries: Vec<(String, String)>,
}

impl TextMap {
    /// The entries, in the order of their keys.
    pub closed spec fn pairs(&self) -> Seq<(Seq<char>, Seq<char>)> {
        pairs_of(self.entries@)
    }

    pub open spec fn view(&self) -> Map<Seq<char>, Seq<char>> {
        map_of(self.pairs())
    }

    pub open spec fn wf(&self) -> bool {
        in_order(self.pairs())
    }

    pub fn new() -> (res: Self)
        ensures
            res.wf(),
            res.pairs() == Seq::<(Seq<char>, Seq<char>)>::empty(),
            res@ == Map::<Seq<char>, Seq<char>>::empty(),
    {
        let res = TextMap { entries: Vec::new() };
        assert(res.pairs() =~= Seq::empty());
        res
    }

    pub fn len(&self) -> (res: usize)
        ensures
            res == self.pairs().len(),
    {
        self.entries.len()
    }

    /// The entry at a place in the order of the keys.
    pub fn entry(&self, i: usize) -> (res: (&str, &str))
        requires
            i < self.pairs().len(),
        ensures
            (res.0@, res.1@) == self.pairs()[i as int],
    {
        (self.entries[i].0.as_str(), self.entries[i].1.as_str())
    }

    fn position(&self, key: &str) -> (res: usize)
        requires
            self.wf(),
        ensures
            res <= self.pairs().len(),
            forall|i: int| 0 <= i < res ==> text_less((#[trigger] self.pairs()[i]).0, key@),
            res < self.pairs().len() ==> !text_less(self.pairs()[res as int].0, key@),
    {
        let mut i: usize = 0;
        while i < self.entries.len() && comes_before(self.entries[i].0.as_str(), key)
            invariant
                i <= self.entries.len(),
                forall|j: int| 0 <= j < i ==> text_less((#[trigger] self.pairs()[j]).0, key@),
            decreases self.entries.len() - i,
        {
            assert(self.pairs()[i as int].0 == self.entries@[i as int].0@);
            i = i + 1;
        }
        i
    }

    pub fn get(&self, key: &str) -> (res: Option<&str>)
        requires
            self.wf(),
        ensures
            match res {
                Some(v) => self@.contains_key(key@) && v@ == self@[key@],
                None => !self@.contains_key(key@),
            },
    {
        let at: usize = self.position(key);
        if at < self.entries.len() && same_text(self.entries[at].0.as_str(), key) {
            proof {
                lemma_map_of_pair(self.pairs(), at as int);
            }
            return Some(self.entries[at].1.as_str());
        }
        proof {
            let s = self.pairs();
            lemma_map_of_keys(s, key@);
            if self@.contains_key(key@) {
                let i = choose|i: int| 0 <= i < s.len() && (#[trigger] s[i]).0 == key@;
                lemma_text_less_irreflexive(key@);
                assert(i >= at);
                lemma_text_less_total(s[at as int].0, key@);
                if i > at {
                    assert(text_less(s[at as int].0, s[i].0));
                }
            }
        }
        None
    }

    pub fn contains(&self, key: &str) -> (res: bool)
        requires
            self.wf(),
        ensures
            res == self@.contains_key(key@),
    {
        self.get(key).is_some()
    }

    /// Puts a value under a key, in place of the one it had.
    pub fn insert(&mut self, key: &str, value: &str)
        requires
            old(self).wf(),
        ensures
            final(self).wf(),
            final(self)@ == old(self)@.insert(key@, value@),
    {
        let at: usize = self.position(key);
        let ghost s = self.pairs();
        let ghost w = (key@, value@);
        proof {
            lemma_text_less_irreflexive(key@);
            if at < s.len() {
                lemma_text_less_total(s[at as int].0, key@);
            }
        }
        if at < self.entries.len() && same_text(self.entries[at].0.as_str(), key) {
            let pair = (copy_of(key), copy_of(value));
            self.entries.set(at, pair);
            proof {
                assert(self.pairs() =~= s.update(at as int, w));
                lemma_insert_in_place(s, at as int, w);
            }
        } else {
            self.entries.insert(at, (copy_of(key), copy_of(value)));
            proof {
                assert(self.pairs() =~= s.insert(at as int, w));
                lemma_insert_between(s, at as int, w);
            }
        }
    }
}

proof fn lemma_insert_in_place(s: Seq<(Seq<char>, Seq<char>)>, at: int, w: (Seq<char>, Seq<char>))
    requires
        in_order(s),
        0 <= at < s.len(),
        s[at].0 == w.0,
    ensures
        in_order(s.update(at, w)),
        map_of(s.update(at, w)) == map_of(s).insert(w.0, w.1),
{
    let t = s.update(at, w);
    assert forall|i: int, j: int| 0 <= i < j < t.len() implies text_less(
        (#[trigger] t[i]).0,
        (#[trigger] t[j]).0,
    ) by {
        assert(t[i].0 == s[i].0 && t[j].0 == s[j].0);
    }
    lemma_same_map(t, map_of(s).insert(w.0, w.1), s, at, w);
}

/// An ordered list that holds the pairs of `s`, with `w` at `at`, stands for the
/// map of `s` with `w` put in.
proof fn lemma_same_map(
    t: Seq<(Seq<char>, Seq<char>)>,
    m: Map<Seq<char>, Seq<char>>,
    s: Seq<(Seq<char>, Seq<char>)>,
    at: int,
    w: (Seq<char>, Seq<char>),
)
    requires
        in_order(t),
        in_order(s),
        m == map_of(s).insert(w.0, w.1),
        0 <= at < t.len(),
        t == s.update(at, w) && 0 <= at < s.len() && s[at].0 == w.0 || t == s.insert(at, w) && 0
            <= at <= s.len(),
    ensures
        map_of(t) == m,
{
    assert forall|k: Seq<char>| map_of(t).contains_key(k) == m.contains_key(k) by {
        lemma_map_of_keys(t, k);
        lemma_map_of_keys(s, k);
        if map_of(t).contains_key(k) {
            let i = choose|i: int| 0 <= i < t.len() && (#[trigger] t[i]).0 == k;
            if i != at {
                if t.len() == s.len() {
                    assert(s[i].0 == k);
                } else if i < at {
                    assert(s[i].0 == k);
                } else {
                    assert(s[i - 1].0 == k);
                }
            }
        }
        if m.contains_key(k) {
            if k == w.0 {
                assert(t[at].0 == k);
            } else {
                let i = choose|i: int| 0 <= i < s.len() && (#[trigger] s[i]).0 == k;
                if t.len() == s.len() {
                    assert(t[i].0 == k);
                } else if i < at {
                    assert(t[i].0 == k);
                } else {
                    assert(t[i + 1].0 == k);
                }
            }
        }
    }
    assert forall|k: Seq<char>| #[trigger] map_of(t).contains_key(k) implies map_of(t)[k] == m[k] by {
        lemma_map_of_keys(t, k);
        let i = choose|i: int| 0 <= i < t.len() && (#[trigger] t[i]).0 == k;
        lemma_map_of_pair(t, i);
        if i == at {
        } else {
            lemma_text_less_irreflexive(k);
            assert(t[at].0 == w.0);
            if i < at {
                assert(text_less(t[i].0, t[at].0));
            } else {
                assert(text_less(t[at].0, t[i].0));
            }
            if t.len() == s.len() {
                lemma_map_of_pair(s, i);
                assert(s[i] == t[i]);
            } else if i < at {
                lemma_map_of_pair(s, i);
                assert(s[i] == t[i]);
            } else {
                lemma_map_of_pair(s, i - 1);
                assert(s[i - 1] == t[i]);
            }
        }
    }
    assert(map_of(t) =~= m);
}

proof fn lemma_insert_between(s: Seq<(Seq<char>, Seq<char>)>, at: int, w: (Seq<char>, Seq<char>))
    requires
        in_order(s),
        0 <= at <= s.len(),
        forall|i: int| 0 <= i < at ==> text_less((#[trigger] s[i]).0, w.0),
        at < s.len() ==> text_less(w.0, s[at].0),
    ensures
        in_order(s.insert(at, w)),
        map_of(s.insert(at, w)) == map_of(s).insert(w.0, w.1),
{
    let t = s.insert(at, w);
    assert forall|i: int, j: int| 0 <= i < j < t.len() implies text_less(
        (#[trigger] t[i]).0,
        (#[trigger] t[j]).0,
    ) by {
        if j < at {
            assert(t[i] == s[i] && t[j] == s[j]);
        } else if j == at {
            assert(t[i] == s[i] && t[j] == w);
        } else {
            assert(t[j] == s[j - 1]);
            if i < at {
                assert(t[i] == s[i]);
            } else if i == at {
                assert(t[i] == w);
                if j - 1 > at {
                    assert(text_less(s[at].0, s[j - 1].0));
                    lemma_text_less_transitive(w.0, s[at].0, s[j - 1].0);
                }
            } else {
                assert(t[i] == s[i - 1]);
            }
        }
    }
    lemma_same_map(t, map_of(s).insert(w.0, w.1), s, at, w);
}

/// Of two texts that part at some place the one with the smaller character there comes
/// first, and a text comes before every longer one that starts with it.
pub proof fn law_texts_are_ordered_where_they_part(a: Seq<char>, b: Seq<char>, i: int)
    requires
        0 <= i <= a.len(),
        i < b.len(),
        a.take(i) == b.take(i),
    ensures
        i == a.len() ==> text_less(a, b),
        i < a.len() && (a[i] as int) < (b[i] as int) ==> text_less(a, b),
        i < a.len() && (a[i] as int) > (b[i] as int) ==> !text_less(a, b),
    decreases i,
{
    if i > 0 {
        assert(a.take(i)[0] == a[0] && b.take(i)[0] == b[0]);
        let (s, t) = (a.drop_first(), b.drop_first());
        assert(s.take(i - 1) =~= a.take(i).drop_first());
        assert(t.take(i - 1) =~= b.take(i).drop_first());
        law_texts_are_ordered_where_they_part(s, t, i - 1);
        assert(t[i - 1] == b[i]);
        if i < a.len() {
            assert(s[i - 1] == a[i]);
        }
    }
}

} // verus!
