//! Metadata cache: least recently used entries go first, and every entry expires.

use vstd::prelude::*;

use crate::common::stat::Stat;
use crate::path::{parent, parent_of};
use crate::time::{Clock, Duration};

verus! {

/// Configuration for the metadata cache.
#[derive(Clone, Copy, Debug)]
pub struct CacheConfig {
    pub max_entries: usize,
    pub pos_ttl: Duration,
    pub neg_ttl: Duration,
    pub dir_ttl: Duration,
}

impl Default for CacheConfig {
    fn default() -> (res: Self)
        ensures
            res.max_entries == 8192,
            res.pos_ttl.nanos() == 2_000_000_000,
            res.neg_ttl.nanos() == 500_000_000,
            res.dir_ttl.nanos() == 1_000_000_000,
    {
        CacheConfig {
            max_entries: 8192,
            pos_ttl: Duration::from_millis(2000),
            neg_ttl: Duration::from_millis(500),
            dir_ttl: Duration::from_millis(1000),
        }
    }
}

/// What is known of a path, and until when: its attributes, or that it does not
/// exist.
#[derive(Clone, Copy, Debug)]
pub struct Entry {
    pub found: Option<Stat>,
    pub expires: u128,
}

pub open spec fn has_path(s: Seq<(Seq<char>, Entry)>, k: Seq<char>) -> bool {
    exists|i: int| 0 <= i < s.len() && (#[trigger] s[i]).0 == k
}

/// No path is there twice.
pub open spec fn unique_paths(s: Seq<(Seq<char>, Entry)>) -> bool {
    forall|i: int, j: int| 0 <= i < j < s.len() ==> (#[trigger] s[i]).0 != (#[trigger] s[j]).0
}

/// The entry of a path.
pub open spec fn entry_of(s: Seq<(Seq<char>, Entry)>, k: Seq<char>) -> Option<Entry>
    decreases s.len(),
{
    if s.len() == 0 {
        None
    } else if s[0].0 == k {
        Some(s[0].1)
    } else {
        entry_of(s.drop_first(), k)
    }
}

/// The entries but that of one path.
pub open spec fn without(s: Seq<(Seq<char>, Entry)>, k: Seq<char>) -> Seq<(Seq<char>, Entry)>
    decreases s.len(),
{
    if s.len() == 0 {
        s
    } else if s[0].0 == k {
        s.drop_first()
    } else {
        seq![s[0]] + without(s.drop_first(), k)
    }
}

/// The entries after one was used: it comes first.
pub open spec fn used(s: Seq<(Seq<char>, Entry)>, k: Seq<char>) -> Seq<(Seq<char>, Entry)> {
    match entry_of(s, k) {
        Some(e) => seq![(k, e)] + without(s, k),
        None => s,
    }
}

/// The entries after one was put in: it comes first, in place of an older one of its
/// path; where there is none and the cache is full, the last one goes.
pub open spec fn stored(s: Seq<(Seq<char>, Entry)>, k: Seq<char>, e: Entry, cap: nat) -> Seq<
    (Seq<char>, Entry),
> {
    if has_path(s, k) {
        seq![(k, e)] + without(s, k)
    } else if s.len() == cap {
        seq![(k, e)] + s.drop_last()
    } else {
        seq![(k, e)] + s
    }
}

// ── the outside collection ───────────────────────────────────────────────────
#[verifier::external_type_specification]
#[verifier::external_body]
#[verifier::reject_recursive_types(K)]
#[verifier::reject_recursive_types(V)]
#[verifier::reject_recursive_types(S)]
pub struct ExLruCache<K, V, S>(lru::LruCache<K, V, S>);

#[verifier::external_type_specification]
#[verifier::external_body]
pub struct ExLruHasher(lru::DefaultHasher);

/// What an LRU cache holds, the most recently used entry first.
pub uninterp spec fn lru_entries(c: lru::LruCache<String, Entry>) -> Seq<(Seq<char>, Entry)>;

/// The number of entries that an LRU cache was made for.
pub uninterp spec fn lru_cap(c: lru::LruCache<String, Entry>) -> nat;

/// `lru::LruCache::new`: an empty cache. It reserves room for all entries at once,
/// which fails for numbers that no memory holds; the bound leaves those out.
#[verifier::external_body]
fn lru_new(cap: usize) -> (res: lru::LruCache<String, Entry>)
    requires
        0 < cap <= 0x400_0000,
    ensures
        lru_entries(res) == Seq::<(Seq<char>, Entry)>::empty(),
        lru_cap(res) == cap,
{
    lru::LruCache::new(std::num::NonZeroUsize::new(cap).unwrap())
}

/// `lru::LruCache::peek`: the entry of a path, without using it.
#[verifier::external_body]
fn lru_peek(c: &lru::LruCache<String, Entry>, k: &str) -> (res: Option<Entry>)
    ensures
        res == entry_of(lru_entries(*c), k@),
{
    c.peek(k).copied()
}

/// `lru::LruCache::get`: the entry of a path, which then comes first.
#[verifier::external_body]
fn lru_get(c: &mut lru::LruCache<String, Entry>, k: &str) -> (res: Option<Entry>)
    ensures
        res == entry_of(lru_entries(*old(c)), k@),
        lru_entries(*final(c)) == used(lru_entries(*old(c)), k@),
        lru_cap(*final(c)) == lru_cap(*old(c)),
{
    c.get(k).copied()
}

/// `lru::LruCache::put`: puts an entry first, in place of one of the same path or, in
/// a full cache, of the least recently used one.
#[verifier::external_body]
fn lru_put(c: &mut lru::LruCache<String, Entry>, k: String, e: Entry)
    ensures
        lru_entries(*final(c)) == stored(lru_entries(*old(c)), k@, e, lru_cap(*old(c))),
        lru_cap(*final(c)) == lru_cap(*old(c)),
{
    c.put(k, e);
}

/// `lru::LruCache::pop`: takes the entry of a path out.
#[verifier::external_body]
fn lru_pop(c: &mut lru::LruCache<String, Entry>, k: &str)
    ensures
        lru_entries(*final(c)) == without(lru_entries(*old(c)), k@),
        lru_cap(*final(c)) == lru_cap(*old(c)),
{
    c.pop(k);
}

/// `lru::LruCache::clear`: takes all entries out.
#[verifier::external_body]
fn lru_clear(c: &mut lru::LruCache<String, Entry>)
    ensures
        lru_entries(*final(c)) == Seq::<(Seq<char>, Entry)>::empty(),
        lru_cap(*final(c)) == lru_cap(*old(c)),
{
    c.clear();
}

// ── laws ─────────────────────────────────────────────────────────────────────
proof fn lemma_entry_of(s: Seq<(Seq<char>, Entry)>, k: Seq<char>)
    ensures
        entry_of(s, k) is Some <==> has_path(s, k),
        !has_path(s, k) ==> without(s, k) == s,
    decreases s.len(),
{
    if s.len() > 0 {
        let t = s.drop_first();
        lemma_entry_of(t, k);
        if has_path(s, k) && s[0].0 != k {
            let i = choose|i: int| 0 <= i < s.len() && (#[trigger] s[i]).0 == k;
            assert(t[i - 1].0 == k);
        }
        if has_path(t, k) {
            let i = choose|i: int| 0 <= i < t.len() && (#[trigger] t[i]).0 == k;
            assert(s[i + 1].0 == k);
        }
        if s[0].0 == k {
            assert(has_path(s, k));
        }
        if !has_path(s, k) {
            assert(seq![s[0]] + t =~= s);
        }
    }
}

/// Taking a path out leaves every other entry as it was, in its order.
proof fn lemma_without(s: Seq<(Seq<char>, Entry)>, k: Seq<char>, j: Seq<char>)
    requires
        unique_paths(s),
    ensures
        unique_paths(without(s, k)),
        entry_of(without(s, k), k) is None,
        j != k ==> entry_of(without(s, k), j) == entry_of(s, j),
        without(s, k).len() == s.len() - (if has_path(s, k) {
            1int
        } else {
            0
        }),
        forall|i: int|
            0 <= i < without(s, k).len() ==> exists|m: int|
                0 <= m < s.len() && s[m] == #[trigger] without(s, k)[i],
    decreases s.len(),
{
    if s.len() > 0 {
        let t = s.drop_first();
        assert(unique_paths(t)) by {
            assert forall|a: int, b: int| 0 <= a < b < t.len() implies (#[trigger] t[a]).0 != (
            #[trigger] t[b]).0 by {
                assert(t[a] == s[a + 1] && t[b] == s[b + 1]);
            }
        }
        lemma_without(t, k, j);
        lemma_entry_of(t, k);
        lemma_entry_of(s, k);
        let w = without(s, k);
        if s[0].0 == k {
            assert(has_path(s, k));
            if has_path(t, k) {
                let i = choose|i: int| 0 <= i < t.len() && (#[trigger] t[i]).0 == k;
                assert(s[0].0 != s[i + 1].0);
            }
            assert forall|i: int| 0 <= i < w.len() implies exists|m: int|
                0 <= m < s.len() && s[m] == #[trigger] w[i] by {
                assert(s[i + 1] == w[i]);
            }
        } else {
            let r = without(t, k);
            assert(w == seq![s[0]] + r);
            assert(w.drop_first() =~= r);
            assert forall|i: int| 0 <= i < w.len() implies exists|m: int|
                0 <= m < s.len() && s[m] == #[trigger] w[i] by {
                if i == 0 {
                    assert(s[0] == w[0]);
                } else {
                    assert(w[i] == r[i - 1]);
                    let m = choose|m: int| 0 <= m < t.len() && t[m] == r[i - 1];
                    assert(s[m + 1] == w[i]);
                }
            }
            assert forall|a: int, b: int| 0 <= a < b < w.len() implies (#[trigger] w[a]).0 != (
            #[trigger] w[b]).0 by {
                if a > 0 {
                    assert(w[a] == r[a - 1] && w[b] == r[b - 1]);
                } else {
                    assert(w[b] == r[b - 1]);
                    let m = choose|m: int| 0 <= m < t.len() && t[m] == r[b - 1];
                    assert(s[0].0 != s[m + 1].0);
                }
            }
            if has_path(s, k) {
                let i = choose|i: int| 0 <= i < s.len() && (#[trigger] s[i]).0 == k;
                assert(t[i - 1].0 == k);
                assert(has_path(t, k));
            }
            if has_path(t, k) {
                let i = choose|i: int| 0 <= i < t.len() && (#[trigger] t[i]).0 == k;
                assert(s[i + 1].0 == k);
            }
        }
    }
}

proof fn lemma_front(s: Seq<(Seq<char>, Entry)>, k: Seq<char>, e: Entry)
    requires
        unique_paths(s),
        !has_path(s, k),
    ensures
        unique_paths(seq![(k, e)] + s),
        entry_of(seq![(k, e)] + s, k) == Some(e),
        forall|j: Seq<char>| j != k ==> #[trigger] entry_of(seq![(k, e)] + s, j) == entry_of(s, j),
{
    let t = seq![(k, e)] + s;
    assert(t.drop_first() =~= s);
    assert forall|a: int, b: int| 0 <= a < b < t.len() implies (#[trigger] t[a]).0 != (
    #[trigger] t[b]).0 by {
        assert(t[b] == s[b - 1]);
        if a > 0 {
            assert(t[a] == s[a - 1]);
        }
    }
}

proof fn lemma_no_path_without(s: Seq<(Seq<char>, Entry)>, k: Seq<char>)
    requires
        unique_paths(s),
    ensures
        !has_path(without(s, k), k),
{
    lemma_without(s, k, k);
    lemma_entry_of(without(s, k), k);
}

proof fn lemma_drop_last_entry(s: Seq<(Seq<char>, Entry)>, j: Seq<char>)
    requires
        s.len() > 0,
        unique_paths(s),
    ensures
        unique_paths(s.drop_last()),
        j != s.last().0 ==> entry_of(s.drop_last(), j) == entry_of(s, j),
    decreases s.len(),
{
    let p = s.drop_last();
    assert forall|a: int, b: int| 0 <= a < b < p.len() implies (#[trigger] p[a]).0 != (
    #[trigger] p[b]).0 by {
        assert(p[a] == s[a] && p[b] == s[b]);
    }
    if s.len() > 1 {
        let t = s.drop_first();
        assert forall|a: int, b: int| 0 <= a < b < t.len() implies (#[trigger] t[a]).0 != (
        #[trigger] t[b]).0 by {
            assert(t[a] == s[a + 1] && t[b] == s[b + 1]);
        }
        lemma_drop_last_entry(t, j);
        assert(p.drop_first() =~= t.drop_last());
        assert(t.last() == s.last());
    } else {
        assert(s.drop_first() =~= Seq::empty());
    }
}

/// An entry that was put in is the one that is found, and every other path keeps its
/// entry, except for the least recently used one of a full cache.
pub proof fn law_stored_entry_is_found(
    s: Seq<(Seq<char>, Entry)>,
    k: Seq<char>,
    e: Entry,
    cap: nat,
    j: Seq<char>,
)
    requires
        unique_paths(s),
        s.len() <= cap,
        cap > 0,
    ensures
        unique_paths(stored(s, k, e, cap)),
        stored(s, k, e, cap).len() <= cap,
        entry_of(stored(s, k, e, cap), k) == Some(e),
        j != k && !(s.len() == cap && !has_path(s, k) && j == s.last().0) ==> entry_of(
            stored(s, k, e, cap),
            j,
        ) == entry_of(s, j),
{
    if has_path(s, k) {
        lemma_without(s, k, j);
        lemma_no_path_without(s, k);
        lemma_front(without(s, k), k, e);
    } else if s.len() == cap {
        lemma_drop_last_entry(s, j);
        let p = s.drop_last();
        if has_path(p, k) {
            let i = choose|i: int| 0 <= i < p.len() && (#[trigger] p[i]).0 == k;
            assert(s[i].0 == k);
        }
        lemma_front(p, k, e);
    } else {
        lemma_front(s, k, e);
    }
}

/// A path that was taken out is not found, and every other keeps its entry.
pub proof fn law_removed_entry_is_gone(s: Seq<(Seq<char>, Entry)>, k: Seq<char>, j: Seq<char>)
    requires
        unique_paths(s),
    ensures
        unique_paths(without(s, k)),
        without(s, k).len() <= s.len(),
        entry_of(without(s, k), k) is None,
        j != k ==> entry_of(without(s, k), j) == entry_of(s, j),
{
    lemma_without(s, k, j);
}

/// Using an entry changes no entry.
pub proof fn law_use_keeps_entries(s: Seq<(Seq<char>, Entry)>, k: Seq<char>, j: Seq<char>)
    requires
        unique_paths(s),
    ensures
        unique_paths(used(s, k)),
        used(s, k).len() == s.len(),
        entry_of(used(s, k), j) == entry_of(s, j),
{
    lemma_entry_of(s, k);
    if entry_of(s, k) is Some {
        lemma_without(s, k, j);
        lemma_no_path_without(s, k);
        lemma_front(without(s, k), k, entry_of(s, k)->0);
    }
}

/// What a lookup answers: the attributes, that the path does not exist, or nothing
/// where the path is not cached or its entry has expired.
pub open spec fn answer(e: Option<Entry>, now: nat) -> Option<Result<Stat, ()>> {
    match e {
        None => None,
        Some(e) => if now >= e.expires {
            None
        } else {
            match e.found {
                Some(stat) => Some(Ok(stat)),
                None => Some(Err(())),
            }
        },
    }
}

/// An entry that was put in answers for its path until it expires, and not from then on.
pub proof fn law_entry_answers_until_it_expires(
    s: Seq<(Seq<char>, Entry)>,
    k: Seq<char>,
    e: Entry,
    cap: nat,
    now: nat,
)
    requires
        unique_paths(s),
        s.len() <= cap,
        cap > 0,
    ensures
        answer(entry_of(stored(s, k, e, cap), k), now) == (if now >= e.expires {
            None
        } else {
            match e.found {
                Some(stat) => Some(Ok::<Stat, ()>(stat)),
                None => Some(Err(())),
            }
        }),
{
    law_stored_entry_is_found(s, k, e, cap, k);
}

/// What a lookup leaves: an expired entry goes, one that answered comes first.
pub open spec fn looked_up(s: Seq<(Seq<char>, Entry)>, k: Seq<char>, now: nat) -> Seq<
    (Seq<char>, Entry),
> {
    match entry_of(s, k) {
        None => s,
        Some(e) => if now >= e.expires {
            without(s, k)
        } else {
            used(s, k)
        },
    }
}

/// Looking a path up changes no later answer, for it or for any other path: what expired is
/// dropped, and nothing else is.
pub proof fn law_lookups_change_no_answer(
    s: Seq<(Seq<char>, Entry)>,
    k: Seq<char>,
    now: nat,
    j: Seq<char>,
    t: nat,
)
    requires
        unique_paths(s),
        now <= t,
    ensures
        answer(entry_of(looked_up(s, k, now), j), t) == answer(entry_of(s, j), t),
{
    lemma_without(s, k, j);
    law_use_keeps_entries(s, k, j);
}

/// What was just looked up is kept longest: it comes first, and a new entry for another
/// path never takes its place. What had expired is gone.
pub proof fn law_looked_up_entries_stay(
    s: Seq<(Seq<char>, Entry)>,
    k: Seq<char>,
    now: nat,
    j: Seq<char>,
    e: Entry,
    cap: nat,
)
    requires
        unique_paths(s),
        s.len() <= cap,
        cap >= 2,
        j != k,
    ensures
        answer(entry_of(s, k), now) is Some ==> {
            &&& looked_up(s, k, now).len() > 0
            &&& looked_up(s, k, now)[0].0 == k
            &&& entry_of(stored(looked_up(s, k, now), j, e, cap), k) == entry_of(s, k)
        },
        answer(entry_of(s, k), now) is None ==> entry_of(looked_up(s, k, now), k) is None,
{
    lemma_entry_of(s, k);
    lemma_without(s, k, k);
    law_use_keeps_entries(s, k, k);
    let after = looked_up(s, k, now);
    if answer(entry_of(s, k), now) is Some {
        assert(after[0].0 == k);
        if after.len() > 1 {
            assert(after[0].0 != after[after.len() - 1].0);
        }
        law_stored_entry_is_found(after, j, e, cap, k);
    }
}

/// The entries after a path and its parent directory were taken out.
pub open spec fn invalidated(s: Seq<(Seq<char>, Entry)>, k: Seq<char>) -> Seq<(Seq<char>, Entry)> {
    match parent(k) {
        Some(p) => without(without(s, k), p),
        None => without(s, k),
    }
}

/// An entry that says `found` was put in at a time that `clock` may read, to live `ttl`
/// nanoseconds from then.
pub open spec fn remembers(
    clock: Clock,
    before: Seq<(Seq<char>, Entry)>,
    after: Seq<(Seq<char>, Entry)>,
    cap: nat,
    path: Seq<char>,
    found: Option<Stat>,
    ttl: nat,
) -> bool {
    exists|now: Duration|
        {
            &&& #[trigger] clock.may_read(now)
            &&& after == stored(
                before,
                path,
                Entry { found, expires: (now.nanos() + ttl) as u128 },
                cap,
            )
        }
}

/// After an invalidation neither the path nor its parent is answered from the cache;
/// everything else is, as before.
pub proof fn law_invalidate_drops_path_and_parent(
    s: Seq<(Seq<char>, Entry)>,
    k: Seq<char>,
    j: Seq<char>,
)
    requires
        unique_paths(s),
    ensures
        unique_paths(invalidated(s, k)),
        entry_of(invalidated(s, k), k) is None,
        parent(k) is Some ==> entry_of(invalidated(s, k), parent(k)->0) is None,
        j != k && Some(j) != parent(k) ==> entry_of(invalidated(s, k), j) == entry_of(s, j),
{
    lemma_without(s, k, j);
    if parent(k) is Some {
        lemma_without(without(s, k), parent(k)->0, j);
        lemma_without(without(s, k), parent(k)->0, k);
    }
}

/// What was put in answers for its path before the time `now` plus its lifetime, and is a
/// miss at every time from then on. Every other path keeps its entry, except for the least
/// recently used one of a full cache.
pub proof fn law_memory_fades(
    clock: Clock,
    before: Seq<(Seq<char>, Entry)>,
    after: Seq<(Seq<char>, Entry)>,
    cap: nat,
    path: Seq<char>,
    found: Option<Stat>,
    ttl: Duration,
)
    requires
        unique_paths(before),
        before.len() <= cap,
        cap > 0,
        remembers(clock, before, after, cap, path, found, ttl.nanos()),
    ensures
        exists|now: Duration| #[trigger]
            clock.may_read(now) && forall|t: nat|
                #![trigger answer(entry_of(after, path), t)]
                {
                    &&& t < now.nanos() + ttl.nanos() ==> answer(entry_of(after, path), t) == Some(
                        match found {
                            Some(stat) => Ok::<Stat, ()>(stat),
                            None => Err(()),
                        },
                    )
                    &&& t >= now.nanos() + ttl.nanos() ==> answer(entry_of(after, path), t) is None
                },
        forall|j: Seq<char>|
            j != path && !(before.len() == cap && !has_path(before, path) && j == before.last().0)
                ==> #[trigger] entry_of(after, j) == entry_of(before, j),
        after.len() <= cap,
{
    let now = choose|now: Duration|
        {
            &&& #[trigger] clock.may_read(now)
            &&& after == stored(
                before,
                path,
                Entry { found, expires: (now.nanos() + ttl.nanos()) as u128 },
                cap,
            )
        };
    let e = Entry { found, expires: (now.nanos() + ttl.nanos()) as u128 };
    law_stored_entry_is_found(before, path, e, cap, path);
    assert(clock.may_read(now));
    assert forall|j: Seq<char>|
        j != path && !(before.len() == cap && !has_path(before, path) && j
            == before.last().0) implies #[trigger] entry_of(after, j) == entry_of(before, j) by {
        law_stored_entry_is_found(before, path, e, cap, j);
    }
}

// ── the cache ────────────────────────────────────────────────────────────────
/// LRU metadata cache with per-entry expiry.
pub struct MetaCache {
    lru: lru::LruCache<String, Entry>,
    cfg: CacheConfig,
    clock: Clock,
}

impl MetaCache {
    /// The cached paths, the most recently used first.
    pub closed spec fn view(&self) -> Seq<(Seq<char>, Entry)> {
        lru_entries(self.lru)
    }

    /// The most entries that are kept.
    pub closed spec fn cap(&self) -> nat {
        lru_cap(self.lru)
    }

    pub closed spec fn config(&self) -> CacheConfig {
        self.cfg
    }

    /// The clock that entries expire by.
    pub closed spec fn clock(&self) -> Clock {
        self.clock
    }

    /// No path is cached twice, and no more entries are kept than allowed.
    pub open spec fn wf(&self) -> bool {
        &&& unique_paths(self@)
        &&& self@.len() <= self.cap()
        &&& self.cap() > 0
    }

    /// An empty cache; a limit of zero stands for the default one.
    pub fn new(cfg: CacheConfig) -> (res: Self)
        requires
            cfg.max_entries <= 0x400_0000,
        ensures
            res.wf(),
            res@ == Seq::<(Seq<char>, Entry)>::empty(),
            res.config() == cfg,
            res.clock().is_started(),
            res.cap() == (if cfg.max_entries == 0 {
                8192
            } else {
                cfg.max_entries as int
            }),
    {
        let cap: usize = if cfg.max_entries == 0 {
            8192
        } else {
            cfg.max_entries
        };
        MetaCache { lru: lru_new(cap), cfg, clock: Clock::new() }
    }

    /// Look up a path: `Some(Ok(stat))` on a hit, `Some(Err(()))` where the path is
    /// known not to exist, `None` on a miss or an expired entry.
    pub fn get(&mut self, path: &str) -> (res: Option<Result<Stat, ()>>)
        requires
            old(self).wf(),
        ensures
            final(self).wf(),
            final(self).cap() == old(self).cap(),
            final(self).config() == old(self).config(),
            final(self).clock() == old(self).clock(),
            exists|now: Duration|
                {
                    &&& #[trigger] old(self).clock().may_read(now)
                    &&& res == answer(entry_of(old(self)@, path@), now.nanos())
                    &&& final(self)@ == looked_up(old(self)@, path@, now.nanos())
                },
    {
        let now = self.clock.now();
        assert(self.clock().may_read(now));
        self.get_at(path, now)
    }

    /// `get` at the time `now`.
    pub fn get_at(&mut self, path: &str, now: Duration) -> (res: Option<Result<Stat, ()>>)
        requires
            old(self).wf(),
        ensures
            final(self).wf(),
            final(self).cap() == old(self).cap(),
            final(self).config() == old(self).config(),
            final(self).clock() == old(self).clock(),
            res == answer(entry_of(old(self)@, path@), now.nanos()),
            final(self)@ == looked_up(old(self)@, path@, now.nanos()),
    {
        let expired = match lru_peek(&self.lru, path) {
            None => {
                return None;
            },
            Some(e) => now.as_nanos() >= e.expires,
        };
        proof {
            law_removed_entry_is_gone(self@, path@, path@);
            law_use_keeps_entries(self@, path@, path@);
        }
        if expired {
            lru_pop(&mut self.lru, path);
            return None;
        }
        match lru_get(&mut self.lru, path) {
            Some(e) => match e.found {
                Some(stat) => Some(Ok(stat)),
                None => Some(Err(())),
            },
            None => None,
        }
    }

    /// Insert a positive result.
    pub fn insert(&mut self, path: String, stat: Stat, is_dir: bool)
        requires
            old(self).wf(),
        ensures
            final(self).wf(),
            final(self).cap() == old(self).cap(),
            final(self).config() == old(self).config(),
            final(self).clock() == old(self).clock(),
            remembers(
                old(self).clock(),
                old(self)@,
                final(self)@,
                old(self).cap(),
                path@,
                Some(stat),
                if is_dir {
                    old(self).config().dir_ttl.nanos()
                } else {
                    old(self).config().pos_ttl.nanos()
                },
            ),
            exists|now: Duration| #[trigger]
                old(self).clock().may_read(now) && forall|t: nat|
                    #[trigger] answer(entry_of(final(self)@, path@), t) == (if t < now.nanos() + (
                    if is_dir {
                        old(self).config().dir_ttl.nanos()
                    } else {
                        old(self).config().pos_ttl.nanos()
                    }) {
                        Some(Ok::<Stat, ()>(stat))
                    } else {
                        None
                    }),
    {
        let now = self.clock.now();
        assert(self.clock().may_read(now));
        self.insert_at(path, stat, is_dir, now);
    }

    /// `insert` at the time `now`: the entry of a directory has a lifetime of its own.
    pub fn insert_at(&mut self, path: String, stat: Stat, is_dir: bool, now: Duration)
        requires
            old(self).wf(),
        ensures
            final(self).wf(),
            final(self).cap() == old(self).cap(),
            final(self).config() == old(self).config(),
            final(self).clock() == old(self).clock(),
            final(self)@ == stored(
                old(self)@,
                path@,
                (Entry {
                    found: Some(stat),
                    expires: (now.nanos() + (if is_dir {
                        old(self).config().dir_ttl.nanos()
                    } else {
                        old(self).config().pos_ttl.nanos()
                    })) as u128,
                }),
                old(self).cap(),
            ),
            forall|t: nat|
                #[trigger] answer(entry_of(final(self)@, path@), t) == (if t < now.nanos() + (if is_dir {
                    old(self).config().dir_ttl.nanos()
                } else {
                    old(self).config().pos_ttl.nanos()
                }) {
                    Some(Ok::<Stat, ()>(stat))
                } else {
                    None
                }),
    {
        let ttl: u128 = if is_dir {
            self.cfg.dir_ttl.as_nanos()
        } else {
            self.cfg.pos_ttl.as_nanos()
        };
        let e = Entry { found: Some(stat), expires: now.as_nanos() + ttl };
        proof {
            law_stored_entry_is_found(self@, path@, e, self.cap(), path@);
        }
        lru_put(&mut self.lru, path, e);
    }

    /// Insert a negative result: the path does not exist.
    pub fn insert_negative(&mut self, path: String)
        requires
            old(self).wf(),
        ensures
            final(self).wf(),
            final(self).cap() == old(self).cap(),
            final(self).config() == old(self).config(),
            final(self).clock() == old(self).clock(),
            remembers(
                old(self).clock(),
                old(self)@,
                final(self)@,
                old(self).cap(),
                path@,
                None,
                old(self).config().neg_ttl.nanos(),
            ),
            exists|now: Duration| #[trigger]
                old(self).clock().may_read(now) && forall|t: nat|
                    #[trigger] answer(entry_of(final(self)@, path@), t) == (if t < now.nanos()
                        + old(self).config().neg_ttl.nanos() {
                        Some(Err::<Stat, ()>(()))
                    } else {
                        None
                    }),
    {
        let now = self.clock.now();
        assert(self.clock().may_read(now));
        self.insert_negative_at(path, now);
    }

    /// `insert_negative` at the time `now`.
    pub fn insert_negative_at(&mut self, path: String, now: Duration)
        requires
            old(self).wf(),
        ensures
            final(self).wf(),
            final(self).cap() == old(self).cap(),
            final(self).config() == old(self).config(),
            final(self).clock() == old(self).clock(),
            final(self)@ == stored(
                old(self)@,
                path@,
                (Entry {
                    found: None,
                    expires: (now.nanos() + old(self).config().neg_ttl.nanos()) as u128,
                }),
                old(self).cap(),
            ),
            forall|t: nat|
                #[trigger] answer(entry_of(final(self)@, path@), t) == (if t < now.nanos()
                    + old(self).config().neg_ttl.nanos() {
                    Some(Err::<Stat, ()>(()))
                } else {
                    None
                }),
    {
        let e = Entry { found: None, expires: now.as_nanos() + self.cfg.neg_ttl.as_nanos() };
        proof {
            law_stored_entry_is_found(self@, path@, e, self.cap(), path@);
        }
        lru_put(&mut self.lru, path, e);
    }

    /// Invalidate a path and its parent directory.
    pub fn invalidate(&mut self, path: &str)
        requires
            old(self).wf(),
        ensures
            final(self).wf(),
            final(self).cap() == old(self).cap(),
            final(self).config() == old(self).config(),
            final(self).clock() == old(self).clock(),
            final(self)@ == invalidated(old(self)@, path@),
    {
        proof {
            law_removed_entry_is_gone(self@, path@, path@);
        }
        lru_pop(&mut self.lru, path);
        if let Some(p) = parent_of(path) {
            proof {
                law_removed_entry_is_gone(self@, p@, p@);
            }
            lru_pop(&mut self.lru, p.as_str());
        }
    }

    /// Drop all entries.
    pub fn clear(&mut self)
        requires
            old(self).wf(),
        ensures
            final(self).wf(),
            final(self).cap() == old(self).cap(),
            final(self).config() == old(self).config(),
            final(self).clock() == old(self).clock(),
            final(self)@ == Seq::<(Seq<char>, Entry)>::empty(),
    {
        lru_clear(&mut self.lru);
    }
}

} // verus!
