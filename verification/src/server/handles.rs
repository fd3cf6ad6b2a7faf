//! Open file handles of one session.
//!
//! A handle keeps the open file itself, so later operations never reopen it by
//! name. Handle numbers carry a random session epoch in their high half: a number
//! from an earlier session misses the table instead of naming another file.

use std::collections::hash_map::DefaultHasher;
use std::collections::HashMap;
use std::hash::Hasher;

use vstd::prelude::*;
use vstd::std_specs::hash::DefaultHasherAdditionalSpecFns;

use crate::path::components;
use crate::random::{draw_uuid, may_draw};

verus! {

broadcast use vstd::std_specs::hash::group_hash_axioms;

/// An open file handle tracked by the server.
pub struct OpenHandle<F> {
    pub path: String,
    pub flags: u32,
    pub file: F,
    /// Stable identifier of the underlying file, captured when it was opened. Two
    /// handles to the same file share it even where their paths differ.
    pub ino_key: u128,
}

/// The table holds as many handles as it may.
#[derive(Debug, Clone, Copy, PartialEq, Eq, Structural)]
pub struct TooManyHandles {
    pub limit: u32,
}

/// Two to the power of 32: how many handle numbers an epoch has.
pub const EPOCH_SIZE: u64 = 0x1_0000_0000;

/// The `n`-th handle number of an epoch.
pub open spec fn handle_id(epoch: int, n: int) -> u64 {
    ((epoch * EPOCH_SIZE + 1 + n) % 0x1_0000_0000_0000_0000) as u64
}

/// Handle numbers of different epochs never collide, as long as neither session
/// has handed out more numbers than an epoch has.
pub proof fn law_epochs_do_not_collide(a: int, i: int, b: int, j: int)
    requires
        0 <= a < EPOCH_SIZE,
        0 <= b < EPOCH_SIZE,
        a != b,
        0 <= i < EPOCH_SIZE - 1,
        0 <= j < EPOCH_SIZE - 1,
    ensures
        handle_id(a, i) != handle_id(b, j),
{
    lemma_handle_id_exact(a, i);
    lemma_handle_id_exact(b, j);
}

proof fn lemma_handle_id_exact(e: int, n: int)
    requires
        0 <= e < EPOCH_SIZE,
        0 <= n < EPOCH_SIZE - 1,
    ensures
        handle_id(e, n) == e * EPOCH_SIZE + 1 + n,
        handle_id(e, n) as int / EPOCH_SIZE as int == e,
{
    let v = e * EPOCH_SIZE + 1 + n;
    assert(0 <= v < 0x1_0000_0000_0000_0000);
    assert(v % 0x1_0000_0000_0000_0000 == v);
    assert(v / EPOCH_SIZE as int == e) by (nonlinear_arith)
        requires
            v == e * EPOCH_SIZE + 1 + n,
            0 <= n < EPOCH_SIZE - 1,
            EPOCH_SIZE == 0x1_0000_0000,
    ;
}

/// The epoch stands in the high half of a handle number; the low half counts from 1.
pub proof fn law_handle_numbers_carry_their_epoch(epoch: int, n: int)
    requires
        0 <= epoch < 0x1_0000_0000,
        0 <= n < 0xFFFF_FFFF,
    ensures
        handle_id(epoch, n) as int / 0x1_0000_0000 == epoch,
        handle_id(epoch, n) as int % 0x1_0000_0000 == n + 1,
{
    lemma_handle_id_exact(epoch, n);
}

/// A session never hands out a number twice.
pub proof fn law_handle_numbers_are_fresh(epoch: int, i: int, j: int)
    requires
        0 <= i < j < 0x1_0000_0000_0000_0000,
    ensures
        handle_id(epoch, i) != handle_id(epoch, j),
{
    let base = epoch * EPOCH_SIZE + 1;
    if (base + i) % 0x1_0000_0000_0000_0000 == (base + j) % 0x1_0000_0000_0000_0000 {
        vstd::arithmetic::div_mod::lemma_fundamental_div_mod(
            base + i,
            0x1_0000_0000_0000_0000,
        );
        vstd::arithmetic::div_mod::lemma_fundamental_div_mod(
            base + j,
            0x1_0000_0000_0000_0000,
        );
        assert(false);
    }
}

/// Per-session table of open file handles, bounded in size.
pub struct HandleTable<F> {
    counter: u64,
    max_handles: u32,
    inner: HashMap<u64, OpenHandle<F>>,
    epoch: Ghost<int>,
    issued: Ghost<int>,
}

impl<F> HandleTable<F> {
    /// The open handles.
    pub closed spec fn view(&self) -> Map<u64, OpenHandle<F>> {
        self.inner@
    }

    /// The session's epoch.
    pub closed spec fn epoch(&self) -> int {
        self.epoch@
    }

    /// How many handle numbers were handed out.
    pub closed spec fn issued(&self) -> int {
        self.issued@
    }

    pub closed spec fn limit(&self) -> u32 {
        self.max_handles
    }

    /// The table holds no more than its limit, and every handle has a number that
    /// this session handed out.
    pub open spec fn wf(&self) -> bool {
        &&& self.counts_on()
        &&& 0 <= self.epoch() < EPOCH_SIZE
        &&& 0 <= self.issued()
        &&& self@.dom().finite()
        &&& self@.dom().len() <= self.limit()
        &&& forall|id: u64| #[trigger]
            self@.contains_key(id) ==> exists|n: int|
                0 <= n < self.issued() && id == handle_id(self.epoch(), n)
    }

    /// The counter stands at the next number.
    pub closed spec fn counts_on(&self) -> bool {
        self.counter == handle_id(self.epoch@, self.issued@)
    }

    /// A handle table for a new session that allows at most `max_handles` open
    /// handles at a time, with a random epoch.
    pub fn with_limit(max_handles: u32) -> (res: Self)
        ensures
            res.wf(),
            res@ == Map::<u64, OpenHandle<F>>::empty(),
            res.limit() == max_handles,
            res.issued() == 0,
            exists|draw: u128|
                #[trigger] may_draw(draw) && res.epoch() == draw % (EPOCH_SIZE as u128),
    {
        let r: u128 = draw_uuid();
        let epoch: u32 = (r % 0x1_0000_0000) as u32;
        Self::with_epoch(epoch, max_handles)
    }

    /// A handle table whose numbers are those of `epoch`.
    pub fn with_epoch(epoch: u32, max_handles: u32) -> (res: Self)
        ensures
            res.wf(),
            res@ == Map::<u64, OpenHandle<F>>::empty(),
            res.limit() == max_handles,
            res.epoch() == epoch,
            res.issued() == 0,
    {
        proof {
            lemma_handle_id_exact(epoch as int, 0);
        }
        HandleTable {
            counter: (epoch as u64) * 0x1_0000_0000 + 1,
            max_handles,
            inner: HashMap::new(),
            epoch: Ghost(epoch as int),
            issued: Ghost(0),
        }
    }

    /// Insert a new handle and return its number, or refuse it where the table is
    /// at capacity.
    pub fn try_insert(&mut self, path: String, flags: u32, file: F, ino_key: u128) -> (res: Result<
        u64,
        TooManyHandles,
    >)
        requires
            old(self).wf(),
        ensures
            final(self).wf(),
            final(self).limit() == old(self).limit(),
            final(self).epoch() == old(self).epoch(),
            match res {
                Ok(id) => {
                    &&& old(self)@.dom().len() < old(self).limit()
                    &&& id == handle_id(old(self).epoch(), old(self).issued())
                    &&& final(self).issued() == old(self).issued() + 1
                    &&& final(self)@ == old(self)@.insert(
                        id,
                        (OpenHandle { path, flags, file, ino_key }),
                    )
                },
                Err(e) => {
                    &&& old(self)@.dom().len() >= old(self).limit()
                    &&& e.limit == old(self).limit()
                    &&& final(self)@ == old(self)@
                    &&& final(self).issued() == old(self).issued()
                },
            },
    {
        if self.inner.len() >= self.max_handles as usize {
            return Err(TooManyHandles { limit: self.max_handles });
        }
        let id: u64 = self.counter;
        let ghost e = self.epoch@;
        let ghost n = self.issued@;
        let ghost before = self.inner@;
        self.inner.insert(id, OpenHandle { path, flags, file, ino_key });
        self.counter = id.wrapping_add(1);
        self.issued = Ghost(n + 1);
        proof {
            lemma_next_handle_id(e, n);
            assert(self@.dom() =~= before.dom().insert(id));
            assert(self.counts_on());
            assert forall|k: u64| #[trigger] self@.contains_key(k) implies exists|m: int|
                0 <= m < n + 1 && k == handle_id(e, m) by {
                if k == id {
                    assert(k == handle_id(e, n));
                } else {
                    assert(before.contains_key(k));
                    let m = choose|m: int| 0 <= m < n && k == handle_id(e, m);
                    assert(0 <= m < n + 1 && k == handle_id(e, m));
                }
            }
            assert(self.wf());
        }
        Ok(id)
    }

    /// Remove and return the handle; `None` if it is not open.
    pub fn remove(&mut self, id: u64) -> (res: Option<OpenHandle<F>>)
        requires
            old(self).wf(),
        ensures
            final(self).wf(),
            final(self).limit() == old(self).limit(),
            final(self).epoch() == old(self).epoch(),
            final(self).issued() == old(self).issued(),
            final(self)@ == old(self)@.remove(id),
            match res {
                Some(h) => old(self)@.contains_key(id) && h == old(self)@[id],
                None => !old(self)@.contains_key(id),
            },
    {
        let ghost before = self@;
        let res = self.inner.remove(&id);
        proof {
            assert(self@ == before.remove(id));
            assert(self@.dom() =~= before.dom().remove(id));
            assert forall|k: u64| #[trigger] self@.contains_key(k) implies exists|n: int|
                0 <= n < self.issued() && k == handle_id(self.epoch(), n) by {
                assert(before.contains_key(k));
                let n = choose|n: int|
                    0 <= n < old(self).issued() && k == handle_id(old(self).epoch(), n);
                assert(0 <= n < self.issued() && k == handle_id(self.epoch(), n));
            }
        }
        res
    }

    /// The open handle with the number `id`; `None` where it is stale.
    pub fn get(&self, id: u64) -> (res: Option<&OpenHandle<F>>)
        ensures
            match res {
                Some(h) => self@.contains_key(id) && *h == self@[id],
                None => !self@.contains_key(id),
            },
    {
        self.inner.get(&id)
    }

    /// The retained file of `id`; `None` for stale handles.
    pub fn get_file(&self, id: u64) -> (res: Option<&F>)
        ensures
            match res {
                Some(f) => self@.contains_key(id) && *f == self@[id].file,
                None => !self@.contains_key(id),
            },
    {
        match self.inner.get(&id) {
            Some(h) => Some(&h.file),
            None => None,
        }
    }

    /// What the write path needs of `id`: the retained file, the open flags and
    /// the file's key. `None` for stale handles.
    pub fn get_write_ctx(&self, id: u64) -> (res: Option<(&F, u32, u128)>)
        ensures
            match res {
                Some((f, flags, key)) => self@.contains_key(id) && *f == self@[id].file && flags
                    == self@[id].flags && key == self@[id].ino_key,
                None => !self@.contains_key(id),
            },
    {
        match self.inner.get(&id) {
            Some(h) => Some((&h.file, h.flags, h.ino_key)),
            None => None,
        }
    }

    /// The path that `id` was opened with; `None` for stale handles.
    pub fn get_path(&self, id: u64) -> (res: Option<String>)
        ensures
            match res {
                Some(p) => self@.contains_key(id) && p == self@[id].path,
                None => !self@.contains_key(id),
            },
    {
        match self.inner.get(&id) {
            Some(h) => Some(h.path.clone()),
            None => None,
        }
    }

    /// Number of open handles.
    pub fn len(&self) -> (res: usize)
        ensures
            res == self@.dom().len(),
    {
        self.inner.len()
    }

    /// No handle is open.
    pub fn is_empty(&self) -> (res: bool)
        ensures
            res == (self@.dom().len() == 0),
    {
        self.inner.len() == 0
    }

    /// A number from a session with another epoch resolves to nothing, as long as
    /// neither session has handed out more numbers than an epoch has.
    pub proof fn law_stale_handle_misses(&self, other_epoch: int, n: int)
        requires
            self.wf(),
            self.issued() < EPOCH_SIZE,
            0 <= other_epoch < EPOCH_SIZE,
            other_epoch != self.epoch(),
            0 <= n < EPOCH_SIZE - 1,
        ensures
            !self@.contains_key(handle_id(other_epoch, n)),
    {
        let id = handle_id(other_epoch, n);
        if self@.contains_key(id) {
            let m = choose|m: int| 0 <= m < self.issued() && id == handle_id(self.epoch(), m);
            law_epochs_do_not_collide(other_epoch, n, self.epoch(), m);
        }
    }

    /// A new handle never takes the number of one that is still open.
    pub proof fn law_new_handle_is_fresh(&self)
        requires
            self.wf(),
            self.issued() < 0x1_0000_0000_0000_0000,
        ensures
            !self@.contains_key(handle_id(self.epoch(), self.issued())),
    {
        let id = handle_id(self.epoch(), self.issued());
        if self@.contains_key(id) {
            let m = choose|m: int| 0 <= m < self.issued() && id == handle_id(self.epoch(), m);
            law_handle_numbers_are_fresh(self.epoch(), m, self.issued());
        }
    }
}

proof fn lemma_next_handle_id(e: int, n: int)
    ensures
        handle_id(e, n).wrapping_add(1) == handle_id(e, n + 1),
{
    let m: int = 0x1_0000_0000_0000_0000;
    let v = e * EPOCH_SIZE + 1 + n;
    vstd::arithmetic::div_mod::lemma_fundamental_div_mod(v, m);
    vstd::arithmetic::div_mod::lemma_fundamental_div_mod(v + 1, m);
    if v % m == m - 1 {
        assert(v + 1 == m * (v / m + 1)) by (nonlinear_arith)
            requires
                v == m * (v / m) + v % m,
                v % m == m - 1,
        ;
        vstd::arithmetic::div_mod::lemma_fundamental_div_mod_converse(v + 1, m, v / m + 1, 0);
    } else {
        vstd::arithmetic::div_mod::lemma_fundamental_div_mod_converse(
            v + 1,
            m,
            v / m,
            v % m + 1,
        );
    }
}

/// The key of a file: its device in the high half, its inode in the low one.
pub fn ino_key(dev: u64, ino: u64) -> (res: u128)
    ensures
        res == dev * 0x1_0000_0000_0000_0000 + ino,
{
    (dev as u128) * 0x1_0000_0000_0000_0000 + (ino as u128)
}

/// Two files have the same key only where they are the same file.
pub proof fn law_ino_keys_identify_files(dev1: u64, ino1: u64, dev2: u64, ino2: u64)
    requires
        dev1 * 0x1_0000_0000_0000_0000 + ino1 == dev2 * 0x1_0000_0000_0000_0000 + ino2,
    ensures
        dev1 == dev2,
        ino1 == ino2,
{
}

/// What a path with these components feeds to a hasher.
pub uninterp spec fn path_writes(parts: Seq<Seq<char>>) -> Seq<Seq<u8>>;

/// `Hash::hash` of `std::path::Path` feeds a path to a hasher, behind what it was fed
/// before. Paths are equal where their components are, and equal paths feed a hasher
/// alike. Which bytes these are is not said: they follow how the machine lays out its
/// integers, so a key is good for the locks of one process and is never stored or sent.
#[verifier::external_body]
fn hash_path(path: &str, h: &mut DefaultHasher)
    ensures
        final(h)@ == old(h)@ + path_writes(components(path@)),
{
    std::hash::Hash::hash(std::path::Path::new(path), h)
}

/// The key of a path: its hash, with the highest bit set.
pub open spec fn path_key(path: Seq<char>) -> int {
    0x8000_0000_0000_0000_0000_0000_0000_0000 + DefaultHasher::spec_finish(
        path_writes(components(path)),
    )
}

/// However a path is spelled, it has one key, so that opening it again meets the same
/// lock. The key differs from that of every file on a device below 2^63.
pub proof fn law_paths_have_one_key(a: Seq<char>, b: Seq<char>, dev: u64, ino: u64)
    requires
        components(a) == components(b),
        dev < 0x8000_0000_0000_0000,
    ensures
        path_key(a) == path_key(b),
        path_key(a) != dev * 0x1_0000_0000_0000_0000 + ino,
{
}

/// Fallback key derived from the path, used only where device and inode are not
/// known. The high bit sets it apart from every real key of a device below 2^63.
pub fn path_hash_key(path: &str) -> (res: u128)
    ensures
        res == path_key(path@),
{
    let mut h = DefaultHasher::new();
    hash_path(path, &mut h);
    assert(h@ =~= path_writes(components(path@)));
    let n: u64 = h.finish();
    0x8000_0000_0000_0000_0000_0000_0000_0000u128 + (n as u128)
}

/// The key of an open file: from its device and inode where they could be read,
/// from its path otherwise.
pub fn ino_key_of(dev_ino: Option<(u64, u64)>, path: &str) -> (res: u128)
    ensures
        match dev_ino {
            Some((dev, ino)) => res == dev * 0x1_0000_0000_0000_0000 + ino,
            None => res == path_key(path@),
        },
{
    match dev_ino {
        Some((dev, ino)) => ino_key(dev, ino),
        None => path_hash_key(path),
    }
}

} // verus!
