//! Inode numbers of a mount and the remote paths they stand for.
//!
//! An entry stays until its path is removed or renamed: the kernel forgets numbers
//! far too eagerly to follow it. Two spellings of one path share a number.

use std::collections::HashMap;

use vstd::hash_map::StringHashMap;
use vstd::prelude::*;

use crate::path::{
    canonical, canonical_path, components, is_name, join, join_path,
    law_canonical_decides_sameness, law_join_adds_component, law_strip_tail_keeps_components,
    same_path,
};
use crate::text::{chars_of, copy_of, string_of, trim, trim_chars};

verus! {

broadcast use vstd::std_specs::hash::group_hash_axioms;

/// The inode number of the mount's root.
pub const ROOT_INO: u64 = 1;

/// The text without the slashes at its end.
pub open spec fn strip_slashes(s: Seq<char>) -> Seq<char>
    decreases s.len(),
{
    if s.len() > 0 && s.last() == '/' {
        strip_slashes(s.drop_last())
    } else {
        s
    }
}

/// A remote root in its normal form: trimmed, with a leading slash, and without a
/// trailing one except for the bare root.
pub open spec fn normal_root(root: Seq<char>) -> Seq<char> {
    let t = trim(root);
    let lead = if t.len() > 0 && t[0] == '/' {
        t
    } else {
        seq!['/'] + t
    };
    if strip_slashes(lead).len() == 0 {
        seq!['/']
    } else {
        strip_slashes(lead)
    }
}

/// A normal root starts with a slash and ends with one only where it is the bare root.
pub proof fn law_normal_root(root: Seq<char>)
    ensures
        normal_root(root).len() > 0,
        normal_root(root)[0] == '/',
        normal_root(root).last() == '/' ==> normal_root(root) == seq!['/'],
{
    let t = trim(root);
    let lead = if t.len() > 0 && t[0] == '/' {
        t
    } else {
        seq!['/'] + t
    };
    lemma_strip_slashes(lead);
}

pub proof fn lemma_strip_slashes(s: Seq<char>)
    ensures
        strip_slashes(s).len() <= s.len(),
        strip_slashes(s) == s.take(strip_slashes(s).len() as int),
        strip_slashes(s).len() > 0 ==> strip_slashes(s).last() != '/',
    decreases s.len(),
{
    if s.len() > 0 && s.last() == '/' {
        lemma_strip_slashes(s.drop_last());
        let n = strip_slashes(s).len() as int;
        assert(s.drop_last().take(n) =~= s.take(n));
    } else {
        assert(s.take(s.len() as int) =~= s);
    }
}

/// The characters without the slashes at their end.
pub fn without_slashes(s: Vec<char>) -> (res: Vec<char>)
    ensures
        res@ == strip_slashes(s@),
{
    let mut v = s;
    while v.len() > 0 && v[v.len() - 1] == '/'
        invariant
            strip_slashes(v@) == strip_slashes(s@),
        decreases v.len(),
    {
        let ghost before = v@;
        v.pop();
        assert(v@ =~= before.drop_last());
    }
    v
}

/// Normalize a remote root.
pub fn normalize_root(root: &str) -> (res: String)
    ensures
        res@ == normal_root(root@),
{
    let t = trim_chars(&chars_of(root));
    let mut lead: Vec<char> = Vec::new();
    if !(t.len() > 0 && t[0] == '/') {
        lead.push('/');
    }
    let ghost head = lead@;
    let mut rest = t;
    lead.append(&mut rest);
    proof {
        if t@.len() > 0 && t@[0] == '/' {
            assert(lead@ =~= t@);
        } else {
            assert(lead@ =~= seq!['/'] + t@);
        }
    }
    let lead = without_slashes(lead);
    if lead.len() == 0 {
        let mut root = String::new();
        root.push('/');
        assert(root@ =~= seq!['/']);
        return root;
    }
    string_of(lead.as_slice())
}

/// The path of an entry of a directory.
pub open spec fn child(parent: Seq<char>, name: Seq<char>) -> Seq<char> {
    if components(parent) == components(seq!['/']) {
        seq!['/'] + name
    } else {
        join(parent, name)
    }
}

pub fn child_path(parent: &str, name: &str) -> (res: String)
    ensures
        res@ == child(parent@, name@),
{
    let mut root = String::new();
    root.push('/');
    assert(root@ =~= seq!['/']);
    if same_path(parent, root.as_str()) {
        root.append(name);
        root
    } else {
        join_path(parent, name)
    }
}

/// Inode numbers and paths: the path of each number, the number of each path by its
/// shortest spelling, and the number that the next new path gets.
pub struct Names {
    pub paths: Map<u64, Seq<char>>,
    pub numbers: Map<Seq<char>, u64>,
    pub next: u64,
}

impl Names {
    /// Every path's number leads back to it, and the next number is unused.
    pub open spec fn wf(self) -> bool {
        &&& forall|p: Seq<char>| #[trigger]
            self.numbers.contains_key(p) ==> self.paths.contains_key(self.numbers[p])
                && canonical(self.paths[self.numbers[p]]) == p
        &&& forall|n: u64| #[trigger] self.paths.contains_key(n) ==> n < self.next
    }

    /// The number of a path: its own, or the next one.
    pub open spec fn number_of(self, path: Seq<char>) -> u64 {
        if self.numbers.contains_key(canonical(path)) {
            self.numbers[canonical(path)]
        } else {
            self.next
        }
    }

    /// After a number was asked for.
    pub open spec fn numbered(self, path: Seq<char>) -> Names {
        if self.numbers.contains_key(canonical(path)) {
            self
        } else {
            Names {
                paths: self.paths.insert(self.next, path),
                numbers: self.numbers.insert(canonical(path), self.next),
                next: (self.next + 1) as u64,
            }
        }
    }

    /// After a path was removed.
    pub open spec fn forgotten(self, path: Seq<char>) -> Names {
        if self.numbers.contains_key(canonical(path)) {
            Names {
                paths: self.paths.remove(self.numbers[canonical(path)]),
                numbers: self.numbers.remove(canonical(path)),
                next: self.next,
            }
        } else {
            self
        }
    }

    /// After a path was renamed: its number stands for the new one.
    pub open spec fn renamed(self, from: Seq<char>, to: Seq<char>) -> Names {
        if self.numbers.contains_key(canonical(from)) {
            let ino = self.numbers[canonical(from)];
            Names {
                paths: self.paths.insert(ino, to),
                numbers: self.numbers.remove(canonical(from)).insert(canonical(to), ino),
                next: self.next,
            }
        } else {
            self
        }
    }

    /// No two paths share a number.
    pub proof fn law_numbers_are_distinct(self, p: Seq<char>, q: Seq<char>)
        requires
            self.wf(),
            self.numbers.contains_key(canonical(p)),
            self.numbers.contains_key(canonical(q)),
            self.number_of(p) == self.number_of(q),
        ensures
            components(p) == components(q),
    {
        law_canonical_decides_sameness(p, q);
    }

    /// A path keeps its number, and the number its path, however many other paths get
    /// one.
    pub proof fn law_numbers_are_stable(self, p: Seq<char>, q: Seq<char>)
        requires
            self.wf(),
            self.next < u64::MAX,
        ensures
            self.numbered(p).wf(),
            self.numbered(p).numbered(q).number_of(p) == self.number_of(p),
            self.numbered(p).paths.contains_key(self.number_of(p)),
            components(self.numbered(p).paths[self.number_of(p)]) == components(p),
            self.numbered(p).paths[self.number_of(p)] == self.numbered(p).numbered(
                q,
            ).paths[self.number_of(p)],
    {
        if self.numbers.contains_key(canonical(p)) {
            law_canonical_decides_sameness(self.paths[self.number_of(p)], p);
        }
    }

    /// A renamed file is found under its new path by its old number, and its old path
    /// has no number.
    pub proof fn law_rename_keeps_the_number(self, from: Seq<char>, to: Seq<char>)
        requires
            self.wf(),
            self.numbers.contains_key(canonical(from)),
        ensures
            self.renamed(from, to).wf(),
            self.renamed(from, to).number_of(to) == self.number_of(from),
            self.renamed(from, to).paths[self.number_of(from)] == to,
            components(from) != components(to) ==> !self.renamed(
                from,
                to,
            ).numbers.contains_key(canonical(from)),
    {
        law_canonical_decides_sameness(from, to);
    }

    /// Numbering, removing or renaming other paths leaves a path and its number alone.
    pub proof fn law_other_paths_are_left_alone(
        self,
        a: Seq<char>,
        b: Seq<char>,
        p: Seq<char>,
    )
        requires
            self.wf(),
            self.next < u64::MAX,
            self.numbers.contains_key(canonical(p)),
            components(a) != components(p),
            components(b) != components(p),
        ensures
            ({
                let n = self.number_of(p);
                &&& self.numbered(a).number_of(p) == n
                &&& self.numbered(a).paths[n] == self.paths[n]
                &&& self.forgotten(a).number_of(p) == n
                &&& self.forgotten(a).paths.contains_key(n)
                &&& self.forgotten(a).paths[n] == self.paths[n]
                &&& self.renamed(a, b).number_of(p) == n
                &&& self.renamed(a, b).paths.contains_key(n)
                &&& self.renamed(a, b).paths[n] == self.paths[n]
            }),
    {
        law_canonical_decides_sameness(a, p);
        law_canonical_decides_sameness(b, p);
        if self.numbers.contains_key(canonical(a)) && self.number_of(a) == self.number_of(p) {
            self.law_numbers_are_distinct(a, p);
        }
    }

    /// A path that had no number gets one that no path ever had.
    pub proof fn law_new_numbers_are_fresh(self, p: Seq<char>)
        requires
            self.wf(),
            self.next < u64::MAX,
            !self.numbers.contains_key(canonical(p)),
        ensures
            !self.paths.contains_key(self.number_of(p)),
            self.numbered(p).next == self.next + 1,
            self.numbered(p).number_of(p) == self.number_of(p),
    {
    }

    /// A removed path's number stands for nothing.
    pub proof fn law_removed_number_is_unknown(self, path: Seq<char>)
        requires
            self.wf(),
            self.numbers.contains_key(canonical(path)),
        ensures
            self.forgotten(path).wf(),
            !self.forgotten(path).paths.contains_key(self.number_of(path)),
            !self.forgotten(path).numbers.contains_key(canonical(path)),
    {
    }
}

/// Bidirectional mapping between inode numbers and remote paths.
pub struct InodeTable {
    ino_to_path: HashMap<u64, String>,
    path_to_ino: StringHashMap<u64>,
    next: u64,
}

impl InodeTable {
    pub closed spec fn view(&self) -> Names {
        Names {
            paths: self.ino_to_path@.map_values(|p: String| p@),
            numbers: self.path_to_ino@,
            next: self.next,
        }
    }

    /// The table of a mount: its root has the root's number.
    pub fn new(root: &str) -> (res: Self)
        ensures
            res@.wf(),
            res@ == root_names(root@),
    {
        let root = normalize_root(root);
        let mut ino_to_path: HashMap<u64, String> = HashMap::new();
        let mut path_to_ino: StringHashMap<u64> = StringHashMap::new();
        ino_to_path.insert(ROOT_INO, copy_of(root.as_str()));
        path_to_ino.insert(canonical_path(root.as_str()), ROOT_INO);
        let t = InodeTable { ino_to_path, path_to_ino, next: ROOT_INO + 1 };
        assert(t@.paths =~= map![ROOT_INO => root@]);
        assert(t@.numbers =~= map![canonical(root@) => ROOT_INO]);
        t
    }

    /// A new path can still get a number.
    pub fn can_alloc(&self) -> (res: bool)
        ensures
            res == (self@.next < u64::MAX),
    {
        self.next < u64::MAX
    }

    /// The number of a path; a new one where it has none yet.
    pub fn get_or_alloc(&mut self, path: String) -> (res: u64)
        requires
            old(self)@.wf(),
            old(self)@.next < u64::MAX,
        ensures
            final(self)@.wf(),
            final(self)@ == old(self)@.numbered(path@),
            res == old(self)@.number_of(path@),
    {
        let key = canonical_path(path.as_str());
        if let Some(ino) = self.path_to_ino.get(key.as_str()) {
            return *ino;
        }
        let ghost before = self@;
        let ino: u64 = self.next;
        self.next = self.next + 1;
        self.ino_to_path.insert(ino, path);
        self.path_to_ino.insert(key, ino);
        proof {
            before.law_numbers_are_stable(path@, path@);
            assert(self@.paths =~= before.paths.insert(ino, path@));
        }
        ino
    }

    /// The path of a number.
    pub fn path_of(&self, ino: u64) -> (res: Option<&str>)
        ensures
            match res {
                Some(p) => self@.paths.contains_key(ino) && p@ == self@.paths[ino],
                None => !self@.paths.contains_key(ino),
            },
    {
        match self.ino_to_path.get(&ino) {
            Some(p) => Some(p.as_str()),
            None => None,
        }
    }

    /// Forget a path that no longer exists, and its number.
    pub fn remove_path(&mut self, path: &str)
        requires
            old(self)@.wf(),
        ensures
            final(self)@.wf(),
            final(self)@ == old(self)@.forgotten(path@),
    {
        let ghost before = self@;
        let key = canonical_path(path);
        let found: Option<u64> = match self.path_to_ino.get(key.as_str()) {
            Some(i) => Some(*i),
            None => None,
        };
        if let Some(ino) = found {
            self.path_to_ino.remove(key.as_str());
            self.ino_to_path.remove(&ino);
            proof {
                before.law_removed_number_is_unknown(path@);
                assert(self@.paths =~= before.paths.remove(ino));
            }
        }
    }

    /// A file was renamed: its number stands for the new path.
    pub fn rename_ino(&mut self, from: &str, to: String)
        requires
            old(self)@.wf(),
        ensures
            final(self)@.wf(),
            final(self)@ == old(self)@.renamed(from@, to@),
    {
        let ghost before = self@;
        let key = canonical_path(from);
        let found: Option<u64> = match self.path_to_ino.get(key.as_str()) {
            Some(i) => Some(*i),
            None => None,
        };
        if let Some(ino) = found {
            self.path_to_ino.remove(key.as_str());
            self.path_to_ino.insert(canonical_path(to.as_str()), ino);
            self.ino_to_path.insert(ino, to);
            proof {
                before.law_rename_keeps_the_number(from@, to@);
                assert(self@.paths =~= before.paths.insert(ino, to@));
            }
        }
    }
}

/// The numbers of a fresh mount.
pub open spec fn root_names(root: Seq<char>) -> Names {
    Names {
        paths: map![ROOT_INO => normal_root(root)],
        numbers: map![canonical(normal_root(root)) => ROOT_INO],
        next: 2,
    }
}

/// A slash at the end changes no component, as long as something stands before it.
proof fn lemma_drop_slash(s: Seq<char>)
    requires
        s.len() >= 2,
        s.last() == '/',
    ensures
        components(s.drop_last()) == components(s),
{
    law_strip_tail_keeps_components(s);
    law_strip_tail_keeps_components(s.drop_last());
}

/// Without the slashes at its end a path keeps its components; slashes alone are the root.
pub proof fn lemma_strip_slashes_components(s: Seq<char>)
    requires
        s.len() > 0,
    ensures
        strip_slashes(s).len() > 0 ==> components(strip_slashes(s)) == components(s),
        strip_slashes(s).len() == 0 ==> components(s) == components(seq!['/']),
    decreases s.len(),
{
    if s.last() == '/' {
        if s.len() == 1 {
            assert(s =~= seq!['/']);
            assert(strip_slashes(s.drop_last()).len() == 0);
        } else {
            lemma_drop_slash(s);
            lemma_strip_slashes_components(s.drop_last());
        }
    }
}

/// The normal form of a root names the same directory, from the root down.
pub proof fn law_normal_root_names_the_same_directory(root: Seq<char>)
    ensures
        ({
            let t = trim(root);
            if t.len() > 0 && t[0] == '/' {
                components(normal_root(root)) == components(t)
            } else {
                components(normal_root(root)) == components(seq!['/'] + t)
            }
        }),
{
    let t = trim(root);
    let lead = if t.len() > 0 && t[0] == '/' {
        t
    } else {
        seq!['/'] + t
    };
    lemma_strip_slashes_components(lead);
}

/// An entry of a directory lies right below it, under its own name.
pub proof fn law_children_lie_below_their_directory(dir: Seq<char>, name: Seq<char>)
    requires
        is_name(name),
    ensures
        components(child(dir, name)) == components(dir).push(name),
{
    let top = seq!['/'];
    assert(name.contains(name[0]));
    assert(top + name =~= join(top, name));
    law_join_adds_component(top, name);
    law_join_adds_component(dir, name);
}

/// A fresh mount knows its root alone, under the number 1, and goes on with 2.
pub proof fn law_mounts_start_at_their_root(root: Seq<char>)
    ensures
        root_names(root).paths.dom() =~= set![1u64],
        root_names(root).paths[1u64] == normal_root(root),
        root_names(root).number_of(normal_root(root)) == 1,
        root_names(root).next == 2,
{
}

} // verus!
