//! The names and attributes of a mount: which paths the kernel's requests speak of, and
//! what their answers leave in the cache and in the table of inode numbers.

use vstd::prelude::*;

use crate::client::cache::{
    answer, entry_of, invalidated, law_invalidate_drops_path_and_parent, looked_up, remembers,
    unique_paths, CacheConfig, Entry, MetaCache,
};
use crate::client::errno::ENOENT;
use crate::client::fuse_ops::{
    cached_means, fuse_ttl_from_cache_ms, is_dir, is_file_attr, law_kinds_follow_the_type_bits,
    not_found_err, stat_answered, stat_cached, stat_to_file_attr, type_bits, FileAttr, StatNext,
};
use crate::client::inodes::{
    child, child_path, law_children_lie_below_their_directory, root_names, InodeTable, Names,
};
use crate::common::stat::Stat;
use crate::common::status::IoErrorKind;
use crate::path::{components, is_name, parent, parent_of};
use crate::text::{copy_of, has_text};
use crate::time::{Clock, Duration};

verus! {

/// What a mount knows of the server's files.
pub struct QuicFs {
    cache: MetaCache,
    inodes: InodeTable,
    fuse_ttl: Duration,
    uid_override: Option<u32>,
    gid_override: Option<u32>,
    /// The connection's generation that the cache belongs to.
    last_gen: u64,
}

/// The entry of a directory: the directory's path and its own.
pub open spec fn entry_path(names: Names, dir: u64, name: Seq<char>) -> Option<Seq<char>> {
    if names.paths.contains_key(dir) {
        Some(child(names.paths[dir], name))
    } else {
        None
    }
}

/// How long attributes are kept: those of a directory have a lifetime of their own.
pub open spec fn stat_ttl(cfg: CacheConfig, stat: Stat) -> nat {
    if type_bits(stat.mode) == 0x4 {
        cfg.dir_ttl.nanos()
    } else {
        cfg.pos_ttl.nanos()
    }
}

/// What a lookup of attributes answers.
pub open spec fn stat_result(answer: Result<Stat, Seq<char>>) -> Result<Stat, IoErrorKind> {
    match answer {
        Ok(s) => Ok(s),
        Err(msg) => if has_text(msg, "NotFound"@) {
            Err(IoErrorKind::NotFound)
        } else {
            Err(IoErrorKind::Other)
        },
    }
}

impl QuicFs {
    /// The cached attributes, the most recently used first.
    pub closed spec fn cached(&self) -> Seq<(Seq<char>, Entry)> {
        self.cache@
    }

    /// The most entries that the cache keeps.
    pub closed spec fn cap(&self) -> nat {
        self.cache.cap()
    }

    pub closed spec fn config(&self) -> CacheConfig {
        self.cache.config()
    }

    /// The clock that cached attributes expire by.
    pub closed spec fn clock(&self) -> Clock {
        self.cache.clock()
    }

    /// The inode numbers.
    pub closed spec fn names(&self) -> Names {
        self.inodes@
    }

    /// The owner that every file is shown with.
    pub closed spec fn owner(&self) -> (Option<u32>, Option<u32>) {
        (self.uid_override, self.gid_override)
    }

    pub closed spec fn gen(&self) -> u64 {
        self.last_gen
    }

    pub closed spec fn wf(&self) -> bool {
        &&& self.cache.wf()
        &&& self.inodes@.wf()
        &&& self.fuse_ttl.nanos() == 0
    }

    /// What no request changes.
    pub open spec fn same_setup(&self, other: &QuicFs) -> bool {
        &&& self.cap() == other.cap()
        &&& self.config() == other.config()
        &&& self.clock() == other.clock()
        &&& self.owner() == other.owner()
    }

    /// Nothing but the cache differs.
    pub open spec fn same_but_cache(&self, other: &QuicFs) -> bool {
        &&& self.same_setup(other)
        &&& self.names() == other.names()
        &&& self.gen() == other.gen()
    }

    /// A mount of `remote_root`, over a connection of generation `gen`.
    pub fn new(
        cache_cfg: CacheConfig,
        uid_override: Option<u32>,
        gid_override: Option<u32>,
        remote_root: &str,
        gen: u64,
    ) -> (res: Self)
        requires
            cache_cfg.max_entries <= 0x400_0000,
        ensures
            res.wf(),
            res.cached() == Seq::<(Seq<char>, Entry)>::empty(),
            res.cap() == (if cache_cfg.max_entries == 0 {
                8192
            } else {
                cache_cfg.max_entries as int
            }),
            res.config() == cache_cfg,
            res.clock().is_started(),
            res.names() == root_names(remote_root@),
            res.owner() == (uid_override, gid_override),
            res.gen() == gen,
    {
        let fuse_ttl = fuse_ttl_from_cache_ms(cache_cfg.pos_ttl.as_millis() as u64);
        QuicFs {
            cache: MetaCache::new(cache_cfg),
            inodes: InodeTable::new(remote_root),
            fuse_ttl,
            uid_override,
            gid_override,
            last_gen: gen,
        }
    }

    /// How long the kernel may keep attributes.
    pub fn ttl(&self) -> (res: Duration)
        requires
            self.wf(),
        ensures
            res.nanos() == 0,
    {
        self.fuse_ttl
    }

    // ── paths ────────────────────────────────────────────────────────────────
    /// The path of an inode number.
    pub fn path_for(&self, ino: u64) -> (res: Option<String>)
        ensures
            match res {
                Some(p) => self.names().paths.contains_key(ino) && p@ == self.names().paths[ino],
                None => !self.names().paths.contains_key(ino),
            },
    {
        match self.inodes.path_of(ino) {
            Some(p) => Some(copy_of(p)),
            None => None,
        }
    }

    /// The path of an entry of a directory; `ENOENT` where the directory is not known.
    pub fn child_of(&self, dir: u64, name: &str) -> (res: Result<String, i32>)
        ensures
            match res {
                Ok(p) => entry_path(self.names(), dir, name@) == Some(p@),
                Err(e) => entry_path(self.names(), dir, name@) is None && e == ENOENT,
            },
    {
        match self.inodes.path_of(dir) {
            Some(p) => Ok(child_path(p, name)),
            None => Err(ENOENT),
        }
    }

    /// The path that a question about the whole file system is asked with.
    pub fn statfs_path(&self, ino: u64) -> (res: String)
        ensures
            res@ == (if self.names().paths.contains_key(ino) {
                self.names().paths[ino]
            } else {
                seq!['/']
            }),
    {
        match self.inodes.path_of(ino) {
            Some(p) => copy_of(p),
            None => {
                let mut root = String::new();
                root.push('/');
                assert(root@ =~= seq!['/']);
                root
            },
        }
    }

    /// A new path can still get a number.
    pub fn can_number(&self) -> (res: bool)
        ensures
            res == (self.names().next < u64::MAX),
    {
        self.inodes.can_alloc()
    }

    /// The inode number of a path.
    pub fn number_of(&mut self, path: String) -> (res: u64)
        requires
            old(self).wf(),
            old(self).names().next < u64::MAX,
        ensures
            final(self).wf(),
            final(self).same_setup(old(self)),
            final(self).gen() == old(self).gen(),
            final(self).cached() == old(self).cached(),
            final(self).names() == old(self).names().numbered(path@),
            res == old(self).names().number_of(path@),
    {
        self.inodes.get_or_alloc(path)
    }

    /// The attributes of a path as the kernel is told, under its inode number.
    pub fn make_file_attr(&mut self, path: String, stat: &Stat) -> (res: FileAttr)
        requires
            old(self).wf(),
            old(self).names().next < u64::MAX,
        ensures
            final(self).wf(),
            final(self).same_setup(old(self)),
            final(self).gen() == old(self).gen(),
            final(self).cached() == old(self).cached(),
            final(self).names() == old(self).names().numbered(path@),
            is_file_attr(
                res,
                *stat,
                old(self).names().number_of(path@),
                old(self).owner().0,
                old(self).owner().1,
            ),
    {
        let ino: u64 = self.inodes.get_or_alloc(path);
        stat_to_file_attr(stat, ino, self.uid_override, self.gid_override)
    }

    // ── the cache ────────────────────────────────────────────────────────────
    fn cache_stat(&mut self, path: &str, stat: &Stat)
        requires
            old(self).wf(),
        ensures
            final(self).wf(),
            final(self).same_but_cache(old(self)),
            remembers(
                old(self).clock(),
                old(self).cached(),
                final(self).cached(),
                old(self).cap(),
                path@,
                Some(*stat),
                stat_ttl(old(self).config(), *stat),
            ),
    {
        let dir = is_dir(stat);
        self.cache.insert(copy_of(path), *stat, dir);
    }

    /// A path or an entry of it changes: what the cache says of it, and of the directory
    /// that holds it, goes.
    pub fn invalidate_cache(&mut self, path: &str)
        requires
            old(self).wf(),
        ensures
            final(self).wf(),
            final(self).same_but_cache(old(self)),
            final(self).cached() == invalidated(old(self).cached(), path@),
            entry_of(final(self).cached(), path@) is None,
    {
        proof {
            law_invalidate_drops_path_and_parent(self.cache@, path@, path@);
        }
        self.cache.invalidate(path);
    }

    /// The connection is of generation `gen`: the cache of another one is emptied.
    pub fn check_reconnect(&mut self, gen: u64)
        requires
            old(self).wf(),
        ensures
            final(self).wf(),
            final(self).same_setup(old(self)),
            final(self).names() == old(self).names(),
            final(self).gen() == gen,
            final(self).cached() == (if gen != old(self).gen() {
                Seq::<(Seq<char>, Entry)>::empty()
            } else {
                old(self).cached()
            }),
    {
        if gen != self.last_gen {
            self.cache.clear();
            self.last_gen = gen;
        }
    }

    // ── attributes ───────────────────────────────────────────────────────────
    /// Look attributes up: in the cache, where it can tell.
    pub fn stat_begin(&mut self, path: &str) -> (res: StatNext)
        requires
            old(self).wf(),
        ensures
            final(self).wf(),
            final(self).same_but_cache(old(self)),
            exists|now: Duration|
                {
                    &&& #[trigger] old(self).clock().may_read(now)
                    &&& final(self).cached() == looked_up(old(self).cached(), path@, now.nanos())
                    &&& res == cached_means(
                        answer(entry_of(old(self).cached(), path@), now.nanos()),
                    )
                },
    {
        let ghost before = self.cache@;
        let ghost clock = self.cache.clock();
        let known = self.cache.get(path);
        proof {
            let now = choose|now: Duration|
                #[trigger] clock.may_read(now) && known == answer(
                    entry_of(before, path@),
                    now.nanos(),
                ) && self.cache@ == looked_up(before, path@, now.nanos());
            assert(old(self).clock().may_read(now));
        }
        stat_cached(known)
    }

    /// The server answered: attributes, or the message of a failure. `flushed` says that
    /// every buffered write had reached it before; otherwise the size that it tells is
    /// too small and not worth keeping. That a path does not exist is kept.
    pub fn stat_done(&mut self, path: &str, flushed: bool, answer: Result<Stat, &str>) -> (res:
        Result<Stat, IoErrorKind>)
        requires
            old(self).wf(),
        ensures
            final(self).wf(),
            final(self).same_but_cache(old(self)),
            match answer {
                Ok(s) => {
                    &&& res == Ok::<Stat, IoErrorKind>(s)
                    &&& if flushed {
                        remembers(
                            old(self).clock(),
                            old(self).cached(),
                            final(self).cached(),
                            old(self).cap(),
                            path@,
                            Some(s),
                            stat_ttl(old(self).config(), s),
                        )
                    } else {
                        final(self).cached() == old(self).cached()
                    }
                },
                Err(msg) => {
                    &&& res == stat_result(Err(msg@))
                    &&& if has_text(msg@, "NotFound"@) {
                        remembers(
                            old(self).clock(),
                            old(self).cached(),
                            final(self).cached(),
                            old(self).cap(),
                            path@,
                            None,
                            old(self).config().neg_ttl.nanos(),
                        )
                    } else {
                        final(self).cached() == old(self).cached()
                    }
                },
            },
    {
        match stat_answered(flushed, answer) {
            StatNext::FoundAndCache(s) => {
                self.cache_stat(path, &s);
                Ok(s)
            },
            StatNext::Found(s) => Ok(s),
            StatNext::MissingAndCache => {
                self.cache.insert_negative(copy_of(path));
                Err(not_found_err())
            },
            _ => Err(IoErrorKind::Other),
        }
    }

    /// Attributes were changed: what was cached goes.
    pub fn setattr_done(&mut self, path: String, stat: &Stat) -> (res: FileAttr)
        requires
            old(self).wf(),
            old(self).names().next < u64::MAX,
        ensures
            final(self).wf(),
            final(self).same_setup(old(self)),
            final(self).gen() == old(self).gen(),
            final(self).cached() == invalidated(old(self).cached(), path@),
            entry_of(final(self).cached(), path@) is None,
            final(self).names() == old(self).names().numbered(path@),
            is_file_attr(
                res,
                *stat,
                old(self).names().number_of(path@),
                old(self).owner().0,
                old(self).owner().1,
            ),
    {
        self.invalidate_cache(path.as_str());
        self.make_file_attr(path, stat)
    }

    /// The bytes of a file are about to change: what is cached of it goes.
    pub fn writing(&mut self, ino: u64)
        requires
            old(self).wf(),
        ensures
            final(self).wf(),
            final(self).same_but_cache(old(self)),
            if old(self).names().paths.contains_key(ino) {
                &&& final(self).cached() == invalidated(
                    old(self).cached(),
                    old(self).names().paths[ino],
                )
                &&& entry_of(final(self).cached(), old(self).names().paths[ino]) is None
            } else {
                final(self).cached() == old(self).cached()
            },
    {
        if let Some(path) = self.path_for(ino) {
            self.invalidate_cache(path.as_str());
        }
    }

    // ── new entries ──────────────────────────────────────────────────────────
    /// A directory is to be made: its path. What is cached of the directory that will
    /// hold it goes.
    pub fn mkdir_begin(&mut self, dir: u64, name: &str) -> (res: Result<String, i32>)
        requires
            old(self).wf(),
        ensures
            final(self).wf(),
            final(self).same_but_cache(old(self)),
            match res {
                Ok(p) => {
                    &&& entry_path(old(self).names(), dir, name@) == Some(p@)
                    &&& final(self).cached() == invalidated(
                        old(self).cached(),
                        old(self).names().paths[dir],
                    )
                },
                Err(e) => {
                    &&& entry_path(old(self).names(), dir, name@) is None
                    &&& e == ENOENT
                    &&& final(self).cached() == old(self).cached()
                },
            },
    {
        let path = match self.path_for(dir) {
            Some(p) => p,
            None => {
                return Err(ENOENT);
            },
        };
        self.invalidate_cache(path.as_str());
        Ok(child_path(path.as_str(), name))
    }

    /// A file is to be created at `path`: what is cached of it, and of the directory
    /// `dir` that will hold it, goes.
    pub fn creating(&mut self, dir: u64, path: &str)
        requires
            old(self).wf(),
        ensures
            final(self).wf(),
            final(self).same_but_cache(old(self)),
            final(self).cached() == (if old(self).names().paths.contains_key(dir) {
                invalidated(
                    invalidated(old(self).cached(), old(self).names().paths[dir]),
                    path@,
                )
            } else {
                invalidated(old(self).cached(), path@)
            }),
            entry_of(final(self).cached(), path@) is None,
    {
        self.writing(dir);
        self.invalidate_cache(path);
    }

    /// A directory, link or file was made: its attributes are cached.
    pub fn made(&mut self, path: String, stat: &Stat) -> (res: FileAttr)
        requires
            old(self).wf(),
            old(self).names().next < u64::MAX,
        ensures
            final(self).wf(),
            final(self).same_setup(old(self)),
            final(self).gen() == old(self).gen(),
            remembers(
                old(self).clock(),
                old(self).cached(),
                final(self).cached(),
                old(self).cap(),
                path@,
                Some(*stat),
                stat_ttl(old(self).config(), *stat),
            ),
            final(self).names() == old(self).names().numbered(path@),
            is_file_attr(
                res,
                *stat,
                old(self).names().number_of(path@),
                old(self).owner().0,
                old(self).owner().1,
            ),
    {
        self.cache_stat(path.as_str(), stat);
        self.make_file_attr(path, stat)
    }

    // ── entries that go ──────────────────────────────────────────────────────
    /// A file or directory is to be removed: its path. What is cached of it goes.
    pub fn remove_begin(&mut self, dir: u64, name: &str) -> (res: Result<String, i32>)
        requires
            old(self).wf(),
        ensures
            final(self).wf(),
            final(self).same_but_cache(old(self)),
            match res {
                Ok(p) => {
                    &&& entry_path(old(self).names(), dir, name@) == Some(p@)
                    &&& final(self).cached() == invalidated(old(self).cached(), p@)
                    &&& entry_of(final(self).cached(), p@) is None
                },
                Err(e) => {
                    &&& entry_path(old(self).names(), dir, name@) is None
                    &&& e == ENOENT
                    &&& final(self).cached() == old(self).cached()
                },
            },
    {
        match self.child_of(dir, name) {
            Ok(p) => {
                self.invalidate_cache(p.as_str());
                Ok(p)
            },
            Err(e) => Err(e),
        }
    }

    /// A file or directory was removed: its number stands for nothing.
    pub fn removed(&mut self, path: &str)
        requires
            old(self).wf(),
        ensures
            final(self).wf(),
            final(self).same_setup(old(self)),
            final(self).gen() == old(self).gen(),
            final(self).cached() == old(self).cached(),
            final(self).names() == old(self).names().forgotten(path@),
    {
        self.inodes.remove_path(path);
    }

    // ── renames and links ────────────────────────────────────────────────────
    /// The paths of a rename.
    pub fn rename_begin(&self, dir: u64, name: &str, new_dir: u64, new_name: &str) -> (res: Result<
        (String, String),
        i32,
    >)
        ensures
            match res {
                Ok((from, to)) => {
                    &&& entry_path(self.names(), dir, name@) == Some(from@)
                    &&& entry_path(self.names(), new_dir, new_name@) == Some(to@)
                },
                Err(e) => {
                    &&& e == ENOENT
                    &&& entry_path(self.names(), dir, name@) is None || entry_path(
                        self.names(),
                        new_dir,
                        new_name@,
                    ) is None
                },
            },
    {
        let from = match self.child_of(dir, name) {
            Ok(p) => p,
            Err(e) => {
                return Err(e);
            },
        };
        match self.child_of(new_dir, new_name) {
            Ok(to) => Ok((from, to)),
            Err(e) => Err(e),
        }
    }

    /// A file was renamed: what is cached of both paths and their directories goes, and
    /// its number stands for the new path.
    pub fn renamed(&mut self, from: &str, to: String)
        requires
            old(self).wf(),
        ensures
            final(self).wf(),
            final(self).same_setup(old(self)),
            final(self).gen() == old(self).gen(),
            ({
                let both = invalidated(invalidated(old(self).cached(), from@), to@);
                final(self).cached() == (match parent(to@) {
                    Some(p) => invalidated(both, p),
                    None => both,
                })
            }),
            entry_of(final(self).cached(), from@) is None,
            entry_of(final(self).cached(), to@) is None,
            final(self).names() == old(self).names().renamed(from@, to@),
    {
        self.invalidate_cache(from);
        let ghost first = self.cached();
        proof {
            lemma_stays_out(first, from@, to@);
        }
        self.invalidate_cache(to.as_str());
        let ghost both = self.cached();
        if let Some(p) = parent_of(to.as_str()) {
            proof {
                lemma_stays_out(both, from@, p@);
                lemma_stays_out(both, to@, p@);
            }
            self.invalidate_cache(p.as_str());
        }
        self.inodes.rename_ino(from, to);
    }

    /// The paths of a link: the file `ino` and the new entry.
    pub fn link_begin(&self, ino: u64, new_dir: u64, new_name: &str) -> (res: Result<
        (String, String),
        i32,
    >)
        ensures
            match res {
                Ok((source, link)) => {
                    &&& self.names().paths.contains_key(ino)
                    &&& source@ == self.names().paths[ino]
                    &&& entry_path(self.names(), new_dir, new_name@) == Some(link@)
                },
                Err(e) => {
                    &&& e == ENOENT
                    &&& !self.names().paths.contains_key(ino) || entry_path(
                        self.names(),
                        new_dir,
                        new_name@,
                    ) is None
                },
            },
    {
        let source = match self.path_for(ino) {
            Some(p) => p,
            None => {
                return Err(ENOENT);
            },
        };
        match self.child_of(new_dir, new_name) {
            Ok(link) => Ok((source, link)),
            Err(e) => Err(e),
        }
    }

    /// A link was made: both names have its attributes, and what was cached of them
    /// before, or of the directories that hold them, goes.
    pub fn linked(&mut self, source: &str, link: String, stat: &Stat) -> (res: FileAttr)
        requires
            old(self).wf(),
            old(self).names().next < u64::MAX,
        ensures
            final(self).wf(),
            final(self).same_setup(old(self)),
            final(self).gen() == old(self).gen(),
            exists|mid: Seq<(Seq<char>, Entry)>|
                {
                    &&& #[trigger] remembers(
                        old(self).clock(),
                        invalidated(old(self).cached(), source@),
                        mid,
                        old(self).cap(),
                        source@,
                        Some(*stat),
                        stat_ttl(old(self).config(), *stat),
                    )
                    &&& remembers(
                        old(self).clock(),
                        invalidated(mid, link@),
                        final(self).cached(),
                        old(self).cap(),
                        link@,
                        Some(*stat),
                        stat_ttl(old(self).config(), *stat),
                    )
                },
            final(self).names() == old(self).names().numbered(link@),
            is_file_attr(
                res,
                *stat,
                old(self).names().number_of(link@),
                old(self).owner().0,
                old(self).owner().1,
            ),
    {
        self.invalidate_cache(source);
        self.cache_stat(source, stat);
        let ghost mid = self.cached();
        self.invalidate_cache(link.as_str());
        self.cache_stat(link.as_str(), stat);
        proof {
            assert(remembers(
                old(self).clock(),
                invalidated(old(self).cached(), source@),
                mid,
                old(self).cap(),
                source@,
                Some(*stat),
                stat_ttl(old(self).config(), *stat),
            ));
        }
        self.make_file_attr(link, stat)
    }
}

/// A path that is not cached is not cached after an invalidation either.
proof fn lemma_stays_out(s: Seq<(Seq<char>, Entry)>, path: Seq<char>, other: Seq<char>)
    requires
        unique_paths(s),
        entry_of(s, path) is None,
    ensures
        entry_of(invalidated(s, other), path) is None,
{
    law_invalidate_drops_path_and_parent(s, other, path);
}

/// Attributes of a directory are kept for the lifetime that directories have, those of
/// anything else for that of files.
pub proof fn law_directories_have_their_own_lifetime(cfg: CacheConfig, stat: Stat)
    ensures
        stat.mode & 0o170000 == 0o040000 ==> stat_ttl(cfg, stat) == cfg.dir_ttl.nanos(),
        stat.mode & 0o170000 != 0o040000 ==> stat_ttl(cfg, stat) == cfg.pos_ttl.nanos(),
{
    law_kinds_follow_the_type_bits(stat.mode);
}

/// A lookup tells a path that does not exist from any other failure.
pub proof fn law_missing_paths_are_told_apart(answer: Result<Stat, Seq<char>>)
    ensures
        stat_result(answer) is Ok <==> answer is Ok,
        answer matches Ok(s) ==> stat_result(answer) == Ok::<Stat, IoErrorKind>(s),
        answer matches Err(msg) ==> (stat_result(answer) == Err::<Stat, IoErrorKind>(
            IoErrorKind::NotFound,
        ) <==> has_text(msg, "NotFound"@)),
{
}

/// An entry is looked for right below its directory, and nowhere where that is not known.
pub proof fn law_entries_are_looked_for_in_their_directory(
    names: Names,
    dir: u64,
    name: Seq<char>,
)
    requires
        is_name(name),
    ensures
        entry_path(names, dir, name) is Some <==> names.paths.contains_key(dir),
        entry_path(names, dir, name) matches Some(p) ==> components(p) == components(
            names.paths[dir],
        ).push(name),
{
    if names.paths.contains_key(dir) {
        law_children_lie_below_their_directory(names.paths[dir], name);
    }
}

/// Where nothing but the cache differs, the inode numbers, the connection's generation and
/// the setup are the same.
pub proof fn law_same_but_the_cache(a: QuicFs, b: QuicFs)
    requires
        a.same_but_cache(&b),
    ensures
        a.names() == b.names(),
        a.gen() == b.gen(),
        a.config() == b.config(),
        a.cap() == b.cap(),
        a.clock() == b.clock(),
        a.owner() == b.owner(),
{
}

} // verus!
