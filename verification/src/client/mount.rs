//! Options of a mount, and reading the host's table of mounts.

use vstd::prelude::*;

use crate::client::cache::CacheConfig;
use crate::client::writeback::WriteBufConfig;
use crate::common::trust::is_word;
use crate::text::{
    chars_of, is_char, law_words_are_split_at_blanks, lemma_split_concat, lemma_split_single,
    pieces, same_chars, split_chars, split_on, words, words_of,
};
use crate::time::Duration;

verus! {

/// Options of a mount.
#[derive(Debug, Clone)]
pub struct FuseOptions {
    pub allow_other: bool,
    pub readonly: bool,
    pub cache_ttl_ms: u64,
    /// Show every file as owned by this user.
    pub uid_override: Option<u32>,
    /// Show every file as owned by this group.
    pub gid_override: Option<u32>,
    /// Bytes buffered per file before a flush is asked for.
    pub write_buf_per_handle: usize,
    /// Bytes buffered over all files before a flush is asked for.
    pub write_buf_total: usize,
    /// Coalesce window in milliseconds.
    pub coalesce_ms: u64,
    /// Remote subtree that the mount shows.
    pub remote_root: String,
}

/// Most bytes buffered over all files before a flush is asked for: 64 MiB.
pub const MAX_WRITE_BUF_TOTAL: usize = 64 * 1024 * 1024;

/// Eight times the bytes of one file, up to the maximum.
pub fn write_buf_total(write_buf: usize) -> (res: usize)
    ensures
        res == (if write_buf * 8 < MAX_WRITE_BUF_TOTAL {
            write_buf * 8
        } else {
            MAX_WRITE_BUF_TOTAL as int
        }),
{
    if write_buf < MAX_WRITE_BUF_TOTAL / 8 {
        write_buf * 8
    } else {
        MAX_WRITE_BUF_TOTAL
    }
}

/// The cache of a mount: a missing path is remembered a quarter as long as a file, and
/// a directory half as long.
pub fn cache_config(opts: &FuseOptions) -> (res: CacheConfig)
    ensures
        res.max_entries == 8192,
        res.pos_ttl.nanos() == opts.cache_ttl_ms * 1_000_000,
        res.neg_ttl.nanos() == opts.cache_ttl_ms / 4 * 1_000_000,
        res.dir_ttl.nanos() == opts.cache_ttl_ms / 2 * 1_000_000,
{
    CacheConfig {
        max_entries: 8192,
        pos_ttl: Duration::from_millis(opts.cache_ttl_ms),
        neg_ttl: Duration::from_millis(opts.cache_ttl_ms / 4),
        dir_ttl: Duration::from_millis(opts.cache_ttl_ms / 2),
    }
}

/// The write buffer of a mount.
pub fn write_buf_config(opts: &FuseOptions) -> (res: WriteBufConfig)
    ensures
        res.max_per_handle_bytes == opts.write_buf_per_handle,
        res.max_total_bytes == opts.write_buf_total,
        res.window_ms == opts.coalesce_ms,
{
    WriteBufConfig {
        max_per_handle_bytes: opts.write_buf_per_handle,
        max_total_bytes: opts.write_buf_total,
        window_ms: opts.coalesce_ms,
    }
}

/// How often the background flush looks for expired bytes: about twice per window, and
/// never without a pause.
pub fn flush_tick(coalesce_ms: u64) -> (res: Duration)
    ensures
        res.nanos() == (if coalesce_ms < 1 {
            1
        } else {
            coalesce_ms / 2 + 1
        }) * 1_000_000,
        res.nanos() > 0,
{
    let ms: u64 = if coalesce_ms < 1 {
        1
    } else {
        coalesce_ms
    };
    Duration::from_millis(ms / 2 + 1)
}

/// A line of the table of mounts names this mountpoint: it is the second word.
pub open spec fn names_mount(line: Seq<char>, mountpoint: Seq<char>) -> bool {
    words(line).len() >= 2 && words(line)[1] == mountpoint
}

/// Some line of the table names the mountpoint.
pub open spec fn mounted(table: Seq<char>, mountpoint: Seq<char>) -> bool {
    exists|i: int|
        0 <= i < split_on(table, '\n').len() && names_mount(
            #[trigger] split_on(table, '\n')[i],
            mountpoint,
        )
}

/// The table of mounts names the mountpoint.
pub fn is_mounted(table: &str, mountpoint: &str) -> (res: bool)
    ensures
        res == mounted(table@, mountpoint@),
{
    let lines = split_chars(&chars_of(table), '\n');
    let target = chars_of(mountpoint);
    let ghost all = split_on(table@, '\n');
    let mut i: usize = 0;
    while i < lines.len()
        invariant
            i <= lines.len(),
            pieces(lines@) == all,
            all == split_on(table@, '\n'),
            target@ == mountpoint@,
            forall|j: int| 0 <= j < i ==> !names_mount(#[trigger] all[j], mountpoint@),
        decreases lines.len() - i,
    {
        assert(all[i as int] == lines@[i as int]@);
        let parts = words_of(&lines[i]);
        if parts.len() >= 2 {
            assert(pieces(parts@)[1] == parts@[1]@);
            if same_chars(&parts[1], &target) {
                assert(names_mount(all[i as int], mountpoint@));
                return true;
            }
        }
        i = i + 1;
    }
    false
}

/// A mount of an earlier process is still there; not where the table cannot be read.
pub fn stale_mount(table: Option<&str>, mountpoint: &str) -> (res: bool)
    ensures
        res == (table is Some && mounted(table->0@, mountpoint@)),
{
    match table {
        Some(t) => is_mounted(t, mountpoint),
        None => false,
    }
}

/// The mount is gone, or the table cannot be read.
pub fn is_fuse_mount_gone(table: Option<&str>, mountpoint: &str) -> (res: bool)
    ensures
        res == (table is None || !mounted(table->0@, mountpoint@)),
{
    match table {
        Some(t) => !is_mounted(t, mountpoint),
        None => true,
    }
}

/// A mountpoint is known by the second word of a line, whatever follows it and wherever in
/// the table the line stands. The line says nothing of any other mountpoint.
pub proof fn law_mounts_are_named_by_the_second_word(
    before: Seq<char>,
    device: Seq<char>,
    mountpoint: Seq<char>,
    rest: Seq<char>,
)
    requires
        is_word(device),
        is_word(mountpoint),
        !rest.contains('\n'),
    ensures
        ({
            let line = device.push(' ') + (mountpoint.push(' ') + rest);
            &&& mounted(before.push('\n') + line, mountpoint)
            &&& forall|other: Seq<char>|
                other != mountpoint ==> (#[trigger] mounted(before.push('\n') + line, other)
                    <==> mounted(before, other))
        }),
{
    let tail = mountpoint.push(' ') + rest;
    let line = device.push(' ') + tail;
    let table = before.push('\n') + line;
    let sep = is_char('\n');
    law_words_are_split_at_blanks(mountpoint, ' ', rest);
    law_words_are_split_at_blanks(device, ' ', tail);
    assert(words(line)[1] == mountpoint);
    assert forall|i: int| 0 <= i < line.len() implies !sep(#[trigger] line[i]) by {
        if i < device.len() {
            assert(line[i] == device[i]);
        } else if i > device.len() && i < device.len() + 1 + mountpoint.len() {
            assert(line[i] == mountpoint[i - device.len() - 1]);
        } else if i > device.len() + 1 + mountpoint.len() {
            assert(line[i] == rest[i - device.len() - mountpoint.len() - 2]);
            assert(rest.contains(rest[i - device.len() - mountpoint.len() - 2]));
        }
    }
    lemma_split_concat(before, '\n', line, sep);
    lemma_split_single(line, sep);
    let old = split_on(before, '\n');
    let all = split_on(table, '\n');
    assert(all =~= old.push(line));
    assert(names_mount(all[old.len() as int], mountpoint));
    assert forall|other: Seq<char>| other != mountpoint implies (#[trigger] mounted(table, other)
        <==> mounted(before, other)) by {
        if mounted(before, other) {
            let i = choose|i: int| 0 <= i < old.len() && names_mount(#[trigger] old[i], other);
            assert(names_mount(all[i], other));
        }
        if mounted(table, other) {
            let i = choose|i: int| 0 <= i < all.len() && names_mount(#[trigger] all[i], other);
            if i < old.len() {
                assert(names_mount(old[i], other));
            }
        }
    }
}

/// All files together may hold eight times what one may, up to 64 MiB.
pub proof fn law_shared_buffer_is_bounded(write_buf: usize, res: usize)
    requires
        call_ensures(write_buf_total, (write_buf,), res),
    ensures
        res <= 67_108_864,
        res <= 8 * write_buf,
        res == 67_108_864 || res == 8 * write_buf,
{
}

} // verus!
