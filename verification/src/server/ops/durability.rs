//! Which directories are forced to disk after their entries changed.
//!
//! The operation has taken effect by then, so a failure here is logged and never
//! becomes its status.

use vstd::prelude::*;

use crate::common::status::Status;
use crate::path::{
    components, is_name, join, law_parent_of_join, law_strip_tail_keeps_components, parent,
    parent_of, same_path,
};
use crate::text::texts;

verus! {

/// The directory whose entry list changed with `path`. The export root has none in
/// scope.
pub open spec fn changed_dir(root: Seq<char>, path: Seq<char>) -> Option<Seq<char>> {
    if components(path) == components(root) {
        None
    } else {
        parent(path)
    }
}

/// The directory to force to disk after the entry at `path` changed.
pub fn sync_parent_dir(root: &str, path: &str) -> (res: Option<String>)
    ensures
        match res {
            Some(d) => changed_dir(root@, path@) == Some(d@),
            None => changed_dir(root@, path@) is None,
        },
{
    if same_path(path, root) {
        None
    } else {
        parent_of(path)
    }
}

/// The directory to force to disk after an operation on one entry: only where it
/// succeeded, and only where the configuration asks for it.
pub fn sync_after(root: &str, path: &str, status: Status, sync_metadata: bool) -> (res: Option<
    String,
>)
    ensures
        match res {
            Some(d) => status == Status::Success && sync_metadata && changed_dir(root@, path@)
                == Some(d@),
            None => !(status == Status::Success && sync_metadata) || changed_dir(
                root@,
                path@,
            ) is None,
        },
{
    if status == Status::Success && sync_metadata {
        sync_parent_dir(root, path)
    } else {
        None
    }
}

/// The directories to force to disk after a rename.
pub open spec fn rename_dirs(root: Seq<char>, from: Seq<char>, to: Seq<char>) -> Seq<Seq<char>> {
    let first = match changed_dir(root, from) {
        Some(d) => seq![d],
        None => Seq::empty(),
    };
    let same_dir = match (parent(from), parent(to)) {
        (Some(a), Some(b)) => components(a) == components(b),
        (None, None) => true,
        _ => false,
    };
    if same_dir {
        first
    } else {
        match changed_dir(root, to) {
            Some(d) => first.push(d),
            None => first,
        }
    }
}

/// The directories to force to disk after a rename: the one that lost the entry, and
/// the one that gained it where that is another.
pub fn sync_after_rename(
    root: &str,
    from: &str,
    to: &str,
    status: Status,
    sync_metadata: bool,
) -> (res: Vec<String>)
    ensures
        texts(res@) == (if status == Status::Success && sync_metadata {
            rename_dirs(root@, from@, to@)
        } else {
            Seq::empty()
        }),
{
    let mut out: Vec<String> = Vec::new();
    assert(texts(out@) =~= Seq::empty());
    if status != Status::Success || !sync_metadata {
        return out;
    }
    if let Some(d) = sync_parent_dir(root, from) {
        out.push(d);
        assert(texts(out@) =~= seq![d@]);
    }
    let same_dir = match (parent_of(from), parent_of(to)) {
        (Some(a), Some(b)) => same_path(a.as_str(), b.as_str()),
        (None, None) => true,
        _ => false,
    };
    if !same_dir {
        if let Some(d) = sync_parent_dir(root, to) {
            let ghost before = texts(out@);
            out.push(d);
            assert(texts(out@) =~= before.push(d@));
        }
    }
    out
}

/// A change of an entry is a change of the directory that holds it: that one is forced to
/// disk, exactly where the operation worked and the configuration asks for it.
pub proof fn law_the_holding_directory_is_synced(
    root: &str,
    path: &str,
    status: Status,
    on: bool,
    dir: Seq<char>,
    name: Seq<char>,
    res: Option<String>,
)
    requires
        is_name(name),
        path@ == join(dir, name),
        components(path@) != components(root@),
        call_ensures(sync_after, (root, path, status, on), res),
    ensures
        res is Some <==> status is Success && on,
        res matches Some(d) ==> components(d@) == components(dir),
{
    law_parent_of_join(dir, name);
    law_strip_tail_keeps_components(dir);
}

/// After a rename the directory that lost the entry and the one that gained it are both
/// forced to disk, and a directory that did both only once.
pub proof fn law_both_directories_of_a_rename_are_synced(
    root: Seq<char>,
    a: Seq<char>,
    old_name: Seq<char>,
    b: Seq<char>,
    new_name: Seq<char>,
)
    requires
        is_name(old_name),
        is_name(new_name),
        components(join(a, old_name)) != components(root),
        components(join(b, new_name)) != components(root),
    ensures
        ({
            let dirs = rename_dirs(root, join(a, old_name), join(b, new_name));
            &&& dirs.len() == (if components(a) == components(b) {
                1
            } else {
                2int
            })
            &&& components(dirs[0]) == components(a)
            &&& components(dirs.last()) == components(b)
        }),
{
    law_parent_of_join(a, old_name);
    law_parent_of_join(b, new_name);
    law_strip_tail_keeps_components(a);
    law_strip_tail_keeps_components(b);
}

/// A change of the root itself forces nothing to disk: what holds it is not exported.
pub proof fn law_nothing_above_the_root_is_synced(
    root: &str,
    path: &str,
    status: Status,
    on: bool,
    res: Option<String>,
)
    requires
        components(path@) == components(root@),
        call_ensures(sync_after, (root, path, status, on), res),
    ensures
        res is None,
{
}

} // verus!
