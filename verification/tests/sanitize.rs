use std::path::Path;

use quicfs::common::status::IoErrorKind;
use quicfs::path::{
    components_of, file_name_of, join_path, parent_of, same_path, starts_with_path,
};
use quicfs::server::sanitize::{
    confined_parent, leading_paths, normalize, parent_dir_how, path_beneath, permission_bits,
    resolve, sync_dir_how, PathFacts, ResolveError, MAX_PATH_DEPTH, MAX_PATH_LEN,
};

const ROOT: &str = "/quicfs-test-export-root";

fn at(path: &str) -> Result<String, ResolveError> {
    resolve(ROOT, path, &PathFacts::absent())
}

fn under(names: &[&str]) -> String {
    let mut p = Path::new(ROOT).to_path_buf();
    for n in names {
        p.push(n);
    }
    p.to_str().unwrap().to_string()
}

#[test]
fn normal_paths_join_under_root() {
    assert_eq!(at("/a/b").unwrap(), under(&["a", "b"]));
    assert_eq!(at("a/b/c").unwrap(), under(&["a", "b", "c"]));
    assert_eq!(at("/").unwrap(), ROOT);
    assert_eq!(at("").unwrap(), ROOT);
}

#[test]
fn dot_and_empty_components_are_skipped() {
    assert_eq!(at("/./a").unwrap(), under(&["a"]));
    assert_eq!(at("a/./b").unwrap(), under(&["a", "b"]));
    assert_eq!(at("///a//b").unwrap(), under(&["a", "b"]));
}

#[test]
fn dotdot_is_rejected() {
    assert!(at("/a/../b").is_err(), "..-in-middle must be rejected");
    assert!(at("..").is_err());
    assert!(at("/../etc/passwd").is_err());
    assert!(at("a/b/../../../../etc").is_err());
}

#[test]
fn null_byte_is_rejected() {
    assert!(at("/a\0b").is_err());
    assert!(at("\0").is_err());
}

#[test]
fn oversized_inputs_are_rejected() {
    let long_path = format!("/{}", "a".repeat(MAX_PATH_LEN));
    assert!(at(&long_path).is_err(), "path > PATH_MAX must be rejected");

    let long_component = format!("/{}", "x".repeat(256));
    assert!(
        at(&long_component).is_err(),
        "component > 255 must be rejected"
    );

    let deep: String = std::iter::repeat("d")
        .take(MAX_PATH_DEPTH + 1)
        .map(|s| format!("/{s}"))
        .collect();
    assert!(at(&deep).is_err(), "depth > MAX_PATH_DEPTH must be rejected");
}

#[test]
fn accepted_inputs_stay_under_root() {
    for p in ["/a", "a/b", "/./x/y", "deep/nested/path", "/"] {
        let resolved = at(p).unwrap();
        assert!(
            Path::new(&resolved).starts_with(ROOT),
            "{p:?} escaped root: {resolved:?}"
        );
    }
}

#[test]
fn resolve_never_escapes_root() {
    let bits = ["a", ".", "..", "", "\0", "ü", "...", " ", "~", "a.b"];
    for x in bits {
        for y in bits {
            for z in bits {
                for s in [format!("{x}/{y}/{z}"), format!("/{x}//{y}{z}/"), format!("{x}{y}/{z}")] {
                    if let Ok(p) = at(&s) {
                        assert!(Path::new(&p).starts_with(ROOT), "{s:?} -> {p:?}");
                        assert!(starts_with_path(&p, ROOT));
                    }
                }
            }
        }
    }
}

#[test]
fn refusals_are_told_apart() {
    assert_eq!(at(&"a".repeat(4097)), Err(ResolveError::TooLong));
    assert_eq!(at("a\0"), Err(ResolveError::NullByte));
    assert_eq!(at("a/../b"), Err(ResolveError::Traversal));
    assert_eq!(at(&"b".repeat(256)), Err(ResolveError::ComponentTooLong));
    // The first fault decides.
    assert_eq!(at(&format!("../{}", "b".repeat(256))), Err(ResolveError::Traversal));
    assert_eq!(
        at(&format!("{}/..", "b".repeat(256))),
        Err(ResolveError::ComponentTooLong)
    );
    assert_eq!(at(&"d/".repeat(129)), Err(ResolveError::TooDeep));
    assert!(at(&"d/".repeat(128)).is_ok());
    // Lengths are in bytes.
    assert_eq!(at(&"ü".repeat(128)), Err(ResolveError::ComponentTooLong));
    assert!(at(&"ü".repeat(127)).is_ok());
    assert!(at(&format!("{}b", "a/".repeat(2047))).is_err());
    assert_eq!(at(&"/".repeat(4096)).unwrap(), ROOT);
}

#[test]
fn links_on_the_way_are_refused() {
    let mut facts = PathFacts::absent();
    facts.symlinks.push(under(&["a", "b"]));
    assert_eq!(resolve(ROOT, "/a/b/c", &facts), Err(ResolveError::EscapesRoot));
    assert_eq!(resolve(ROOT, "/a/b/c/d", &facts), Err(ResolveError::EscapesRoot));
    // The last component may be a link.
    assert_eq!(resolve(ROOT, "/a/b", &facts).unwrap(), under(&["a", "b"]));
    assert_eq!(resolve(ROOT, "/a/c", &facts).unwrap(), under(&["a", "c"]));
}

#[test]
fn targets_outside_are_refused() {
    let real = |lies: &str| PathFacts {
        symlinks: vec![],
        canonical: Some((lies.to_string(), "/srv/export".to_string())),
    };
    assert!(resolve("/exp", "/a", &real("/srv/export/a")).is_ok());
    assert!(resolve("/exp", "/a", &real("/srv/export")).is_ok());
    assert_eq!(resolve("/exp", "/a", &real("/etc")), Err(ResolveError::EscapesRoot));
    // Whole components count.
    assert_eq!(
        resolve("/exp", "/a", &real("/srv/export2/a")),
        Err(ResolveError::EscapesRoot)
    );
}

#[test]
fn leading_directories_are_listed() {
    let names = normalize("/a/b/c").unwrap();
    assert_eq!(names, vec!["a", "b", "c"]);
    assert_eq!(leading_paths("/r", &names), vec!["/r/a", "/r/a/b"]);
    assert_eq!(leading_paths("/r", &normalize("/").unwrap()), Vec::<String>::new());
    assert_eq!(leading_paths("/", &normalize("x/y").unwrap()), vec!["/x"]);
}

#[test]
fn opens_are_relative_to_the_root() {
    assert_eq!(path_beneath("/r", "/r/a/b"), Ok("a/b".to_string()));
    assert_eq!(path_beneath("/r", "/r"), Ok(".".to_string()));
    assert_eq!(path_beneath("/r/", "/r/a"), Ok("a".to_string()));
    assert_eq!(path_beneath("/r", "/s/a"), Err(IoErrorKind::PermissionDenied));
    assert_eq!(path_beneath("/r", "/ra"), Err(IoErrorKind::PermissionDenied));
    assert_eq!(path_beneath("/r", "/r/a\0"), Err(IoErrorKind::InvalidInput));
    assert_eq!(path_beneath("/r\0", "/r\0/a"), Err(IoErrorKind::InvalidInput));
}

#[test]
fn entries_are_reached_through_their_directory() {
    assert_eq!(
        confined_parent("/r/a/b"),
        Ok(("/r/a".to_string(), "b".to_string()))
    );
    assert_eq!(confined_parent("/"), Err(IoErrorKind::InvalidInput));
    assert_eq!(confined_parent("/r/.."), Err(IoErrorKind::InvalidInput));
    assert_eq!(confined_parent("/r/a\0"), Err(IoErrorKind::InvalidInput));
    let dir = parent_dir_how();
    assert!(dir.path_only && dir.directory && !dir.no_follow && !dir.create);
    let sync = sync_dir_how();
    assert!(!sync.path_only && sync.directory && sync.no_follow && !sync.create);
}

#[test]
fn modes_are_cut_to_permission_bits() {
    assert_eq!(permission_bits(0o7777), 0o777);
    assert_eq!(permission_bits(0o100644), 0o644);
}

#[test]
fn paths_behave_as_the_standard_library_has_them() {
    let all = [
        "", "/", "//", ".", "./", "..", "a", "a/", "/a", "/a/", "//a//b//", "a/b", "./a", "a/.",
        "a/./b", "/.", "/./a", "/a/.", "/a/..", "a/..", "../a", "/a/b/c", ".a", "a.", "/a/.b", "/ü/x",
    ];
    for p in all {
        let std = Path::new(p);
        assert_eq!(
            parent_of(p),
            std.parent().map(|x| x.to_str().unwrap().to_string()),
            "parent of {p:?}"
        );
        assert_eq!(
            file_name_of(p),
            std.file_name().map(|x| x.to_str().unwrap().to_string()),
            "file name of {p:?}"
        );
        let comps: Vec<String> = components_of(p).iter().map(|c| c.iter().collect()).collect();
        let want: Vec<String> = std
            .components()
            .map(|c| c.as_os_str().to_str().unwrap().to_string())
            .collect();
        assert_eq!(comps, want, "components of {p:?}");
        for q in all {
            assert_eq!(starts_with_path(p, q), std.starts_with(q), "{p:?} {q:?}");
            assert_eq!(same_path(p, q), std == Path::new(q), "{p:?} {q:?}");
        }
        for n in ["x", "a.b"] {
            assert_eq!(join_path(p, n), std.join(n).to_str().unwrap());
        }
    }
}
