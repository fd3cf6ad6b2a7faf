use quicfs::client::cache::{CacheConfig, MetaCache};
use quicfs::common::stat::Stat;
use quicfs::time::Duration;

fn cfg(ttl_ms: u64) -> CacheConfig {
    CacheConfig {
        max_entries: 16,
        pos_ttl: Duration::from_millis(ttl_ms),
        neg_ttl: Duration::from_millis(ttl_ms),
        dir_ttl: Duration::from_millis(ttl_ms),
    }
}

#[test]
fn positive_hit_returns_stat() {
    let mut c = MetaCache::new(cfg(60_000));
    let mut s = Stat::default();
    s.size = 123;
    c.insert("/a".into(), s, false);
    match c.get("/a") {
        Some(Ok(got)) => assert_eq!(got.size, 123),
        other => panic!("expected positive hit, got {other:?}"),
    }
}

#[test]
fn negative_hit_is_distinct_from_miss() {
    let mut c = MetaCache::new(cfg(60_000));
    assert!(c.get("/missing").is_none(), "unknown path is a miss");
    c.insert_negative("/missing".into());
    assert!(
        matches!(c.get("/missing"), Some(Err(()))),
        "now a cached-negative"
    );
}

#[test]
fn entries_expire() {
    // ttl 0 → an entry is already expired by the time we read it.
    let mut c = MetaCache::new(cfg(0));
    c.insert("/a".into(), Stat::default(), false);
    assert!(
        c.get("/a").is_none(),
        "zero-TTL entry must read as expired/miss"
    );
    c.insert_negative("/b".into());
    assert!(c.get("/b").is_none(), "zero-TTL negative must expire too");
}

#[test]
fn invalidate_drops_path_and_parent() {
    let mut c = MetaCache::new(cfg(60_000));
    c.insert("/dir".into(), Stat::default(), true);
    c.insert("/dir/file".into(), Stat::default(), false);
    c.invalidate("/dir/file"); // should drop the file AND its parent /dir
    assert!(c.get("/dir/file").is_none());
    assert!(
        c.get("/dir").is_none(),
        "parent dir entry must be invalidated too"
    );
}

#[test]
fn clear_empties_everything() {
    let mut c = MetaCache::new(cfg(60_000));
    c.insert("/a".into(), Stat::default(), false);
    c.insert("/b".into(), Stat::default(), false);
    c.clear();
    assert!(c.get("/a").is_none());
    assert!(c.get("/b").is_none());
}

#[test]
fn lifetimes_differ_by_what_is_cached() {
    let mut c = MetaCache::new(CacheConfig {
        max_entries: 16,
        pos_ttl: Duration::from_millis(30),
        neg_ttl: Duration::from_millis(10),
        dir_ttl: Duration::from_millis(20),
    });
    let t = Duration::from_millis;
    c.insert_at("/f".into(), Stat::default(), false, t(1000));
    c.insert_at("/d".into(), Stat::default(), true, t(1000));
    c.insert_negative_at("/n".into(), t(1000));
    assert!(c.get_at("/n", t(1009)).is_some());
    assert!(c.get_at("/n", t(1010)).is_none());
    assert!(c.get_at("/d", t(1019)).is_some());
    assert!(c.get_at("/d", t(1020)).is_none());
    assert!(c.get_at("/f", t(1029)).is_some());
    assert!(c.get_at("/f", t(1030)).is_none());
    // An expired entry is gone for good.
    assert!(c.get_at("/f", t(1000)).is_none());
}

#[test]
fn least_recently_used_entry_goes_first() {
    let mut c = MetaCache::new(CacheConfig {
        max_entries: 2,
        ..cfg(60_000)
    });
    c.insert("/a".into(), Stat::default(), false);
    c.insert("/b".into(), Stat::default(), false);
    assert!(c.get("/a").is_some());
    c.insert("/c".into(), Stat::default(), false);
    assert!(c.get("/b").is_none(), "/b was used least recently");
    assert!(c.get("/a").is_some());
    assert!(c.get("/c").is_some());
    // Putting a path in again takes no other one out.
    c.insert_negative("/a".into());
    assert!(matches!(c.get("/a"), Some(Err(()))));
    assert!(c.get("/c").is_some());
}

#[test]
fn zero_entries_stand_for_the_default() {
    let mut c = MetaCache::new(CacheConfig {
        max_entries: 0,
        ..cfg(60_000)
    });
    for i in 0..100 {
        c.insert(format!("/{i}"), Stat::default(), false);
    }
    assert!(c.get("/0").is_some());
    let d = CacheConfig::default();
    assert_eq!(d.max_entries, 8192);
    assert_eq!(d.pos_ttl.as_millis(), 2000);
    assert_eq!(d.neg_ttl.as_millis(), 500);
    assert_eq!(d.dir_ttl.as_millis(), 1000);
}

#[test]
fn invalidate_keeps_the_others() {
    let mut c = MetaCache::new(cfg(60_000));
    c.insert("/".into(), Stat::default(), true);
    c.insert("/dir".into(), Stat::default(), true);
    c.insert("/dir/a".into(), Stat::default(), false);
    c.insert("/dir/b".into(), Stat::default(), false);
    c.invalidate("/dir/a");
    assert!(c.get("/dir/b").is_some());
    assert!(c.get("/").is_some());
    c.invalidate("/");
    assert!(c.get("/").is_none());
}
