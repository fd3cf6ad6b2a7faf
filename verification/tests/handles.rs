use std::collections::hash_map::DefaultHasher;
use std::hash::{Hash, Hasher};
use std::path::Path;

use quicfs::common::identity::Identity;
use quicfs::server::auth::from_mtls_fingerprint;
use quicfs::server::config::{
    authorized_keys_path, connection_slots, identity_paths, AuthSection, Config, ConfigError,
    ConnLimits, DurabilitySection, LimitsSection, QuicSection, ServerSection, TlsSection,
};
use quicfs::server::handles::{ino_key, ino_key_of, path_hash_key, HandleTable, TooManyHandles};
use quicfs::server::ipslots::{Ip, IpSlots};
use quicfs::server::session::ClientSession;
use quicfs::server::writelock::{stripe_for, STRIPES};

#[test]
fn handle_ids_are_session_namespaced() {
    let mut a: HandleTable<u8> = HandleTable::with_limit(8192);
    let mut b: HandleTable<u8> = HandleTable::with_limit(8192);
    let a1 = a.try_insert("/x".into(), 0, 0, 1).unwrap();
    let b1 = b.try_insert("/y".into(), 0, 0, 2).unwrap();
    // Not a scheme that starts at 1.
    assert_ne!(a1, 1, "first handle must carry a session epoch, not be 1");
    // Two independent sessions allocate disjoint id ranges (different epochs).
    assert_ne!(a1 >> 32, b1 >> 32, "sessions must have distinct epochs");
    // A first-allocated handle from session A must not equal one from B.
    assert_ne!(a1, b1);
    // A stale id from session B does not resolve in session A.
    assert!(
        a.get_path(b1).is_none(),
        "stale cross-session handle must miss"
    );
}

#[test]
fn handle_numbers_count_up_within_an_epoch() {
    let mut t: HandleTable<&str> = HandleTable::with_epoch(0xABCD, 3);
    assert!(t.is_empty());
    let ids: Vec<u64> = (0..3)
        .map(|i| t.try_insert(format!("/f{i}"), i, "file", 7).unwrap())
        .collect();
    assert_eq!(ids, vec![0xABCD_0000_0001, 0xABCD_0000_0002, 0xABCD_0000_0003]);
    assert_eq!(
        t.try_insert("/f3".into(), 0, "file", 7),
        Err(TooManyHandles { limit: 3 })
    );
    assert_eq!(t.len(), 3);
    assert_eq!(t.get_path(ids[1]), Some("/f1".to_string()));
    let h = t.remove(ids[1]).unwrap();
    assert_eq!((h.path.as_str(), h.flags, h.file, h.ino_key), ("/f1", 1, "file", 7));
    assert!(t.remove(ids[1]).is_none());
    assert!(t.get_file(ids[1]).is_none());
    // A number is never used again.
    assert_eq!(t.try_insert("/f4".into(), 9, "new", 8), Ok(0xABCD_0000_0004));
    let (file, flags, key) = t.get_write_ctx(0xABCD_0000_0004).unwrap();
    assert_eq!((*file, flags, key), ("new", 9, 8));
    assert_eq!(*t.get_file(0xABCD_0000_0004).unwrap(), "new");
    assert!(t.get(1).is_none());
}

#[test]
fn file_keys_identify_files() {
    assert_eq!(ino_key(1, 42), (1u128 << 64) | 42);
    assert_eq!(ino_key(u64::MAX, u64::MAX), u128::MAX);
    assert_eq!(ino_key_of(Some((1, 42)), "/x"), ino_key(1, 42));
    let by_path = ino_key_of(None, "/x/y");
    assert_eq!(by_path >> 127, 1);
    assert_eq!(by_path, ino_key_of(None, "/x//y/"));
    assert_ne!(by_path, ino_key_of(None, "/x/z"));
    for p in ["", "/", "/x/y", "x/./y", "a/../b", "/\u{fc}/\u{20ac}"] {
        let mut h = DefaultHasher::new();
        Path::new(p).hash(&mut h);
        assert_eq!(path_hash_key(p), (1u128 << 127) | h.finish() as u128);
    }
    assert_eq!(Path::new("/x/y"), Path::new("/x//y/"));
}

#[test]
fn same_key_maps_to_the_same_stripe() {
    let k = 0x0000_0001_0000_002au128; // dev 1, ino 42
    assert_eq!(stripe_for(k), stripe_for(k));
}

#[test]
fn adjacent_inodes_spread_across_stripes() {
    let mut seen = std::collections::HashSet::new();
    for ino in 0..256u128 {
        seen.insert(stripe_for(ino));
    }
    assert!(
        seen.len() > 1,
        "stripe index must vary with the inode key, not be constant"
    );
}

#[test]
fn neighbouring_inodes_get_different_stripes() {
    for dev in [0u128, 1, 0xFD00, u64::MAX as u128] {
        let mut seen = std::collections::HashSet::new();
        for ino in 5000..5000 + STRIPES as u128 {
            assert!(seen.insert(stripe_for((dev << 64) | ino)));
        }
        assert_eq!(stripe_for((dev << 64) | 7), stripe_for((dev << 64) | (7 + STRIPES as u128)));
    }
}

#[test]
fn stripes_mix_both_halves() {
    for (key, want) in [(0u128, 0usize), (1, 0x15), (1u128 << 64, (0xD1B5_4A32u64 % 1024) as usize)] {
        assert_eq!(stripe_for(key), want);
    }
    let k = (3u128 << 64) | 12345;
    let lo = 12345u64.wrapping_mul(0x9E37_79B9_7F4A_7C15);
    let hi = 3u64.wrapping_mul(0xD1B5_4A32_D192_ED03);
    assert_eq!(stripe_for(k), ((lo ^ hi.rotate_left(32)) as usize) % STRIPES);
}

#[test]
fn connections_per_address_are_counted() {
    let mut s = IpSlots::new();
    let (a, b) = (Ip::V4(1), Ip::V6(1));
    assert!(s.try_acquire(a, 2));
    assert!(s.try_acquire(a, 2));
    assert!(!s.try_acquire(a, 2));
    assert!(s.try_acquire(b, 2), "another address has its own count");
    s.release(a);
    assert!(s.try_acquire(a, 2));
    // No limit.
    for _ in 0..100 {
        assert!(s.try_acquire(b, 0));
    }
    s.release(Ip::V4(9));
    assert!(s.try_acquire(Ip::V4(9), 1));
    assert!(!s.try_acquire(Ip::V4(9), 1));
}

#[test]
fn sessions_count_bytes() {
    let id = from_mtls_fingerprint("SHA256:x");
    let mut s: ClientSession<u8> = ClientSession::new(id, vec![], 5, true, false);
    assert_eq!(s.identity.subject, "SHA256:x");
    assert!(s.sync_on_close && !s.sync_metadata);
    s.record_rx(10);
    s.record_rx(5);
    s.record_tx(u64::MAX);
    s.record_tx(2);
    assert_eq!((s.rx_bytes, s.tx_bytes), (15, 1));
    assert!(s.handles.is_empty());
    let mut other: ClientSession<u8> =
        ClientSession::new(from_mtls_fingerprint("y"), vec![], 5, true, false);
    assert_ne!(s.id, other.id);
    // Each session numbers its handles in an epoch of its own.
    let a = s.handles.try_insert("/x".into(), 0, 0, 1).unwrap();
    let b = other.handles.try_insert("/y".into(), 0, 0, 2).unwrap();
    assert_ne!(a >> 32, b >> 32);
    assert_eq!((a & 0xFFFF_FFFF, b & 0xFFFF_FFFF), (1, 1));
    assert!(s.handles.get(b).is_none() && other.handles.get(a).is_none());
    // Version and variant of a random identifier.
    assert_eq!((s.id >> 76) & 0xF, 4);
    assert_eq!((s.id >> 62) & 0x3, 2);
    assert!(s.connected.now().as_nanos() < 60_000_000_000);
}

fn config() -> Config {
    Config {
        server: ServerSection {
            listen: "0.0.0.0:9001".into(),
            export_root: "/srv".into(),
            max_clients: 128,
            max_conns_per_ip: 0,
            log_level: "info".into(),
        },
        tls: TlsSection::default(),
        quic: QuicSection::default(),
        limits: LimitsSection::default(),
        auth: AuthSection::default(),
        durability: DurabilitySection::default(),
    }
}

fn broken(change: fn(&mut Config)) -> Result<(), ConfigError> {
    let mut c = config();
    change(&mut c);
    c.validate()
}

#[test]
fn configurations_are_checked() {
    assert_eq!(broken(|_| ()), Ok(()));
    assert_eq!(broken(|c| c.server.max_clients = 0), Err(ConfigError::NoClients));
    assert_eq!(
        broken(|c| c.server.max_conns_per_ip = 129),
        Err(ConfigError::ConnsPerIpTooLarge { per_ip: 129, clients: 128 })
    );
    assert_eq!(broken(|c| c.server.max_conns_per_ip = 128), Ok(()));
    assert_eq!(broken(|c| c.limits.max_open_handles = 0), Err(ConfigError::NoHandles));
    assert_eq!(
        broken(|c| c.limits.max_open_handles = 1_000_001),
        Err(ConfigError::TooManyHandles)
    );
    assert_eq!(broken(|c| c.limits.max_open_handles = 1_000_000), Ok(()));
    assert_eq!(broken(|c| c.limits.rpc_timeout_ms = 0), Err(ConfigError::NoRpcTimeout));
    assert_eq!(
        broken(|c| c.quic.idle_timeout_ms = 14_999),
        Err(ConfigError::IdleBelowKeepAlive { idle_ms: 14_999, keep_alive_ms: 15_000 })
    );
    assert_eq!(broken(|c| c.quic.idle_timeout_ms = 15_000), Ok(()));
    assert_eq!(broken(|c| c.server.export_root.clear()), Err(ConfigError::NoExportRoot));
    assert_eq!(broken(|c| c.server.listen.clear()), Err(ConfigError::NoListenAddress));
    assert_eq!(
        broken(|c| c.server.log_level = "loud".into()),
        Err(ConfigError::UnknownLogLevel)
    );
    for level in ["error", "warn", "info", "debug", "trace"] {
        let mut c = config();
        c.server.log_level = level.into();
        assert_eq!(c.validate(), Ok(()));
    }
    // The first fault is the one reported.
    assert_eq!(
        broken(|c| {
            c.server.listen.clear();
            c.limits.rpc_timeout_ms = 0
        }),
        Err(ConfigError::NoRpcTimeout)
    );
}

#[test]
fn limits_follow_the_configuration() {
    let mut c = config();
    c.limits.rpc_timeout_ms = 1500;
    c.limits.max_open_handles = 7;
    c.durability.sync_metadata = true;
    let l = ConnLimits::from_config(&c);
    assert_eq!((l.max_open_handles, l.rpc_timeout.as_millis()), (7, 1500));
    assert!(!l.sync_on_close && l.sync_metadata);
    let d = ConnLimits::default();
    assert_eq!((d.max_open_handles, d.rpc_timeout.as_millis()), (8192, 30_000));
    assert!(!d.sync_on_close && !d.sync_metadata);
    assert_eq!(connection_slots(&c), 128);
    c.server.max_clients = 0;
    assert_eq!(connection_slots(&c), 1);
}

#[test]
fn server_files_are_found() {
    let mut c = config();
    assert_eq!(
        identity_paths(Some(&c), Some("/etc/q")),
        ("/etc/q/server.crt".to_string(), "/etc/q/server.key".to_string())
    );
    assert_eq!(
        identity_paths(None, None),
        ("./server.crt".to_string(), "./server.key".to_string())
    );
    c.tls.cert = Some("/c".into());
    assert_eq!(identity_paths(Some(&c), Some("/d")).0, "/d/server.crt");
    c.tls.key = Some("/k".into());
    assert_eq!(
        identity_paths(Some(&c), Some("/d")),
        ("/c".to_string(), "/k".to_string())
    );
    assert_eq!(authorized_keys_path(Some(&c), Some("/d")), "/d/authorized_keys");
    assert_eq!(authorized_keys_path(None, None), "authorized_keys");
    c.auth.authorized_keys = Some("/a".into());
    assert_eq!(authorized_keys_path(Some(&c), Some("/d")), "/a");
}

#[test]
fn the_peer_is_its_first_certificate() {
    let id = Identity::generate("peer").unwrap();
    let der = quicfs::server::endpoint::pem_to_der(&id.cert_pem).unwrap();
    let extract = quicfs::server::ops::ctrl::extract_mtls_fingerprint;
    assert_eq!(extract(&vec![der.clone(), b"junk".to_vec()]), Some(id.fingerprint));
    assert_eq!(extract(&vec![b"junk".to_vec(), der]), None);
    assert_eq!(extract(&vec![]), None);
}
