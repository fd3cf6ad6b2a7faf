use quicfs::client::cli::{
    bare_args, build_config, check_chunk_size, current_user, host_key, parse_spec, pick_address, sub_args, tofu,
    verb_of, CliError, Verb, DEFAULT_PORT,
};
use quicfs::client::conn::TofuPolicy;
use quicfs::common::identity::Identity;

fn strings(v: &[&str]) -> Vec<String> {
    v.iter().map(|s| s.to_string()).collect()
}

#[test]
fn user_host_path() {
    let (u, h, p) = parse_spec("alice@server:/projects", "me").unwrap();
    assert_eq!(
        (u.as_str(), h.as_str(), p.as_str()),
        ("alice", "server", "/projects")
    );
}

#[test]
fn host_without_user_defaults_path_and_keeps_host() {
    let (u, h, p) = parse_spec("server:/data", "me").unwrap();
    assert_eq!((h.as_str(), p.as_str()), ("server", "/data"));
    assert_eq!(u, "me");
}

#[test]
fn missing_path_defaults_to_root() {
    let (u, h, p) = parse_spec("alice@host", "me").unwrap();
    assert_eq!((u.as_str(), h.as_str(), p.as_str()), ("alice", "host", "/"));
}

#[test]
fn relative_remote_path_is_normalized_with_leading_slash() {
    let (_u, h, p) = parse_spec("host:rel/path", "me").unwrap();
    assert_eq!((h.as_str(), p.as_str()), ("host", "/rel/path"));
}

#[test]
fn ipv6_literal_host() {
    let (_u, h, p) = parse_spec("[::1]:/p", "me").unwrap();
    assert_eq!((h.as_str(), p.as_str()), ("::1", "/p"));
}

#[test]
fn empty_or_hostless_spec_is_error() {
    assert!(parse_spec("", "me").is_err());
    assert!(
        parse_spec("alice@", "me").is_err(),
        "user with no host must error"
    );
}

#[test]
fn unusual_specs() {
    assert_eq!(parse_spec("[::1", "me"), Err(CliError::UnterminatedHost));
    assert_eq!(parse_spec(":/p", "me"), Err(CliError::NoHost));
    assert_eq!(parse_spec("[]:/p", "me"), Err(CliError::NoHost));
    // Only the first separator counts.
    let (u, h, p) = parse_spec("a@b@c:d:e", "me").unwrap();
    assert_eq!((u.as_str(), h.as_str(), p.as_str()), ("a", "b@c", "/d:e"));
    let (u, h, p) = parse_spec("@h", "me").unwrap();
    assert_eq!((u.as_str(), h.as_str(), p.as_str()), ("", "h", "/"));
    let (_, h, p) = parse_spec("[fe80::1]rest", "me").unwrap();
    assert_eq!((h.as_str(), p.as_str()), ("fe80::1", "/rest"));
}

#[test]
fn verbs_are_recognised() {
    let verb = |s: &str| verb_of(&strings(&["quicfs", s]));
    assert_eq!(verb_of(&strings(&["quicfs"])), Verb::Help);
    assert_eq!(verb(""), Verb::Help);
    assert_eq!(verb("-h"), Verb::Help);
    assert_eq!(verb("--help"), Verb::Help);
    assert_eq!(verb("help"), Verb::Help);
    assert_eq!(verb("-V"), Verb::Version);
    assert_eq!(verb("--version"), Verb::Version);
    assert_eq!(verb("key"), Verb::Key);
    assert_eq!(verb("known-hosts"), Verb::KnownHosts);
    assert_eq!(verb("ping"), Verb::Ping);
    assert_eq!(verb("mount"), Verb::Mount);
    assert_eq!(verb("host:/p"), Verb::BareMount);
}

#[test]
fn arguments_follow_a_program_name() {
    let argv = strings(&["quicfs", "ping", "host", "-p", "1"]);
    assert_eq!(sub_args(&argv), strings(&["quicfs ping", "host", "-p", "1"]));
    assert_eq!(sub_args(&strings(&["quicfs", "key"])), strings(&["quicfs key"]));
    let argv = strings(&["quicfs", "host:/p", "/mnt"]);
    assert_eq!(
        bare_args(&argv),
        strings(&["quicfs mount", "host:/p", "/mnt"])
    );
}

#[test]
fn strictness_wins() {
    assert_eq!(tofu(false, false), TofuPolicy::Prompt);
    assert_eq!(tofu(true, false), TofuPolicy::AcceptNew);
    assert_eq!(tofu(false, true), TofuPolicy::Strict);
    assert_eq!(tofu(true, true), TofuPolicy::Strict);
}

#[test]
fn host_keys_are_host_and_port() {
    assert_eq!(host_key("h", DEFAULT_PORT), "h:9001");
    for p in [0u16, 7, 10, 99, 100, 1234, 65535] {
        assert_eq!(host_key("::1", p), format!("::1:{p}"));
    }
}

#[test]
fn version_four_addresses_come_first() {
    assert_eq!(pick_address(&vec![]), None);
    assert_eq!(pick_address(&vec![false, false]), Some(0));
    assert_eq!(pick_address(&vec![false, true, true]), Some(1));
}

fn some_identity() -> Identity {
    Identity {
        cert_pem: "cert".into(),
        key_pem: "key".into(),
        fingerprint: "fp".into(),
    }
}

#[test]
fn the_local_user_is_found() {
    assert_eq!(current_user(Some("a"), Some("b")), "a");
    assert_eq!(current_user(None, Some("b")), "b");
    assert_eq!(current_user(None, None), "user");
}

#[test]
fn connection_parameters() {
    assert_eq!(check_chunk_size(0), Err(CliError::ZeroChunkSize));
    assert_eq!(check_chunk_size(1), Ok(()));
    let kh = "/kh".to_string();
    let bad = build_config("h", 1, None, TofuPolicy::Strict, some_identity(), kh.clone(), 0);
    assert!(matches!(bad, Err(CliError::ZeroChunkSize)));
    let cfg = build_config("h", 42, None, TofuPolicy::Strict, some_identity(), kh.clone(), 7)
        .unwrap();
    assert_eq!(cfg.server_name, "h");
    assert_eq!(cfg.host_key, "h:42");
    assert_eq!(cfg.client_cert_pem, "cert");
    assert_eq!(cfg.client_key_pem, "key");
    assert_eq!(cfg.chunk_size, 7);
    assert_eq!(cfg.tofu, TofuPolicy::Strict);
    assert_eq!(cfg.known_hosts_path, "/kh");
    let cfg = build_config("h", 42, Some("sni"), TofuPolicy::Prompt, some_identity(), kh, 7)
        .unwrap();
    assert_eq!(cfg.server_name, "sni");
}
