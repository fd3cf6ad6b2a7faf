//! Server configuration, its defaults and its sanity rules.

use vstd::prelude::*;

use crate::path::{join, join_path};
use crate::text::{copy_of, same_text};
use crate::time::Duration;

verus! {

#[derive(Debug)]
pub struct Config {
    pub server: ServerSection,
    pub tls: TlsSection,
    pub quic: QuicSection,
    pub limits: LimitsSection,
    pub auth: AuthSection,
    pub durability: DurabilitySection,
}

/// Server-side durability policy.
#[derive(Debug, Clone, Copy)]
pub struct DurabilitySection {
    /// Force each file to disk when its handle is released. Off by default: it
    /// trades write throughput for durability against a crash of the host.
    pub sync_on_close: bool,
    /// Force the parent directory to disk after an entry was created, renamed or
    /// removed. Off by default, and independent of `sync_on_close`.
    pub sync_metadata: bool,
}

#[derive(Debug)]
pub struct ServerSection {
    pub listen: String,
    pub export_root: String,
    pub max_clients: u32,
    /// Maximum simultaneous connections from a single source address; 0 disables
    /// the limit.
    pub max_conns_per_ip: u32,
    pub log_level: String,
}

/// TLS identity. Where `cert` or `key` is unset, the server generates a persistent
/// self-signed identity in its configuration directory on first run.
#[derive(Debug)]
pub struct TlsSection {
    pub cert: Option<String>,
    pub key: Option<String>,
}

/// Client authorization policy.
#[derive(Debug)]
pub struct AuthSection {
    /// Path to the file of authorized client keys.
    pub authorized_keys: Option<String>,
    /// Accept any client key while no key is authorized. An explicit opt-in.
    pub allow_any_client: bool,
}

#[derive(Debug, Clone, Copy)]
pub struct QuicSection {
    pub connection_receive_window: u64,
    pub stream_receive_window: u32,
    pub max_concurrent_bidi_streams: u32,
    pub keep_alive_interval_ms: u64,
    pub idle_timeout_ms: u64,
    pub migration: bool,
    pub zero_rtt: bool,
}

#[derive(Debug, Clone, Copy)]
pub struct LimitsSection {
    pub max_open_handles: u32,
    pub rpc_timeout_ms: u64,
}

impl Default for DurabilitySection {
    fn default() -> (res: Self)
        ensures
            !res.sync_on_close,
            !res.sync_metadata,
    {
        DurabilitySection { sync_on_close: false, sync_metadata: false }
    }
}

impl Default for TlsSection {
    fn default() -> (res: Self)
        ensures
            res.cert is None,
            res.key is None,
    {
        TlsSection { cert: None, key: None }
    }
}

impl Default for AuthSection {
    fn default() -> (res: Self)
        ensures
            res.authorized_keys is None,
            !res.allow_any_client,
    {
        AuthSection { authorized_keys: None, allow_any_client: false }
    }
}

impl Default for QuicSection {
    fn default() -> (res: Self)
        ensures
            res.connection_receive_window == 67_108_864,
            res.stream_receive_window == 16_777_216,
            res.max_concurrent_bidi_streams == 256,
            res.keep_alive_interval_ms == 15_000,
            res.idle_timeout_ms == 300_000,
            res.migration,
            !res.zero_rtt,
    {
        QuicSection {
            connection_receive_window: default_conn_recv_window(),
            stream_receive_window: default_stream_recv_window(),
            max_concurrent_bidi_streams: default_max_bidi_streams(),
            keep_alive_interval_ms: default_keepalive_ms(),
            idle_timeout_ms: default_idle_timeout_ms(),
            migration: default_true(),
            zero_rtt: false,
        }
    }
}

impl Default for LimitsSection {
    fn default() -> (res: Self)
        ensures
            res.max_open_handles == 8192,
            res.rpc_timeout_ms == 30_000,
    {
        LimitsSection {
            max_open_handles: default_max_handles(),
            rpc_timeout_ms: default_rpc_timeout_ms(),
        }
    }
}

pub fn default_max_clients() -> (res: u32)
    ensures
        res == 128,
{
    128
}

pub fn default_log_level() -> (res: String)
    ensures
        res@ == "info"@,
{
    copy_of("info")
}

pub fn default_conn_recv_window() -> (res: u64)
    ensures
        res == 67_108_864,
{
    67_108_864
}

pub fn default_stream_recv_window() -> (res: u32)
    ensures
        res == 16_777_216,
{
    16_777_216
}

pub fn default_max_bidi_streams() -> (res: u32)
    ensures
        res == 256,
{
    256
}

pub fn default_keepalive_ms() -> (res: u64)
    ensures
        res == 15_000,
{
    15_000
}

pub fn default_idle_timeout_ms() -> (res: u64)
    ensures
        res == 300_000,
{
    300_000
}

pub fn default_true() -> (res: bool)
    ensures
        res,
{
    true
}

pub fn default_max_handles() -> (res: u32)
    ensures
        res == 8192,
{
    8192
}

pub fn default_rpc_timeout_ms() -> (res: u64)
    ensures
        res == 30_000,
{
    30_000
}

/// The sanity rule that a configuration breaks.
#[derive(Debug, Clone, Copy, PartialEq, Eq, Structural)]
pub enum ConfigError {
    /// `server.max_clients` is zero.
    NoClients,
    /// `server.max_conns_per_ip` exceeds `server.max_clients`.
    ConnsPerIpTooLarge { per_ip: u32, clients: u32 },
    /// `limits.max_open_handles` is zero.
    NoHandles,
    /// `limits.max_open_handles` exceeds a million.
    TooManyHandles,
    /// `limits.rpc_timeout_ms` is zero.
    NoRpcTimeout,
    /// `quic.idle_timeout_ms` is shorter than `quic.keep_alive_interval_ms`.
    IdleBelowKeepAlive { idle_ms: u64, keep_alive_ms: u64 },
    /// `server.export_root` is empty.
    NoExportRoot,
    /// `server.listen` is empty.
    NoListenAddress,
    /// `server.log_level` names no level.
    UnknownLogLevel,
}

pub open spec fn is_log_level(s: Seq<char>) -> bool {
    s == "error"@ || s == "warn"@ || s == "info"@ || s == "debug"@ || s == "trace"@
}

impl Config {
    /// The first rule that the configuration breaks.
    pub open spec fn first_error(&self) -> Option<ConfigError> {
        if self.server.max_clients == 0 {
            Some(ConfigError::NoClients)
        } else if self.server.max_conns_per_ip > self.server.max_clients {
            Some(
                ConfigError::ConnsPerIpTooLarge {
                    per_ip: self.server.max_conns_per_ip,
                    clients: self.server.max_clients,
                },
            )
        } else if self.limits.max_open_handles == 0 {
            Some(ConfigError::NoHandles)
        } else if self.limits.max_open_handles > 1_000_000 {
            Some(ConfigError::TooManyHandles)
        } else if self.limits.rpc_timeout_ms == 0 {
            Some(ConfigError::NoRpcTimeout)
        } else if self.quic.idle_timeout_ms < self.quic.keep_alive_interval_ms {
            Some(
                ConfigError::IdleBelowKeepAlive {
                    idle_ms: self.quic.idle_timeout_ms,
                    keep_alive_ms: self.quic.keep_alive_interval_ms,
                },
            )
        } else if self.server.export_root@.len() == 0 {
            Some(ConfigError::NoExportRoot)
        } else if self.server.listen@.len() == 0 {
            Some(ConfigError::NoListenAddress)
        } else if !is_log_level(self.server.log_level@) {
            Some(ConfigError::UnknownLogLevel)
        } else {
            None
        }
    }

    /// Checks the values for sanity.
    pub fn validate(&self) -> (res: Result<(), ConfigError>)
        ensures
            match res {
                Ok(()) => self.first_error() is None,
                Err(e) => self.first_error() == Some(e),
            },
    {
        if self.server.max_clients == 0 {
            return Err(ConfigError::NoClients);
        }
        if self.server.max_conns_per_ip > self.server.max_clients {
            return Err(
                ConfigError::ConnsPerIpTooLarge {
                    per_ip: self.server.max_conns_per_ip,
                    clients: self.server.max_clients,
                },
            );
        }
        if self.limits.max_open_handles == 0 {
            return Err(ConfigError::NoHandles);
        }
        if self.limits.max_open_handles > 1_000_000 {
            return Err(ConfigError::TooManyHandles);
        }
        if self.limits.rpc_timeout_ms == 0 {
            return Err(ConfigError::NoRpcTimeout);
        }
        if self.quic.idle_timeout_ms < self.quic.keep_alive_interval_ms {
            return Err(
                ConfigError::IdleBelowKeepAlive {
                    idle_ms: self.quic.idle_timeout_ms,
                    keep_alive_ms: self.quic.keep_alive_interval_ms,
                },
            );
        }
        if self.server.export_root.as_str().is_empty() {
            return Err(ConfigError::NoExportRoot);
        }
        if self.server.listen.as_str().is_empty() {
            return Err(ConfigError::NoListenAddress);
        }
        let level = self.server.log_level.as_str();
        if same_text(level, "error") || same_text(level, "warn") || same_text(level, "info")
            || same_text(level, "debug") || same_text(level, "trace") {
            Ok(())
        } else {
            Err(ConfigError::UnknownLogLevel)
        }
    }
}

/// Per-connection limits derived from the configuration.
#[derive(Debug, Clone, Copy)]
pub struct ConnLimits {
    /// Maximum open file handles per session.
    pub max_open_handles: u32,
    /// Deadline for each RPC.
    pub rpc_timeout: Duration,
    /// Force each file to disk when its handle is released.
    pub sync_on_close: bool,
    /// Force the parent directory to disk after its entries changed.
    pub sync_metadata: bool,
}

impl Default for ConnLimits {
    fn default() -> (res: Self)
        ensures
            res.max_open_handles == 8192,
            res.rpc_timeout.nanos() == 30_000_000_000,
            !res.sync_on_close,
            !res.sync_metadata,
    {
        ConnLimits {
            max_open_handles: 8192,
            rpc_timeout: Duration::from_secs(30),
            sync_on_close: false,
            sync_metadata: false,
        }
    }
}

impl ConnLimits {
    /// The limits that a configuration asks for.
    pub fn from_config(cfg: &Config) -> (res: Self)
        ensures
            res.max_open_handles == cfg.limits.max_open_handles,
            res.rpc_timeout.nanos() == cfg.limits.rpc_timeout_ms * 1_000_000,
            res.sync_on_close == cfg.durability.sync_on_close,
            res.sync_metadata == cfg.durability.sync_metadata,
    {
        ConnLimits {
            max_open_handles: cfg.limits.max_open_handles,
            rpc_timeout: Duration::from_millis(cfg.limits.rpc_timeout_ms),
            sync_on_close: cfg.durability.sync_on_close,
            sync_metadata: cfg.durability.sync_metadata,
        }
    }
}

/// How many connections are served at a time: at least one.
pub fn connection_slots(cfg: &Config) -> (res: usize)
    ensures
        res == (if cfg.server.max_clients == 0 {
            1
        } else {
            cfg.server.max_clients as int
        }),
{
    if cfg.server.max_clients == 0 {
        1
    } else {
        cfg.server.max_clients as usize
    }
}

/// Where the server's certificate and key lie: as configured if both are, else in
/// the configuration directory (the current one where there is none).
pub fn identity_paths(cfg: Option<&Config>, config_dir: Option<&str>) -> (res: (String, String))
    ensures
        ({
            let dir = match config_dir {
                Some(d) => d@,
                None => "."@,
            };
            if cfg is Some && cfg->0.tls.cert is Some && cfg->0.tls.key is Some {
                res.0@ == cfg->0.tls.cert->0@ && res.1@ == cfg->0.tls.key->0@
            } else {
                res.0@ == join(dir, "server.crt"@) && res.1@ == join(dir, "server.key"@)
            }
        }),
{
    if let Some(c) = cfg {
        if let (Some(cert), Some(key)) = (&c.tls.cert, &c.tls.key) {
            return (copy_of(cert.as_str()), copy_of(key.as_str()));
        }
    }
    let dir = match config_dir {
        Some(d) => d,
        None => ".",
    };
    (join_path(dir, "server.crt"), join_path(dir, "server.key"))
}

/// Where the authorized client keys lie: as configured, else in the configuration
/// directory, else in the current one.
pub fn authorized_keys_path(cfg: Option<&Config>, config_dir: Option<&str>) -> (res: String)
    ensures
        if cfg is Some && cfg->0.auth.authorized_keys is Some {
            res@ == cfg->0.auth.authorized_keys->0@
        } else if config_dir is Some {
            res@ == join(config_dir->0@, "authorized_keys"@)
        } else {
            res@ == "authorized_keys"@
        },
{
    if let Some(c) = cfg {
        if let Some(p) = &c.auth.authorized_keys {
            return copy_of(p.as_str());
        }
    }
    match config_dir {
        Some(d) => join_path(d, "authorized_keys"),
        None => copy_of("authorized_keys"),
    }
}

/// A configuration is accepted exactly where every value makes sense: there is room for
/// clients and for their handles, up to a million of these, no address may hold more
/// connections than there are clients, requests have time, a connection is not given up
/// before its keep-alive, and root, address and one of the five log levels are named.
pub proof fn law_sane_configurations_are_accepted(cfg: Config, res: Result<(), ConfigError>)
    requires
        call_ensures(Config::validate, (&cfg,), res),
    ensures
        res is Ok <==> {
            &&& 0 < cfg.server.max_clients
            &&& cfg.server.max_conns_per_ip <= cfg.server.max_clients
            &&& 0 < cfg.limits.max_open_handles <= 1_000_000
            &&& 0 < cfg.limits.rpc_timeout_ms
            &&& cfg.quic.keep_alive_interval_ms <= cfg.quic.idle_timeout_ms
            &&& cfg.server.export_root@.len() > 0
            &&& cfg.server.listen@.len() > 0
            &&& cfg.server.log_level@ == "error"@ || cfg.server.log_level@ == "warn"@
                || cfg.server.log_level@ == "info"@ || cfg.server.log_level@ == "debug"@
                || cfg.server.log_level@ == "trace"@
        },
{
}

} // verus!
