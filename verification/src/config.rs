//! Typed runtime configuration with environment overrides.
//!
//! Every field has a sane local-dev default so a minimal document boots the
//! server.

use crate::error::DtrError;
use crate::error::ErrorView;
use crate::text;
use crate::types::QuorumPolicy;
use vstd::prelude::*;

verus! {

#[derive(Debug)]
pub struct RuntimeConfig {
    pub runtime: RuntimeSection,
    pub storage: StorageSection,
    pub coordinator: CoordinatorSection,
    pub checkpoint: CheckpointSection,
    pub io: IoSection,
    pub observability: ObservabilitySection,
}

#[derive(Debug)]
pub struct RuntimeSection {
    /// gRPC bind address, e.g. "0.0.0.0:50051".
    pub grpc_bind: String,
    /// Log level filter: trace|debug|info|warn|error.
    pub log_level: String,
    /// Emit logs as JSON (true in production, false for human-readable dev logs).
    pub log_json: bool,
}

#[derive(Debug, Clone, Copy, PartialEq, Eq, Structural)]
pub enum StorageBackendKind {
    Fs,
    S3,
}

#[derive(Debug)]
pub struct StorageSection {
    pub backend: StorageBackendKind,
    pub fs: FsStorageConfig,
    pub s3: S3StorageConfig,
}

#[derive(Debug)]
pub struct FsStorageConfig {
    /// Root directory all `file://` URIs resolve under.
    pub root_dir: String,
}

#[derive(Debug)]
pub struct S3StorageConfig {
    /// Custom endpoint for S3-compatible stores (MinIO, GCS/Azure gateways).
    /// None = real AWS S3 resolved from the region.
    pub endpoint: Option<String>,
    pub region: Option<String>,
    /// Credentials resolve from the environment / workload identity when None.
    pub access_key_id: Option<String>,
    pub secret_access_key: Option<String>,
    /// Path-style addressing (required by MinIO).
    pub force_path_style: bool,
    pub allow_http: bool,
}

#[derive(Debug, Clone, Copy, PartialEq, Eq, Structural)]
pub struct CoordinatorSection {
    pub heartbeat_interval_ms: u64,
    pub missed_heartbeats_allowed: u32,
    pub lease_ttl_ms: u64,
    /// Default shards granted per lease when the client does not ask for a count.
    pub default_shards_per_lease: u32,
}

#[derive(Debug, Clone, Copy, PartialEq, Eq, Structural)]
pub struct CheckpointSection {
    pub quorum: QuorumPolicy,
    /// Barrier deadline: abort the checkpoint if quorum is not met in time.
    pub barrier_timeout_ms: u64,
    /// Default chunk size when the client spec omits it.
    pub default_chunk_bytes: u64,
    /// tmp/ directories older than this are GC-eligible.
    pub gc_orphan_after_ms: u64,
}

#[derive(Debug, Clone, Copy, PartialEq, Eq, Structural)]
pub struct IoSection {
    /// In-memory read cache budget in bytes.
    pub cache_bytes: u64,
    /// How many objects ahead the prefetcher warms.
    pub prefetch_depth: u32,
}

#[derive(Debug)]
pub struct ObservabilitySection {
    /// HTTP bind address for /metrics (Prometheus). None disables the endpoint.
    pub metrics_bind: Option<String>,
}

impl Default for RuntimeSection {
    fn default() -> (out: Self)
        ensures
            out.grpc_bind@ == "0.0.0.0:50051"@,
            out.log_level@ == "info"@,
            out.log_json,
    {
        Self {
            grpc_bind: "0.0.0.0:50051".to_owned(),
            log_level: "info".to_owned(),
            log_json: true,
        }
    }
}

impl Default for FsStorageConfig {
    fn default() -> (out: Self)
        ensures
            out.root_dir@ == "/mnt/dtr"@,
    {
        Self { root_dir: "/mnt/dtr".to_owned() }
    }
}

impl Default for S3StorageConfig {
    fn default() -> (out: Self)
        ensures
            out.endpoint is None,
            out.region is None,
            out.access_key_id is None,
            out.secret_access_key is None,
            !out.force_path_style,
            !out.allow_http,
    {
        Self {
            endpoint: None,
            region: None,
            access_key_id: None,
            secret_access_key: None,
            force_path_style: false,
            allow_http: false,
        }
    }
}

impl Default for StorageSection {
    fn default() -> (out: Self)
        ensures
            out.backend == StorageBackendKind::Fs,
            out.fs.root_dir@ == "/mnt/dtr"@,
            out.s3.endpoint is None,
            out.s3.region is None,
            out.s3.access_key_id is None,
            out.s3.secret_access_key is None,
            !out.s3.force_path_style,
            !out.s3.allow_http,
    {
        Self {
            backend: StorageBackendKind::Fs,
            fs: FsStorageConfig::default(),
            s3: S3StorageConfig::default(),
        }
    }
}

impl Default for CoordinatorSection {
    fn default() -> (out: Self)
        ensures
            out.heartbeat_interval_ms == 5_000,
            out.missed_heartbeats_allowed == 3,
            out.lease_ttl_ms == 60_000,
            out.default_shards_per_lease == 1,
    {
        Self {
            heartbeat_interval_ms: 5_000,
            missed_heartbeats_allowed: 3,
            lease_ttl_ms: 60_000,
            default_shards_per_lease: 1,
        }
    }
}

impl Default for CheckpointSection {
    fn default() -> (out: Self)
        ensures
            out.quorum == QuorumPolicy::AllRanks,
            out.barrier_timeout_ms == 600_000,
            out.default_chunk_bytes == 64 * 1024 * 1024,
            out.gc_orphan_after_ms == 3_600_000,
    {
        Self {
            quorum: QuorumPolicy::AllRanks,
            barrier_timeout_ms: 600_000,
            default_chunk_bytes: 64 * 1024 * 1024,
            gc_orphan_after_ms: 3_600_000,
        }
    }
}

impl Default for IoSection {
    fn default() -> (out: Self)
        ensures
            out.cache_bytes == 4 * 1024 * 1024 * 1024,
            out.prefetch_depth == 4,
    {
        Self { cache_bytes: 4 * 1024 * 1024 * 1024, prefetch_depth: 4 }
    }
}

impl Default for ObservabilitySection {
    fn default() -> (out: Self)
        ensures
            text::optional(out.metrics_bind) == Some("0.0.0.0:9090"@),
    {
        Self { metrics_bind: Some("0.0.0.0:9090".to_owned()) }
    }
}

impl Default for RuntimeConfig {
    fn default() -> (out: Self)
        ensures
            out.runtime.grpc_bind@ == "0.0.0.0:50051"@,
            out.runtime.log_level@ == "info"@,
            out.runtime.log_json,
            out.storage.backend == StorageBackendKind::Fs,
            out.storage.fs.root_dir@ == "/mnt/dtr"@,
            out.storage.s3.endpoint is None,
            out.storage.s3.region is None,
            out.storage.s3.access_key_id is None,
            out.storage.s3.secret_access_key is None,
            !out.storage.s3.force_path_style,
            !out.storage.s3.allow_http,
            out.coordinator == (CoordinatorSection {
                heartbeat_interval_ms: 5_000,
                missed_heartbeats_allowed: 3,
                lease_ttl_ms: 60_000,
                default_shards_per_lease: 1,
            }),
            out.checkpoint == (CheckpointSection {
                quorum: QuorumPolicy::AllRanks,
                barrier_timeout_ms: 600_000,
                default_chunk_bytes: 67_108_864,
                gc_orphan_after_ms: 3_600_000,
            }),
            out.io == (IoSection { cache_bytes: 4_294_967_296, prefetch_depth: 4 }),
            text::optional(out.observability.metrics_bind) == Some("0.0.0.0:9090"@),
            out.valid(),
    {
        Self {
            runtime: RuntimeSection::default(),
            storage: StorageSection::default(),
            coordinator: CoordinatorSection::default(),
            checkpoint: CheckpointSection::default(),
            io: IoSection::default(),
            observability: ObservabilitySection::default(),
        }
    }
}

/// The environment variables that override file values, as they were found:
/// RUNTIME_BIND_ADDR, LOG_LEVEL, STORAGE_BACKEND, S3_ENDPOINT, S3_ACCESS_KEY,
/// S3_SECRET_KEY, S3_REGION, METRICS_BIND_ADDR.
#[derive(Debug)]
pub struct EnvOverrides {
    pub runtime_bind_addr: Option<String>,
    pub log_level: Option<String>,
    pub storage_backend: Option<String>,
    pub s3_endpoint: Option<String>,
    pub s3_access_key: Option<String>,
    pub s3_secret_key: Option<String>,
    pub s3_region: Option<String>,
    pub metrics_bind_addr: Option<String>,
}

/// Why no configuration could be read at all.
#[derive(Debug)]
pub enum LoadFailure {
    /// The file could not be read.
    Unreadable { path: String, cause: String },
    /// The file is no valid YAML for the schema.
    Invalid { cause: String },
}

impl LoadFailure {
    /// The failure as the message of a configuration error.
    pub open spec fn message(self) -> Seq<char> {
        match self {
            LoadFailure::Unreadable { path, cause } => "cannot read "@ + path@ + ": "@ + cause@,
            LoadFailure::Invalid { cause } => "invalid YAML: "@ + cause@,
        }
    }
}

/// The value of an override, or else what was there before.
pub open spec fn overridden(value: Option<String>, before: Seq<char>) -> Seq<char> {
    match value {
        Some(v) => v@,
        None => before,
    }
}

/// The value of an override, or else what was there before, if anything.
pub open spec fn overridden_optional(value: Option<String>, before: Option<String>) -> Option<
    Seq<char>,
> {
    match value {
        Some(v) => Some(v@),
        None => text::optional(before),
    }
}

/// The backend that STORAGE_BACKEND selects; other names select none.
pub open spec fn selected_backend(
    value: Option<String>,
    before: StorageBackendKind,
) -> StorageBackendKind {
    match value {
        Some(v) => if v@ == "fs"@ {
            StorageBackendKind::Fs
        } else if v@ == "s3"@ {
            StorageBackendKind::S3
        } else {
            before
        },
        None => before,
    }
}

/// Why leases that are shorter than a heartbeat are refused.
pub open spec fn ttl_message(lease_ttl_ms: u64, heartbeat_interval_ms: u64) -> Seq<char> {
    "lease_ttl_ms ("@ + text::decimal(lease_ttl_ms as nat)
        + ") must be >= heartbeat_interval_ms ("@ + text::decimal(heartbeat_interval_ms as nat)
        + ")"@
}

/// Why a quorum fraction is refused.
pub open spec fn fraction_message(fraction: Seq<char>) -> Seq<char> {
    "checkpoint quorum fraction must be in (0, 1], got "@ + fraction
}

impl RuntimeConfig {
    /// Leases outlive a heartbeat interval, and the quorum policy makes sense.
    pub open spec fn valid(self) -> bool {
        &&& self.coordinator.lease_ttl_ms >= self.coordinator.heartbeat_interval_ms
        &&& self.checkpoint.quorum.valid()
    }

    /// `self` is `before` with the overrides in `env` applied.
    pub open spec fn overrides(self, before: RuntimeConfig, env: EnvOverrides) -> bool {
        let s3 = self.storage.s3;
        let s3_before = before.storage.s3;
        &&& self.runtime.grpc_bind@ == overridden(env.runtime_bind_addr, before.runtime.grpc_bind@)
        &&& self.runtime.log_level@ == overridden(env.log_level, before.runtime.log_level@)
        &&& self.runtime.log_json == before.runtime.log_json
        &&& self.storage.backend == selected_backend(env.storage_backend, before.storage.backend)
        &&& self.storage.fs.root_dir@ == before.storage.fs.root_dir@
        &&& text::optional(s3.endpoint) == overridden_optional(env.s3_endpoint, s3_before.endpoint)
        &&& s3.allow_http == (match env.s3_endpoint {
            Some(v) => text::starts_with(v@, "http://"@),
            None => s3_before.allow_http,
        })
        &&& s3.force_path_style == (env.s3_endpoint is Some || s3_before.force_path_style)
        &&& text::optional(s3.access_key_id) == overridden_optional(
            env.s3_access_key,
            s3_before.access_key_id,
        )
        &&& text::optional(s3.secret_access_key) == overridden_optional(
            env.s3_secret_key,
            s3_before.secret_access_key,
        )
        &&& text::optional(s3.region) == overridden_optional(env.s3_region, s3_before.region)
        &&& self.coordinator == before.coordinator
        &&& self.checkpoint == before.checkpoint
        &&& self.io == before.io
        &&& text::optional(self.observability.metrics_bind) == overridden_optional(
            env.metrics_bind_addr,
            before.observability.metrics_bind,
        )
    }

    /// Applies the environment to a parsed file and validates the outcome.
    /// `fraction` is the quorum fraction as messages show it.
    pub fn load(
        parsed: Result<RuntimeConfig, LoadFailure>,
        env: EnvOverrides,
        fraction: &str,
    ) -> (out: Result<RuntimeConfig, DtrError>)
        ensures
            match (parsed, out) {
                (Err(failure), Err(e)) => e@ == ErrorView::Config(failure.message()),
                (Err(_), Ok(_)) => false,
                (Ok(file), Ok(cfg)) => cfg.overrides(file, env) && cfg.valid(),
                (Ok(file), Err(e)) => !file.valid() && e@ == ErrorView::Config(
                    if file.coordinator.lease_ttl_ms < file.coordinator.heartbeat_interval_ms {
                        ttl_message(
                            file.coordinator.lease_ttl_ms,
                            file.coordinator.heartbeat_interval_ms,
                        )
                    } else {
                        fraction_message(fraction@)
                    },
                ),
            },
    {
        match parsed {
            Err(LoadFailure::Unreadable { path, cause }) => {
                let mut message: String = "cannot read ".to_owned();
                message.append(path.as_str());
                message.append(": ");
                message.append(cause.as_str());
                Err(DtrError::Config(message))
            },
            Err(LoadFailure::Invalid { cause }) => Err(
                DtrError::Config(text::join2("invalid YAML: ", cause.as_str())),
            ),
            Ok(file) => {
                let mut cfg: RuntimeConfig = file;
                cfg.apply_env_overrides(env);
                match cfg.validate(fraction) {
                    Err(e) => Err(e),
                    Ok(()) => Ok(cfg),
                }
            },
        }
    }

    /// Environment variables override file values so images stay generic.
    pub fn apply_env_overrides(&mut self, env: EnvOverrides)
        ensures
            final(self).overrides(*old(self), env),
    {
        if let Some(v) = env.runtime_bind_addr {
            self.runtime.grpc_bind = v;
        }
        if let Some(v) = env.log_level {
            self.runtime.log_level = v;
        }
        if let Some(v) = env.storage_backend {
            if text::same(v.as_str(), "fs") {
                self.storage.backend = StorageBackendKind::Fs;
            } else if text::same(v.as_str(), "s3") {
                self.storage.backend = StorageBackendKind::S3;
            }
        }
        if let Some(v) = env.s3_endpoint {
            self.storage.s3.allow_http = text::begins_with(v.as_str(), "http://");
            self.storage.s3.endpoint = Some(v);
            self.storage.s3.force_path_style = true;
        }
        if let Some(v) = env.s3_access_key {
            self.storage.s3.access_key_id = Some(v);
        }
        if let Some(v) = env.s3_secret_key {
            self.storage.s3.secret_access_key = Some(v);
        }
        if let Some(v) = env.s3_region {
            self.storage.s3.region = Some(v);
        }
        if let Some(v) = env.metrics_bind_addr {
            self.observability.metrics_bind = Some(v);
        }
    }

    /// Refuses leases that are shorter than a heartbeat interval, so a healthy
    /// worker can never lose a lease between heartbeats, and quorum fractions
    /// outside (0, 1]. `fraction` is the quorum fraction as messages show it.
    pub fn validate(&self, fraction: &str) -> (out: Result<(), DtrError>)
        ensures
            match out {
                Ok(()) => self.valid(),
                Err(e) => !self.valid() && e@ == ErrorView::Config(
                    if self.coordinator.lease_ttl_ms < self.coordinator.heartbeat_interval_ms {
                        ttl_message(
                            self.coordinator.lease_ttl_ms,
                            self.coordinator.heartbeat_interval_ms,
                        )
                    } else {
                        fraction_message(fraction@)
                    },
                ),
            },
    {
        if self.coordinator.lease_ttl_ms < self.coordinator.heartbeat_interval_ms {
            let mut message: String = "lease_ttl_ms (".to_owned();
            message.append(text::decimal_string(self.coordinator.lease_ttl_ms).as_str());
            message.append(") must be >= heartbeat_interval_ms (");
            message.append(text::decimal_string(self.coordinator.heartbeat_interval_ms).as_str());
            message.append(")");
            return Err(DtrError::Config(message));
        }
        if !self.checkpoint.quorum.is_valid() {
            return Err(
                DtrError::Config(
                    text::join2("checkpoint quorum fraction must be in (0, 1], got ", fraction),
                ),
            );
        }
        Ok(())
    }
}

/// What the environment sets is taken over, and what it does not set stays as it
/// was. An endpoint brings path-style addressing with it, and plain HTTP exactly if
/// it says so; a backend that is not known is passed over.
pub proof fn the_environment_overrides_what_it_sets(
    cfg: RuntimeConfig,
    before: RuntimeConfig,
    env: EnvOverrides,
)
    requires
        cfg.overrides(before, env),
    ensures
        match env.runtime_bind_addr {
            Some(v) => cfg.runtime.grpc_bind@ == v@,
            None => cfg.runtime.grpc_bind@ == before.runtime.grpc_bind@,
        },
        match env.log_level {
            Some(v) => cfg.runtime.log_level@ == v@,
            None => cfg.runtime.log_level@ == before.runtime.log_level@,
        },
        cfg.runtime.log_json == before.runtime.log_json,
        match env.storage_backend {
            Some(v) => {
                &&& v@ == "fs"@ ==> cfg.storage.backend == StorageBackendKind::Fs
                &&& v@ == "s3"@ ==> cfg.storage.backend == StorageBackendKind::S3
                &&& v@ != "fs"@ && v@ != "s3"@ ==> cfg.storage.backend == before.storage.backend
            },
            None => cfg.storage.backend == before.storage.backend,
        },
        cfg.storage.fs.root_dir@ == before.storage.fs.root_dir@,
        match env.s3_endpoint {
            Some(v) => {
                &&& cfg.storage.s3.endpoint is Some
                &&& cfg.storage.s3.endpoint->0@ == v@
                &&& cfg.storage.s3.force_path_style
                &&& cfg.storage.s3.allow_http <==> v@.len() >= "http://"@.len() && v@.subrange(
                    0,
                    "http://"@.len() as int,
                ) == "http://"@
            },
            None => {
                &&& cfg.storage.s3.endpoint is Some <==> before.storage.s3.endpoint is Some
                &&& cfg.storage.s3.endpoint is Some ==> cfg.storage.s3.endpoint->0@
                    == before.storage.s3.endpoint->0@
                &&& cfg.storage.s3.force_path_style == before.storage.s3.force_path_style
                &&& cfg.storage.s3.allow_http == before.storage.s3.allow_http
            },
        },
        match env.s3_access_key {
            Some(v) => cfg.storage.s3.access_key_id is Some && cfg.storage.s3.access_key_id->0@
                == v@,
            None => (cfg.storage.s3.access_key_id is Some
                <==> before.storage.s3.access_key_id is Some) && (
            cfg.storage.s3.access_key_id is Some ==> cfg.storage.s3.access_key_id->0@
                == before.storage.s3.access_key_id->0@),
        },
        match env.s3_secret_key {
            Some(v) => cfg.storage.s3.secret_access_key is Some
                && cfg.storage.s3.secret_access_key->0@ == v@,
            None => (cfg.storage.s3.secret_access_key is Some
                <==> before.storage.s3.secret_access_key is Some) && (
            cfg.storage.s3.secret_access_key is Some ==> cfg.storage.s3.secret_access_key->0@
                == before.storage.s3.secret_access_key->0@),
        },
        match env.s3_region {
            Some(v) => cfg.storage.s3.region is Some && cfg.storage.s3.region->0@ == v@,
            None => (cfg.storage.s3.region is Some <==> before.storage.s3.region is Some) && (
            cfg.storage.s3.region is Some ==> cfg.storage.s3.region->0@
                == before.storage.s3.region->0@),
        },
        match env.metrics_bind_addr {
            Some(v) => cfg.observability.metrics_bind is Some
                && cfg.observability.metrics_bind->0@ == v@,
            None => (cfg.observability.metrics_bind is Some
                <==> before.observability.metrics_bind is Some) && (
            cfg.observability.metrics_bind is Some ==> cfg.observability.metrics_bind->0@
                == before.observability.metrics_bind->0@),
        },
        cfg.coordinator == before.coordinator,
        cfg.checkpoint == before.checkpoint,
        cfg.io == before.io,
{
    reveal_strlit("fs");
    reveal_strlit("s3");
    assert("fs"@[0] != "s3"@[0]);
}

/// A configuration is valid exactly if leases last at least a heartbeat interval and
/// a quorum fraction lies above zero and not above one, and what is refused is told.
pub proof fn leases_last_a_heartbeat_interval(
    cfg: RuntimeConfig,
    ttl: u64,
    interval: u64,
    fraction: Seq<char>,
)
    ensures
        cfg.valid() <==> cfg.coordinator.lease_ttl_ms >= cfg.coordinator.heartbeat_interval_ms && (
        match cfg.checkpoint.quorum {
            QuorumPolicy::AllRanks => true,
            QuorumPolicy::Fraction(bits) => 0 < bits <= 0x3FF0_0000_0000_0000,
        }),
        ttl_message(ttl, interval) == "lease_ttl_ms ("@ + text::decimal(ttl as nat)
            + ") must be >= heartbeat_interval_ms ("@ + text::decimal(interval as nat) + ")"@,
        fraction_message(fraction) == "checkpoint quorum fraction must be in (0, 1], got "@
            + fraction,
{
}

/// A file that cannot be read and one that cannot be understood are told apart.
pub proof fn load_failures_are_told(path: String, cause: String)
    ensures
        (LoadFailure::Unreadable { path, cause }).message() == "cannot read "@ + path@ + ": "@
            + cause@,
        (LoadFailure::Invalid { cause }).message() == "invalid YAML: "@ + cause@,
{
}

} // verus!
