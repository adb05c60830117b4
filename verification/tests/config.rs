use dtr::config::{
    CheckpointSection, CoordinatorSection, EnvOverrides, IoSection, LoadFailure,
    ObservabilitySection, RuntimeConfig, RuntimeSection, S3StorageConfig, StorageBackendKind,
    StorageSection,
};
use dtr::error::DtrError;
use dtr::types::QuorumPolicy;

fn no_env() -> EnvOverrides {
    EnvOverrides {
        runtime_bind_addr: None,
        log_level: None,
        storage_backend: None,
        s3_endpoint: None,
        s3_access_key: None,
        s3_secret_key: None,
        s3_region: None,
        metrics_bind_addr: None,
    }
}

#[test]
fn minimal_config_uses_defaults() {
    let cfg = RuntimeConfig::load(Ok(RuntimeConfig::default()), no_env(), "").unwrap();
    assert_eq!(cfg.runtime.grpc_bind, "0.0.0.0:50051");
    assert_eq!(cfg.storage.backend, StorageBackendKind::Fs);
    assert_eq!(cfg.checkpoint.default_chunk_bytes, 64 * 1024 * 1024);
}

#[test]
fn full_config_round_trips() {
    let file = RuntimeConfig {
        runtime: RuntimeSection {
            grpc_bind: "0.0.0.0:50052".into(),
            log_level: "debug".into(),
            log_json: false,
        },
        storage: StorageSection {
            backend: StorageBackendKind::S3,
            fs: Default::default(),
            s3: S3StorageConfig {
                endpoint: Some("http://minio:9000".into()),
                region: Some("us-east-1".into()),
                access_key_id: None,
                secret_access_key: None,
                force_path_style: true,
                allow_http: true,
            },
        },
        coordinator: CoordinatorSection {
            heartbeat_interval_ms: 2000,
            missed_heartbeats_allowed: 5,
            lease_ttl_ms: 30000,
            default_shards_per_lease: 4,
        },
        checkpoint: CheckpointSection {
            quorum: QuorumPolicy::Fraction(0.9f64.to_bits()),
            barrier_timeout_ms: 120000,
            default_chunk_bytes: 8388608,
            gc_orphan_after_ms: 60000,
        },
        io: IoSection {
            cache_bytes: 1073741824,
            prefetch_depth: 8,
        },
        observability: ObservabilitySection {
            metrics_bind: Some("0.0.0.0:9091".into()),
        },
    };
    let cfg = RuntimeConfig::load(Ok(file), no_env(), "0.9").unwrap();
    assert_eq!(cfg.storage.backend, StorageBackendKind::S3);
    assert_eq!(
        cfg.checkpoint.quorum,
        QuorumPolicy::Fraction(0.9f64.to_bits())
    );
    assert_eq!(cfg.io.prefetch_depth, 8);
}

#[test]
fn lease_shorter_than_heartbeat_rejected() {
    let mut file = RuntimeConfig::default();
    file.coordinator = CoordinatorSection {
        heartbeat_interval_ms: 10000,
        missed_heartbeats_allowed: 3,
        lease_ttl_ms: 5000,
        default_shards_per_lease: 1,
    };
    let err = RuntimeConfig::load(Ok(file), no_env(), "").unwrap_err();
    assert!(matches!(err, DtrError::Config(_)));
    assert_eq!(
        err.to_string(),
        "configuration error: lease_ttl_ms (5000) must be >= heartbeat_interval_ms (10000)"
    );
}

#[test]
fn invalid_quorum_fraction_rejected() {
    let mut file = RuntimeConfig::default();
    file.checkpoint = CheckpointSection {
        quorum: QuorumPolicy::Fraction(1.5f64.to_bits()),
        barrier_timeout_ms: 1,
        default_chunk_bytes: 1,
        gc_orphan_after_ms: 1,
    };
    let err = RuntimeConfig::load(Ok(file), no_env(), "1.5").unwrap_err();
    assert_eq!(
        err.to_string(),
        "configuration error: checkpoint quorum fraction must be in (0, 1], got 1.5"
    );
}

#[test]
fn defaults_are_the_documented_ones() {
    let cfg = RuntimeConfig::default();
    assert_eq!(cfg.runtime.log_level, "info");
    assert!(cfg.runtime.log_json);
    assert_eq!(cfg.storage.fs.root_dir, "/mnt/dtr");
    assert!(cfg.storage.s3.endpoint.is_none());
    assert_eq!(cfg.coordinator.heartbeat_interval_ms, 5000);
    assert_eq!(cfg.coordinator.missed_heartbeats_allowed, 3);
    assert_eq!(cfg.coordinator.lease_ttl_ms, 60000);
    assert_eq!(cfg.coordinator.default_shards_per_lease, 1);
    assert_eq!(cfg.checkpoint.quorum, QuorumPolicy::AllRanks);
    assert_eq!(cfg.checkpoint.barrier_timeout_ms, 600000);
    assert_eq!(cfg.checkpoint.gc_orphan_after_ms, 3600000);
    assert_eq!(cfg.io.cache_bytes, 4294967296);
    assert_eq!(cfg.io.prefetch_depth, 4);
    assert_eq!(
        cfg.observability.metrics_bind.as_deref(),
        Some("0.0.0.0:9090")
    );
}

#[test]
fn environment_wins_over_the_file() {
    let env = EnvOverrides {
        runtime_bind_addr: Some("1.2.3.4:5".into()),
        log_level: Some("warn".into()),
        storage_backend: Some("s3".into()),
        s3_endpoint: Some("http://minio:9000".into()),
        s3_access_key: Some("key".into()),
        s3_secret_key: Some("hidden".into()),
        s3_region: Some("eu".into()),
        metrics_bind_addr: Some("5.6.7.8:9".into()),
    };
    let cfg = RuntimeConfig::load(Ok(RuntimeConfig::default()), env, "").unwrap();
    assert_eq!(cfg.runtime.grpc_bind, "1.2.3.4:5");
    assert_eq!(cfg.runtime.log_level, "warn");
    assert_eq!(cfg.storage.backend, StorageBackendKind::S3);
    let s3 = &cfg.storage.s3;
    assert_eq!(s3.endpoint.as_deref(), Some("http://minio:9000"));
    assert!(s3.force_path_style);
    assert!(s3.allow_http);
    assert_eq!(s3.access_key_id.as_deref(), Some("key"));
    assert_eq!(s3.secret_access_key.as_deref(), Some("hidden"));
    assert_eq!(s3.region.as_deref(), Some("eu"));
    assert_eq!(cfg.observability.metrics_bind.as_deref(), Some("5.6.7.8:9"));
}

#[test]
fn secure_endpoint_disallows_http_and_odd_backends_are_ignored() {
    let mut cfg = RuntimeConfig::default();
    cfg.storage.s3.allow_http = true;
    let mut env = no_env();
    env.s3_endpoint = Some("https://store".into());
    env.storage_backend = Some("gcs".into());
    cfg.apply_env_overrides(env);
    assert!(!cfg.storage.s3.allow_http);
    assert!(cfg.storage.s3.force_path_style);
    assert_eq!(cfg.storage.backend, StorageBackendKind::Fs);
    let mut env = no_env();
    env.storage_backend = Some("s3".into());
    cfg.apply_env_overrides(env);
    assert_eq!(cfg.storage.backend, StorageBackendKind::S3);
    let mut env = no_env();
    env.storage_backend = Some("fs".into());
    cfg.apply_env_overrides(env);
    assert_eq!(cfg.storage.backend, StorageBackendKind::Fs);
}

#[test]
fn load_failures_are_configuration_errors() {
    let err = RuntimeConfig::load(
        Err(LoadFailure::Unreadable {
            path: "a.yaml".into(),
            cause: "gone".into(),
        }),
        no_env(),
        "",
    )
    .unwrap_err();
    assert_eq!(
        err.to_string(),
        "configuration error: cannot read a.yaml: gone"
    );
    let err = RuntimeConfig::load(
        Err(LoadFailure::Invalid {
            cause: "unknown field".into(),
        }),
        no_env(),
        "",
    )
    .unwrap_err();
    assert_eq!(
        err.to_string(),
        "configuration error: invalid YAML: unknown field"
    );
}

#[test]
fn validate_accepts_equal_ttl_and_interval() {
    let mut cfg = RuntimeConfig::default();
    cfg.coordinator.lease_ttl_ms = 5000;
    assert!(cfg.validate("").is_ok());
    cfg.coordinator.lease_ttl_ms = 4999;
    assert!(cfg.validate("").is_err());
}
