use bytes::Bytes;
use dtr::checkpoint::sha256_hex;
use dtr::checkpoint_svc as checkpoint;
use dtr::checkpoint_svc::{CommitStart, CommitStatus};
use dtr::cli::{parse_config_path, Command};
use dtr::config::RuntimeConfig;
use dtr::data_svc as data;
use dtr::data_svc::{Frames, Upload, UploadFrame, UploadHeader};
use dtr::error::DtrError;
use dtr::manifest::{ChunkRecord, Manifest};
use dtr::metrics::sample_state;
use dtr::recover::RecoverAction;
use dtr::runtime_svc as runtime;
use dtr::state::AppState;
use dtr::status::{code_of, refuse, timestamp_after, to_status, Code, Timestamp};
use dtr::storage::ObjectMeta;
use dtr::types::{CheckpointToken, TargetId};
use std::collections::HashMap;

const MS: u128 = 1_000_000;
const WALL: i128 = 1_700_000_000_123_456_789;

fn fresh() -> AppState {
    AppState::new(RuntimeConfig::default())
}

fn join(state: &mut AppState, worker: &str, rank: u32, world_size: u32) {
    let token = format!("{worker}-token");
    let response = runtime::register_worker_at(
        state,
        runtime::RegisterWorkerRequest {
            worker_id: worker.into(),
            rank,
            world_size,
            labels: HashMap::new(),
        },
        0,
        &token,
    )
    .unwrap();
    assert_eq!(response.session_token, token);
    assert_eq!(response.heartbeat_interval_ms, 5000);
    assert_eq!(response.missed_heartbeats_allowed, 3);
}

fn record(key: &str, rank: u32, size_bytes: u64) -> ChunkRecord {
    ChunkRecord {
        key: key.into(),
        size_bytes,
        sha256: sha256_hex(b"data"),
        rank,
        part_index: 0,
    }
}

fn begun(state: &mut AppState) -> (String, String) {
    let target = checkpoint::register_checkpoint_target(
        state,
        checkpoint::RegisterCheckpointTargetRequest {
            worker_id: "w0".into(),
            session_token: "w0-token".into(),
            spec: Some(checkpoint::CheckpointSpec {
                uri: "s3://bucket/ckpt/run".into(),
                chunk_bytes: 0,
                keep_last: 2,
                write_mode: "atomic".into(),
            }),
        },
    )
    .unwrap()
    .target_id;
    let response = begin(state, "w0", &target, 7, "u").unwrap();
    (target, response.checkpoint_token)
}

fn begin(
    state: &mut AppState,
    worker: &str,
    target: &str,
    step: u64,
    uuid: &str,
) -> Result<checkpoint::BeginCheckpointResponse, dtr::status::Status> {
    checkpoint::begin_checkpoint_at(
        state,
        checkpoint::BeginCheckpointRequest {
            worker_id: worker.into(),
            session_token: format!("{worker}-token"),
            target_id: target.into(),
            step,
        },
        0,
        uuid,
        WALL,
    )
}

fn report(
    state: &mut AppState,
    worker: &str,
    token: &str,
    chunks: Vec<ChunkRecord>,
    rank_complete: bool,
) -> Result<u32, dtr::status::Status> {
    checkpoint::report_chunk_at(
        state,
        checkpoint::ReportChunkRequest {
            worker_id: worker.into(),
            session_token: format!("{worker}-token"),
            checkpoint_token: token.into(),
            chunks,
            rank_complete,
        },
        0,
    )
}

fn ask_commit(state: &mut AppState, worker: &str, token: &str) -> CommitStart {
    checkpoint::commit_start_at(
        state,
        checkpoint::CommitCheckpointRequest {
            worker_id: worker.into(),
            session_token: format!("{worker}-token"),
            checkpoint_token: token.into(),
        },
        0,
    )
}

fn answer(start: CommitStart) -> (CommitStatus, String) {
    match start {
        CommitStart::Answer(Ok(response)) => (response.status, response.manifest_key),
        CommitStart::Answer(Err(status)) => panic!("refused: {status:?}"),
        CommitStart::Verify { .. } => panic!("not answered"),
    }
}

#[test]
fn errors_map_to_stable_codes() {
    let text = || "x".to_string();
    let both = |c: &dyn Fn(String, String) -> DtrError| c(text(), text());
    for (err, code, label) in [
        (DtrError::Config(text()), Code::Internal, "internal"),
        (DtrError::Internal(text()), Code::Internal, "internal"),
        (
            DtrError::storage("a", "b"),
            Code::Unavailable,
            "unavailable",
        ),
        (DtrError::UnknownWorker(text()), Code::NotFound, "not_found"),
        (
            DtrError::InvalidSession(text()),
            Code::Unauthenticated,
            "unauthenticated",
        ),
        (
            DtrError::UnknownDataset(text()),
            Code::NotFound,
            "not_found",
        ),
        (DtrError::UnknownLease(text()), Code::NotFound, "not_found"),
        (
            DtrError::UnknownCheckpoint(text()),
            Code::NotFound,
            "not_found",
        ),
        (
            DtrError::LeaseExpired(text()),
            Code::FailedPrecondition,
            "failed_precondition",
        ),
        (
            both(&|token, reason| DtrError::CheckpointNotReady { token, reason }),
            Code::FailedPrecondition,
            "failed_precondition",
        ),
        (
            both(&|token, reason| DtrError::CheckpointCorrupt { token, reason }),
            Code::DataLoss,
            "data_loss",
        ),
        (
            both(&|token, reason| DtrError::CheckpointAborted { token, reason }),
            Code::Aborted,
            "aborted",
        ),
        (
            DtrError::InvalidArgument(text()),
            Code::InvalidArgument,
            "invalid_argument",
        ),
    ] {
        let message = err.to_string();
        let status = to_status(err);
        assert_eq!((status.code, status.message.as_str()), (code, &*message));
        assert_eq!(code.label(), label);
    }
    assert_eq!(code_of::<()>(&Ok(())), "ok");
    assert_eq!(
        code_of::<()>(&Err(refuse(Code::DataLoss, "x"))),
        "data_loss"
    );
}

#[test]
fn timestamps_are_split_into_seconds_and_nanos() {
    assert_eq!(
        timestamp_after(WALL, 1_500),
        Timestamp {
            seconds: 1_700_000_001,
            nanos: 623_456_789
        }
    );
    assert_eq!(
        timestamp_after(-5, 0),
        Timestamp {
            seconds: 0,
            nanos: 0
        }
    );
    assert_eq!(
        timestamp_after(-1_000_000, 2),
        Timestamp {
            seconds: 0,
            nanos: 1_000_000
        }
    );
}

#[test]
fn workers_need_a_name() {
    let mut state = fresh();
    let refused = runtime::register_worker_at(
        &mut state,
        runtime::RegisterWorkerRequest {
            worker_id: "".into(),
            rank: 0,
            world_size: 1,
            labels: HashMap::new(),
        },
        0,
        "t",
    )
    .unwrap_err();
    assert_eq!(refused.code, Code::InvalidArgument);
    assert_eq!(refused.message, "worker_id must not be empty");
}

#[test]
fn heartbeats_tell_strangers_to_register() {
    let mut state = fresh();
    join(&mut state, "w0", 0, 1);
    let beat = |state: &mut AppState, worker: &str, token: &str| {
        runtime::heartbeat_at(
            state,
            runtime::HeartbeatRequest {
                worker_id: worker.into(),
                session_token: token.into(),
                current_step: 3,
            },
            MS,
            WALL,
        )
    };
    let fine = beat(&mut state, "w0", "w0-token").unwrap();
    assert!(!fine.must_reregister);
    assert_eq!(fine.server_time.unwrap().seconds, 1_700_000_000);
    assert!(beat(&mut state, "w9", "x").unwrap().must_reregister);
    let refused = beat(&mut state, "w0", "x").unwrap_err();
    assert_eq!(refused.code, Code::Unauthenticated);
}

#[test]
fn lease_requests_go_through() {
    let mut state = fresh();
    join(&mut state, "w0", 0, 1);
    let register = |state: &mut AppState, token: &str, spec: Option<runtime::DatasetSpec>| {
        runtime::register_dataset(
            state,
            runtime::RegisterDatasetRequest {
                worker_id: "w0".into(),
                session_token: token.into(),
                spec,
            },
        )
    };
    let spec = |num_shards| {
        Some(runtime::DatasetSpec {
            uri: "a".into(),
            num_shards,
        })
    };
    assert_eq!(
        register(&mut state, "bad", spec(4)).unwrap_err().code,
        Code::Unauthenticated
    );
    assert_eq!(
        register(&mut state, "w0-token", None).unwrap_err().message,
        "dataset spec is required"
    );
    assert_eq!(
        register(&mut state, "w0-token", spec(0))
            .unwrap_err()
            .message,
        "num_shards must be > 0"
    );
    let dataset = register(&mut state, "w0-token", spec(3)).unwrap();
    assert!(!dataset.already_registered);
    assert!(register(&mut state, "w0-token", spec(3))
        .unwrap()
        .already_registered);

    let acquire = |state: &mut AppState, dataset: &str, now: u128, uuid: &str| {
        runtime::acquire_shard_lease_at(
            state,
            runtime::AcquireShardLeaseRequest {
                worker_id: "w0".into(),
                session_token: "w0-token".into(),
                dataset_id: dataset.into(),
                epoch: 0,
                requested_shards: 3,
            },
            now,
            uuid,
            WALL,
        )
    };
    assert_eq!(
        acquire(&mut state, "nope", 0, "u").unwrap_err().code,
        Code::NotFound
    );
    let granted = acquire(&mut state, &dataset.dataset_id, 0, "u").unwrap();
    assert_eq!(granted.lease_id, "lease-u");
    assert_eq!(granted.shards.unwrap().len(), 3);
    assert_eq!(granted.lease_ttl_ms, 60_000);
    assert_eq!(granted.expires_at.unwrap().seconds, 1_700_000_060);
    let empty = acquire(&mut state, &dataset.dataset_id, 0, "v").unwrap();
    assert_eq!(empty.lease_id, "");
    assert!(empty.shards.is_none() && empty.expires_at.is_none());
    assert_eq!(empty.lease_ttl_ms, 0);

    let renew = |state: &mut AppState, now: u128| {
        runtime::renew_shard_lease_at(
            state,
            runtime::RenewShardLeaseRequest {
                worker_id: "w0".into(),
                session_token: "w0-token".into(),
                lease_id: "lease-u".into(),
            },
            now,
            WALL,
        )
        .unwrap()
    };
    assert!(renew(&mut state, 59_999 * MS).renewed);
    let lapsed = renew(&mut state, 120_000 * MS);
    assert!(!lapsed.renewed && lapsed.expires_at.is_none());
    // Releasing an already-expired lease is a no-op, not an error.
    runtime::release_shard_lease(
        &mut state,
        runtime::ReleaseShardLeaseRequest {
            worker_id: "w0".into(),
            session_token: "w0-token".into(),
            lease_id: "lease-u".into(),
            completed: true,
        },
    )
    .unwrap();
    assert!(runtime::release_shard_lease(
        &mut state,
        runtime::ReleaseShardLeaseRequest {
            worker_id: "w0".into(),
            session_token: "".into(),
            lease_id: "lease-u".into(),
            completed: true,
        },
    )
    .is_err());
}

#[test]
fn targets_are_registered_once_per_uri() {
    let mut state = fresh();
    let (info, existed) = state.register_target("s3://b/p/", 0, 3).unwrap();
    assert!(!existed);
    assert_eq!(info.prefix, "p");
    assert_eq!(info.chunk_bytes, 64 * 1024 * 1024);
    assert_eq!(info.keep_last, 3);
    let (again, existed) = state.register_target("s3://b/p/", 5, 9).unwrap();
    assert!(existed);
    assert_eq!(again.target_id, info.target_id);
    assert_eq!((again.chunk_bytes, again.keep_last), (64 * 1024 * 1024, 3));
    let (a, _) = state.register_target("a", 5, 9).unwrap();
    assert_eq!(a.target_id.as_str(), "tgt-af63dc4c8601ec8c");
    assert_eq!(a.chunk_bytes, 5);
    assert!(state.register_target("ftp://x", 0, 0).is_err());
    assert_eq!(
        state
            .target(&TargetId::new("tgt-x"))
            .unwrap_err()
            .to_string(),
        "invalid argument: unknown target tgt-x"
    );
}

#[test]
fn target_requests_are_checked() {
    let mut state = fresh();
    join(&mut state, "w0", 0, 1);
    let register = |state: &mut AppState, spec: Option<checkpoint::CheckpointSpec>| {
        checkpoint::register_checkpoint_target(
            state,
            checkpoint::RegisterCheckpointTargetRequest {
                worker_id: "w0".into(),
                session_token: "w0-token".into(),
                spec,
            },
        )
    };
    let spec = |uri: &str, mode: &str| {
        Some(checkpoint::CheckpointSpec {
            uri: uri.into(),
            chunk_bytes: 0,
            keep_last: 0,
            write_mode: mode.into(),
        })
    };
    assert_eq!(
        register(&mut state, None).unwrap_err().message,
        "checkpoint spec is required"
    );
    assert_eq!(
        register(&mut state, spec("a", "append"))
            .unwrap_err()
            .message,
        "unsupported write_mode 'append' (v1 supports: atomic)"
    );
    assert_eq!(
        register(&mut state, spec("gs://a", "")).unwrap_err().code,
        Code::InvalidArgument
    );
    assert!(
        !register(&mut state, spec("a", ""))
            .unwrap()
            .already_registered
    );
    assert!(
        register(&mut state, spec("a", "atomic"))
            .unwrap()
            .already_registered
    );
}

#[test]
fn every_rank_gets_the_same_barrier() {
    let mut state = fresh();
    join(&mut state, "w0", 0, 2);
    join(&mut state, "w1", 1, 2);
    let (target, token) = begun(&mut state);
    let second = begin(&mut state, "w1", &target, 7, "other").unwrap();
    assert_eq!(second.checkpoint_token, token);
    assert_eq!(second.checkpoint_token, "ckpt-7-u");
    assert_eq!(second.upload_prefix, "ckpt/run/tmp/ckpt-step-7");
    assert_eq!(
        (second.expected_participants, second.required_participants),
        (2, 2)
    );
    assert_eq!(second.barrier_deadline.unwrap().seconds, 1_700_000_600);
    assert_eq!(
        begin(&mut state, "w1", "tgt-x", 7, "z").unwrap_err().code,
        Code::InvalidArgument
    );
}

#[test]
fn checkpoint_lifecycle() {
    let mut state = fresh();
    join(&mut state, "w0", 0, 2);
    join(&mut state, "w1", 1, 2);
    let (_, token) = begun(&mut state);
    assert_eq!(
        report(&mut state, "w0", &token, vec![record("k0", 0, 4)], true).unwrap(),
        1
    );
    assert_eq!(
        answer(ask_commit(&mut state, "w0", &token)),
        (CommitStatus::Pending, String::new())
    );
    assert_eq!(
        report(&mut state, "w1", &token, vec![record("k1", 1, 4)], false).unwrap(),
        1
    );
    assert_eq!(state.in_flight_steps_at(0), vec![7]);
    assert_eq!(report(&mut state, "w1", &token, vec![], true).unwrap(), 2);
    let (run, bytes) = match ask_commit(&mut state, "w1", &token) {
        CommitStart::Verify { run, bytes } => (run, bytes),
        CommitStart::Answer(_) => panic!("quorum is there"),
    };
    assert_eq!(bytes, 8);
    assert!(!matches!(run.action(), dtr::commit::CommitAction::Finish));
    let name = CheckpointToken::new(&token);
    let key = "ckpt/run/manifests/step-7.json";
    let end = checkpoint::commit_end_at(&mut state, &name, bytes, Ok(key.into()), 0);
    assert_eq!(end.committed_bytes, Some(8));
    assert!(!end.aborted);
    assert_eq!(end.answer.unwrap().manifest_key, key);
    assert!(state.reported_chunks(&name).is_empty());
    // Idempotent: asking again finds the manifest.
    assert_eq!(
        answer(ask_commit(&mut state, "w0", &token)),
        (CommitStatus::Committed, key.to_string())
    );
    assert!(state.in_flight_steps().is_empty());
}

#[test]
fn failed_verification_aborts_the_checkpoint() {
    let mut state = fresh();
    join(&mut state, "w0", 0, 1);
    let (_, token) = begun(&mut state);
    report(&mut state, "w0", &token, vec![record("k0", 0, 4)], true).unwrap();
    let name = CheckpointToken::new(&token);
    assert!(matches!(
        ask_commit(&mut state, "w0", &token),
        CommitStart::Verify { .. }
    ));
    // A storage failure decides nothing.
    let end = checkpoint::commit_end_at(
        &mut state,
        &name,
        4,
        Err(DtrError::storage("x", "down")),
        0,
    );
    assert_eq!(end.answer.unwrap_err().code, Code::Unavailable);
    assert_eq!(state.reported_chunks(&name).len(), 1);
    // A corrupt checkpoint is aborted with the reason.
    let end = checkpoint::commit_end_at(
        &mut state,
        &name,
        4,
        Err(DtrError::CheckpointCorrupt {
            token: "step-7".into(),
            reason: "missing chunk k0".into(),
        }),
        0,
    );
    assert!(end.aborted);
    assert_eq!(end.committed_bytes, None);
    assert_eq!(end.answer.unwrap().status, CommitStatus::Aborted);
    assert_eq!(
        answer(ask_commit(&mut state, "w0", &token)),
        (CommitStatus::Aborted, String::new())
    );
    assert_eq!(
        report(&mut state, "w0", &token, vec![], true)
            .unwrap_err()
            .message,
        "checkpoint ckpt-7-u aborted: checkpoint step-7 verification failed: missing chunk k0"
    );
}

#[test]
fn aborts_forget_the_reports() {
    let mut state = fresh();
    join(&mut state, "w0", 0, 2);
    let (_, token) = begun(&mut state);
    report(&mut state, "w0", &token, vec![record("k0", 0, 4)], false).unwrap();
    let abort = |state: &mut AppState, token: &str| {
        checkpoint::abort_checkpoint(
            state,
            checkpoint::AbortCheckpointRequest {
                worker_id: "w0".into(),
                session_token: "w0-token".into(),
                checkpoint_token: token.into(),
                reason: "because".into(),
            },
        )
    };
    assert_eq!(abort(&mut state, "nope").unwrap_err().code, Code::NotFound);
    abort(&mut state, &token).unwrap();
    assert!(state
        .reported_chunks(&CheckpointToken::new(&token))
        .is_empty());
    assert!(matches!(
        report(&mut state, "w0", &token, vec![], true),
        Err(status) if status.code == Code::Aborted
    ));
}

#[test]
fn reports_for_unknown_checkpoints_are_refused() {
    let mut state = fresh();
    join(&mut state, "w0", 0, 2);
    let refused = report(&mut state, "w0", "nope", vec![record("k", 0, 1)], true).unwrap_err();
    assert_eq!(refused.code, Code::NotFound);
    // What was reported is kept all the same.
    assert_eq!(
        state.reported_chunks(&CheckpointToken::new("nope")).len(),
        1
    );
    state.drop_reported(&CheckpointToken::new("nope"));
    assert!(state
        .reported_chunks(&CheckpointToken::new("nope"))
        .is_empty());
    assert!(state.in_flight_steps().is_empty());
}

#[test]
fn latest_manifest_is_answered() {
    let mut state = fresh();
    join(&mut state, "w0", 0, 1);
    let (target, _) = begun(&mut state);
    let (run, prefix) = checkpoint::latest_start(&state, &target).unwrap();
    assert_eq!(prefix, "ckpt/run");
    assert!(matches!(
        run.action(),
        RecoverAction::Head { key } if key == "ckpt/run/latest.json"
    ));
    assert!(checkpoint::latest_start(&state, "tgt-x").is_err());
    let none = checkpoint::latest_end(&prefix, Ok(None)).unwrap();
    assert!(!none.found && none.chunks.is_empty());
    assert_eq!((none.step, none.manifest_key.as_str()), (0, ""));
    let manifest = Manifest::new_at(9, vec![record("k", 0, 4)], "t".into());
    let some = checkpoint::latest_end(&prefix, Ok(Some(manifest))).unwrap();
    assert!(some.found);
    assert_eq!(some.step, 9);
    assert_eq!(some.manifest_key, "ckpt/run/manifests/step-9.json");
    assert_eq!(some.chunks.len(), 1);
    assert_eq!(
        checkpoint::latest_end(&prefix, Err(DtrError::storage("a", "b")))
            .unwrap_err()
            .code,
        Code::Unavailable
    );
}

#[test]
fn reads_are_planned() {
    let mut state = fresh();
    join(&mut state, "w0", 0, 1);
    state.io.fetch("hot");
    state.io.fetched("hot", &Ok(Bytes::from_static(b"x")));
    let request = |token: &str, offset, length, frame_bytes| data::ReadObjectRequest {
        worker_id: "w0".into(),
        session_token: token.into(),
        key: "k".into(),
        offset,
        length,
        frame_bytes,
        prefetch_hint: vec!["hot".into(), "cold".into()],
    };
    let start = data::read_start(&state, &request("w0-token", 0, 0, 0)).unwrap();
    assert!(start.whole);
    assert_eq!(start.frame_bytes, 1024 * 1024);
    assert_eq!(start.prefetch, vec!["cold"]);
    let start = data::read_start(&state, &request("w0-token", 5, 0, 7)).unwrap();
    assert!(!start.whole);
    assert_eq!(start.frame_bytes, 7);
    assert!(data::read_start(&state, &request("x", 0, 0, 0)).is_err());
    assert!(data::authorize(&state, "w0", "w0-token").is_ok());
    assert_eq!(
        data::authorize(&state, "w0", "x").unwrap_err().code,
        Code::Unauthenticated
    );
}

#[test]
fn range_ends_are_cut_off() {
    let meta = |size_bytes| {
        Ok(Some(ObjectMeta {
            key: "k".into(),
            size_bytes,
        }))
    };
    assert_eq!(data::range_end("k", 5, 0, meta(11)).unwrap(), 11);
    assert_eq!(data::range_end("k", 5, 3, meta(11)).unwrap(), 8);
    assert_eq!(data::range_end("k", 5, 30, meta(11)).unwrap(), 11);
    // A missing object is told before the range is looked at.
    let refused = data::range_end("k", u64::MAX, u64::MAX, Ok(None)).unwrap_err();
    assert_eq!(refused.code, Code::NotFound);
    let refused = data::range_end("k", 0, 1, Ok(None)).unwrap_err();
    assert_eq!(refused.code, Code::NotFound);
    assert_eq!(refused.message, "object k not found");
    assert_eq!(
        data::range_end("k", 0, 1, Err(DtrError::storage("a", "b")))
            .unwrap_err()
            .code,
        Code::Unavailable
    );
}

#[test]
fn frames_cover_the_data() {
    let mut frames = Frames::new(Bytes::from_static(b"0123456789"), 100, 4);
    let mut seen = Vec::new();
    while let Some(frame) = frames.next_frame() {
        seen.push((frame.offset, frame.data));
    }
    assert_eq!(
        seen,
        vec![
            (100, b"0123".to_vec()),
            (104, b"4567".to_vec()),
            (108, b"89".to_vec())
        ]
    );
    assert!(frames.next_frame().is_none());
    assert!(Frames::new(Bytes::new(), 0, 4).next_frame().is_none());
    let mut whole = Frames::new(Bytes::from_static(b"abc"), 0, u64::MAX);
    assert_eq!(whole.next_frame().unwrap().data, b"abc");
}

#[test]
fn uploads_need_a_header_and_data() {
    let mut state = fresh();
    join(&mut state, "w0", 0, 1);
    let (_, token) = begun(&mut state);
    let header = |session: &str, token: &str| {
        Some(UploadFrame::Header(UploadHeader {
            worker_id: "w0".into(),
            session_token: session.into(),
            checkpoint_token: token.into(),
            rank: 3,
            part_index: 2,
        }))
    };
    for first in [
        None,
        Some(UploadFrame::Empty),
        Some(UploadFrame::Data(vec![1])),
    ] {
        assert_eq!(
            data::upload_start_at(&mut state, first, 0)
                .unwrap_err()
                .message,
            "first frame must be an UploadChunkHeader"
        );
    }
    assert_eq!(
        data::upload_start_at(&mut state, header("x", &token), 0)
            .unwrap_err()
            .code,
        Code::Unauthenticated
    );
    assert_eq!(
        data::upload_start_at(&mut state, header("w0-token", "nope"), 0)
            .unwrap_err()
            .code,
        Code::NotFound
    );
    let start = |state: &mut AppState| -> Upload {
        data::upload_start_at(state, header("w0-token", &token), 0).unwrap()
    };
    let empty = start(&mut state);
    assert_eq!(
        empty.finish(&state).unwrap_err().message,
        "chunk upload carried no data"
    );
    let mut upload = start(&mut state);
    upload.accept(UploadFrame::Data(b"ab".to_vec())).unwrap();
    upload.accept(UploadFrame::Empty).unwrap();
    upload.accept(UploadFrame::Data(b"c".to_vec())).unwrap();
    assert_eq!(
        upload
            .accept(header("w0-token", &token).unwrap())
            .unwrap_err()
            .message,
        "duplicate header frame"
    );
    let (record, stored) = upload.finish(&state).unwrap();
    assert_eq!(&stored[..], b"abc");
    assert_eq!(
        record.key,
        "ckpt/run/tmp/ckpt-step-7/rank-3.part-0002"
    );
    assert_eq!(record.size_bytes, 3);
    assert_eq!(record.sha256, sha256_hex(b"abc"));
}

#[test]
fn gauges_follow_the_state() {
    let mut state = fresh();
    join(&mut state, "w0", 0, 1);
    let (ds, _) = state.coordinator.leases.register_dataset("a", 4);
    state
        .coordinator
        .leases
        .acquire_at("w0".into(), &ds, 0, 1, 0, "u")
        .unwrap();
    state.io.read("k");
    state.io.fetch("k");
    state.io.fetched("k", &Ok(Bytes::from_static(b"abc")));
    state.io.read("k");
    let sample = sample_state(&state);
    assert_eq!((sample.workers_live, sample.leases_active), (1, 1));
    assert_eq!((sample.io_cache_hits, sample.io_cache_misses), (1, 1));
    assert_eq!(
        (sample.io_backend_read_bytes, sample.io_served_bytes),
        (3, 3)
    );
}

#[test]
fn command_lines_are_read() {
    let parse = |args: &[&str]| {
        let args: Vec<String> = args.iter().map(|a| a.to_string()).collect();
        match parse_config_path(&args) {
            Command::Help => "help".to_string(),
            Command::Serve(path) => path,
        }
    };
    assert_eq!(parse(&[]), "config/local.yaml");
    assert_eq!(parse(&["--config", "a.yaml"]), "a.yaml");
    assert_eq!(parse(&["-v", "-c", "b.yaml", "-h"]), "b.yaml");
    assert_eq!(parse(&["--config"]), "config/local.yaml");
    assert_eq!(parse(&["--config", "--help"]), "--help");
    assert_eq!(parse(&["-h", "-c", "x"]), "help");
    assert_eq!(parse(&["x", "--help"]), "help");
}

#[test]
fn requests_are_answered_by_the_clock() {
    let mut state = fresh();
    let joined = runtime::register_worker(
        &mut state,
        runtime::RegisterWorkerRequest {
            worker_id: "w0".into(),
            rank: 0,
            world_size: 1,
            labels: HashMap::new(),
        },
    )
    .unwrap();
    let session = joined.session_token;
    assert_eq!(session.len(), 36);
    assert_eq!(session.as_bytes()[14], b'4');
    let beat = runtime::heartbeat(
        &mut state,
        runtime::HeartbeatRequest {
            worker_id: "w0".into(),
            session_token: session.clone(),
            current_step: 1,
        },
        WALL,
    )
    .unwrap();
    assert!(!beat.must_reregister);
    let (ds, _) = state.coordinator.leases.register_dataset("a", 4);
    let lease = runtime::acquire_shard_lease(
        &mut state,
        runtime::AcquireShardLeaseRequest {
            worker_id: "w0".into(),
            session_token: session.clone(),
            dataset_id: ds.to_string(),
            epoch: 0,
            requested_shards: 2,
        },
        WALL,
    )
    .unwrap();
    assert!(lease.lease_id.starts_with("lease-"));
    let renewed = runtime::renew_shard_lease(
        &mut state,
        runtime::RenewShardLeaseRequest {
            worker_id: "w0".into(),
            session_token: session.clone(),
            lease_id: lease.lease_id,
        },
        WALL,
    )
    .unwrap();
    assert!(renewed.renewed);
    let (target, _) = state.register_target("s3://b/p", 0, 1).unwrap();
    let begun = checkpoint::begin_checkpoint(
        &mut state,
        checkpoint::BeginCheckpointRequest {
            worker_id: "w0".into(),
            session_token: session.clone(),
            target_id: target.target_id.to_string(),
            step: 3,
        },
        WALL,
    )
    .unwrap();
    assert!(begun.checkpoint_token.starts_with("ckpt-3-"));
    let upload = data::upload_start(
        &mut state,
        Some(UploadFrame::Header(UploadHeader {
            worker_id: "w0".into(),
            session_token: session.clone(),
            checkpoint_token: begun.checkpoint_token.clone(),
            rank: 0,
            part_index: 0,
        })),
    )
    .unwrap();
    assert_eq!((upload.prefix.as_str(), upload.step), ("p", 3));
    let completed = checkpoint::report_chunk(
        &mut state,
        checkpoint::ReportChunkRequest {
            worker_id: "w0".into(),
            session_token: session.clone(),
            checkpoint_token: begun.checkpoint_token.clone(),
            chunks: vec![record("k", 0, 4)],
            rank_complete: true,
        },
    )
    .unwrap();
    assert_eq!(completed, 1);
    let start = checkpoint::commit_start(
        &mut state,
        checkpoint::CommitCheckpointRequest {
            worker_id: "w0".into(),
            session_token: session,
            checkpoint_token: begun.checkpoint_token.clone(),
        },
    );
    assert!(matches!(start, CommitStart::Verify { bytes: 4, .. }));
    let end = checkpoint::commit_end(
        &mut state,
        &CheckpointToken::new(&begun.checkpoint_token),
        4,
        Ok("p/manifests/step-3.json".into()),
    );
    assert_eq!(end.answer.unwrap().status, CommitStatus::Committed);
}

#[test]
fn open_barriers_are_in_flight_before_any_report() {
    let mut state = fresh();
    let barrier = state
        .coordinator
        .barriers
        .begin_at(TargetId::new("t"), 7, 2, 0, "a");
    assert_eq!(state.in_flight_steps(), vec![7]);
    state.coordinator.barriers.abort(&barrier.token, "stop").unwrap();
    assert!(state.in_flight_steps().is_empty());
    state
        .coordinator
        .barriers
        .begin_at(TargetId::new("t"), 8, 2, 0, "b");
    assert_eq!(state.in_flight_steps_at(0), vec![8]);
    // Once the deadline has passed the step is no longer in flight.
    assert!(state.in_flight_steps_at(600_001 * 1_000_000).is_empty());
}
