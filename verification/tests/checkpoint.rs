use bytes::Bytes;
use dtr::checkpoint::{sha256_hex, CheckpointStore};
use dtr::commit::{CommitAction, CommitRun};
use dtr::error::DtrError;
use dtr::layout;
use dtr::manifest::{ChunkRecord, Manifest};
use dtr::recover::RecoverAction;
use dtr::storage::ObjectMeta;
use serde_json::Value;
use std::collections::BTreeMap;

/// A store that answers truthfully.
struct Store {
    objects: BTreeMap<String, Bytes>,
}

impl Store {
    fn new() -> Self {
        Store {
            objects: BTreeMap::new(),
        }
    }

    fn head(&self, key: &str) -> Option<ObjectMeta> {
        self.objects.get(key).map(|data| ObjectMeta {
            key: key.to_string(),
            size_bytes: data.len() as u64,
        })
    }

    fn get(&self, key: &str) -> Result<Bytes, DtrError> {
        match self.objects.get(key) {
            Some(data) => Ok(data.clone()),
            None => Err(DtrError::storage(key, "not found")),
        }
    }

    fn list(&self, prefix: &str) -> Vec<ObjectMeta> {
        let area = format!("{prefix}/");
        self.objects
            .iter()
            .filter(|(key, _)| key.starts_with(&area))
            .map(|(key, data)| ObjectMeta {
                key: key.clone(),
                size_bytes: data.len() as u64,
            })
            .collect()
    }
}

fn encode(m: &Manifest) -> Bytes {
    let mut chunks = Vec::new();
    for c in &m.chunks {
        let mut fields = serde_json::Map::new();
        fields.insert("key".into(), Value::from(c.key.as_str()));
        fields.insert("size_bytes".into(), Value::from(c.size_bytes));
        fields.insert("sha256".into(), Value::from(c.sha256.as_str()));
        fields.insert("rank".into(), Value::from(c.rank));
        fields.insert("part_index".into(), Value::from(c.part_index));
        chunks.push(Value::Object(fields));
    }
    let mut fields = serde_json::Map::new();
    fields.insert("format_version".into(), Value::from(m.format_version));
    fields.insert("step".into(), Value::from(m.step));
    fields.insert("chunks".into(), Value::Array(chunks));
    fields.insert("created_at".into(), Value::from(m.created_at.as_str()));
    Bytes::from(serde_json::to_vec(&Value::Object(fields)).unwrap())
}

fn decode(data: &[u8]) -> Result<Manifest, String> {
    let value: Value = serde_json::from_slice(data).map_err(|e| e.to_string())?;
    let chunks = value["chunks"]
        .as_array()
        .ok_or("no chunks")?
        .iter()
        .map(|c| ChunkRecord {
            key: c["key"].as_str().unwrap().to_string(),
            size_bytes: c["size_bytes"].as_u64().unwrap(),
            sha256: c["sha256"].as_str().unwrap().to_string(),
            rank: c["rank"].as_u64().unwrap() as u32,
            part_index: c["part_index"].as_u64().unwrap() as u32,
        })
        .collect();
    Ok(Manifest {
        format_version: value["format_version"].as_u64().unwrap() as u32,
        step: value["step"].as_u64().unwrap(),
        chunks,
        created_at: value["created_at"].as_str().unwrap().to_string(),
    })
}

fn upload(
    store: &mut Store,
    prefix: &str,
    step: u64,
    rank: u32,
    part: u32,
    data: &'static [u8],
) -> ChunkRecord {
    let data = Bytes::from_static(data);
    let record = CheckpointStore::new().upload_chunk(prefix, step, rank, part, &data);
    store.objects.insert(record.key.clone(), data);
    record
}

fn run(store: &mut Store, mut commit: CommitRun) -> Result<String, DtrError> {
    loop {
        match commit.action() {
            CommitAction::Head { key } => commit.on_head(Ok(store.head(&key))),
            CommitAction::Get { key } => commit.on_get(store.get(&key)),
            CommitAction::Publish { key } => {
                let manifest = commit.manifest();
                store.objects.insert(key, encode(&manifest));
                commit.on_published(Ok(()));
            }
            CommitAction::Point { key, data } => {
                store.objects.insert(key, data);
                commit.on_pointed(Ok(()));
            }
            CommitAction::Finish => return commit.finish(),
        }
    }
}

fn commit(
    store: &mut Store,
    prefix: &str,
    step: u64,
    chunks: Vec<ChunkRecord>,
) -> Result<String, DtrError> {
    let commit = CheckpointStore::new().commit(prefix, step, chunks, true);
    run(store, commit)
}

fn latest(store: &Store, prefix: &str) -> Result<Option<Manifest>, DtrError> {
    let mut recovery = CheckpointStore::new().latest_manifest(prefix);
    loop {
        match recovery.action() {
            RecoverAction::Head { key } => recovery.on_head(Ok(store.head(&key))),
            RecoverAction::Get { key } => recovery.on_get(store.get(&key)),
            RecoverAction::List { prefix } => recovery.on_list(Ok(store.list(&prefix))),
            RecoverAction::Decode { data } => recovery.on_decoded(decode(&data)),
            RecoverAction::Finish => return recovery.finish(),
        }
    }
}

#[test]
fn commit_round_trip() {
    let mut store = Store::new();
    let c0 = upload(&mut store, "ckpt/run-1", 100, 0, 0, b"rank0-state");
    let c1 = upload(&mut store, "ckpt/run-1", 100, 1, 0, b"rank1-state");

    let manifest_key = commit(&mut store, "ckpt/run-1", 100, vec![c0, c1]).unwrap();
    assert_eq!(manifest_key, "ckpt/run-1/manifests/step-100.json");

    let manifest = latest(&store, "ckpt/run-1").unwrap().unwrap();
    assert_eq!(manifest.step, 100);
    assert_eq!(manifest.chunks.len(), 2);
    assert_eq!(manifest.total_bytes(), 22);
}

#[test]
fn missing_chunk_never_publishes() {
    let mut store = Store::new();
    let c0 = upload(&mut store, "ckpt/run-1", 5, 0, 0, b"data");
    // Rank 1 "crashed": its chunk was reported but never uploaded.
    let ghost = ChunkRecord {
        key: layout::chunk_key("ckpt/run-1", 5, 1, 0),
        size_bytes: 4,
        sha256: sha256_hex(b"data"),
        rank: 1,
        part_index: 0,
    };

    let err = commit(&mut store, "ckpt/run-1", 5, vec![c0, ghost]);
    assert!(matches!(err, Err(DtrError::CheckpointCorrupt { .. })));
    assert_eq!(
        err.unwrap_err().to_string(),
        "checkpoint step-5 verification failed: missing chunk \
         ckpt/run-1/tmp/ckpt-step-5/rank-1.part-0000"
    );

    // The manifest must not exist: the failed checkpoint is invisible.
    assert!(store.head("ckpt/run-1/manifests/step-5.json").is_none());
    assert!(latest(&store, "ckpt/run-1").unwrap().is_none());
}

#[test]
fn corrupted_chunk_detected_by_checksum() {
    let mut store = Store::new();
    let mut c0 = upload(&mut store, "ckpt/run-1", 7, 0, 0, b"good-data");
    // Simulate bit-rot / truncated overwrite with same length.
    store
        .objects
        .insert(c0.key.clone(), Bytes::from_static(b"bad!-data"));
    c0.sha256 = sha256_hex(b"good-data");

    let err = commit(&mut store, "ckpt/run-1", 7, vec![c0]);
    assert!(matches!(err, Err(DtrError::CheckpointCorrupt { .. })));
    assert_eq!(
        err.unwrap_err().to_string(),
        format!(
            "checkpoint step-7 verification failed: checksum mismatch for \
             ckpt/run-1/tmp/ckpt-step-7/rank-0.part-0000: stored {} != reported {}",
            sha256_hex(b"bad!-data"),
            sha256_hex(b"good-data")
        )
    );
}

#[test]
fn latest_pointer_tracks_newest_and_survives_missing_pointer() {
    let mut store = Store::new();
    for step in [10u64, 20, 30] {
        let data = Bytes::from(vec![step as u8; 8]);
        let c = CheckpointStore::new().upload_chunk("ckpt/r", step, 0, 0, &data);
        store.objects.insert(c.key.clone(), data);
        commit(&mut store, "ckpt/r", step, vec![c]).unwrap();
    }
    assert_eq!(latest(&store, "ckpt/r").unwrap().unwrap().step, 30);

    // Pointer object lost -> fallback scan still finds step 30.
    store.objects.remove("ckpt/r/latest.json").unwrap();
    assert_eq!(latest(&store, "ckpt/r").unwrap().unwrap().step, 30);
}

#[test]
fn gc_sweeps_orphans_and_spares_in_flight() {
    let mut store = Store::new();

    // Step 1: committed properly.
    let c = upload(&mut store, "ckpt/r", 1, 0, 0, b"x");
    commit(&mut store, "ckpt/r", 1, vec![c]).unwrap();

    // Step 2: crashed mid-upload (orphan).
    upload(&mut store, "ckpt/r", 2, 0, 0, b"y");

    // Step 3: still uploading (in flight).
    upload(&mut store, "ckpt/r", 3, 0, 0, b"z");

    let objects = store.list(&layout::tmp_root("ckpt/r"));
    let removals = CheckpointStore::new().gc_orphans("ckpt/r", &objects, &vec![3]);
    let mut deleted = 0;
    for removal in &removals {
        store.objects.remove(&removal.key).unwrap();
        deleted += 1;
    }
    // Step 1 tmp (1 obj) + step 2 tmp (1 obj) deleted; step 3 spared.
    assert_eq!(deleted, 2);
    assert!(store
        .head(&layout::chunk_key("ckpt/r", 3, 0, 0))
        .is_some());
    // Committed manifest untouched.
    assert!(latest(&store, "ckpt/r").unwrap().is_some());
    assert_eq!(removals[1].manifest_key, "ckpt/r/manifests/step-2.json");
}

#[test]
fn clean_tmp_removes_only_that_step() {
    let mut store = Store::new();
    upload(&mut store, "ckpt/r", 1, 0, 0, b"a");
    upload(&mut store, "ckpt/r", 2, 0, 0, b"b");
    let area = CheckpointStore::new().clean_tmp("ckpt/r", 1);
    let mut deleted = 0;
    for object in store.list(&area) {
        store.objects.remove(&object.key).unwrap();
        deleted += 1;
    }
    assert_eq!(deleted, 1);
    assert!(store
        .head(&layout::chunk_key("ckpt/r", 2, 0, 0))
        .is_some());
}

#[test]
fn commit_without_chunks_is_corrupt() {
    let mut store = Store::new();
    let err = commit(&mut store, "p", 4, vec![]).unwrap_err();
    assert_eq!(
        err.to_string(),
        "checkpoint step-4 verification failed: no chunks reported"
    );
    assert!(store.objects.is_empty());
}

#[test]
fn wrong_size_is_corrupt() {
    let mut store = Store::new();
    let mut c = upload(&mut store, "p", 4, 0, 0, b"data");
    c.size_bytes = 5;
    let err = commit(&mut store, "p", 4, vec![c]).unwrap_err();
    assert_eq!(
        err.to_string(),
        "checkpoint step-4 verification failed: size mismatch for \
         p/tmp/ckpt-step-4/rank-0.part-0000: stored 4 != reported 5"
    );
}

#[test]
fn contents_are_not_read_unless_asked_for() {
    let mut store = Store::new();
    let c = upload(&mut store, "p", 4, 0, 0, b"data");
    store
        .objects
        .insert(c.key.clone(), Bytes::from_static(b"atad"));
    let quick = CheckpointStore::new().commit("p", 4, vec![c], false);
    assert_eq!(run(&mut store, quick).unwrap(), "p/manifests/step-4.json");
}

#[test]
fn pointer_names_the_manifest() {
    let mut store = Store::new();
    let c = upload(&mut store, "p", 4, 0, 0, b"data");
    let mut commit = CheckpointStore::new().commit("p", 4, vec![c], false);
    commit.on_head(Ok(store.head("p/tmp/ckpt-step-4/rank-0.part-0000")));
    let manifest = commit.manifest_at("2026-01-01T00:00:00+00:00".into());
    assert_eq!(manifest.created_at, "2026-01-01T00:00:00+00:00");
    commit.on_published(Ok(()));
    match commit.action() {
        CommitAction::Point { key, data } => {
            assert_eq!(key, "p/latest.json");
            assert_eq!(
                &data[..],
                &br#"{"committed_at":"2026-01-01T00:00:00+00:00","manifest_key":"p/manifests/step-4.json","step":4}"#[..]
            );
        }
        other => panic!("unexpected {other:?}"),
    }
}

#[test]
fn storage_failures_end_a_commit() {
    for fails_at in 0..3 {
        let mut store = Store::new();
        let c = upload(&mut store, "p", 4, 0, 0, b"data");
        let mut commit = CheckpointStore::new().commit("p", 4, vec![c], true);
        let error = || DtrError::storage("here", "broken");
        let mut at = 0;
        let outcome = loop {
            let broken = at == fails_at;
            match commit.action() {
                CommitAction::Head { key } => commit.on_head(if broken {
                    Err(error())
                } else {
                    Ok(store.head(&key))
                }),
                CommitAction::Get { key } => commit.on_get(if broken {
                    Err(error())
                } else {
                    store.get(&key)
                }),
                CommitAction::Publish { .. } => {
                    commit.manifest();
                    commit.on_published(if broken { Err(error()) } else { Ok(()) });
                }
                CommitAction::Point { .. } => {
                    commit.on_pointed(if broken { Err(error()) } else { Ok(()) })
                }
                CommitAction::Finish => break commit.finish(),
            }
            at += 1;
        };
        assert_eq!(
            outcome.unwrap_err().to_string(),
            "storage error at here: broken"
        );
    }
}

#[test]
fn a_pointer_that_cannot_be_written_does_not_matter() {
    let mut store = Store::new();
    let old = upload(&mut store, "p", 3, 0, 0, b"old");
    commit(&mut store, "p", 3, vec![old]).unwrap();
    let c = upload(&mut store, "p", 4, 0, 0, b"data");
    let mut run = CheckpointStore::new().commit("p", 4, vec![c], true);
    let outcome = loop {
        match run.action() {
            CommitAction::Head { key } => run.on_head(Ok(store.head(&key))),
            CommitAction::Get { key } => run.on_get(store.get(&key)),
            CommitAction::Publish { key } => {
                let manifest = run.manifest();
                store.objects.insert(key, encode(&manifest));
                run.on_published(Ok(()));
            }
            CommitAction::Point { .. } => {
                run.on_pointed(Err(DtrError::storage("here", "broken")))
            }
            CommitAction::Finish => break run.finish(),
        }
    };
    assert_eq!(outcome.unwrap(), "p/manifests/step-4.json");
    // The pointer still names the older manifest, and the newer one is found.
    assert!(store.objects["p/latest.json"].ends_with(b"\"step\":3}"));
    assert_eq!(latest(&store, "p").unwrap().unwrap().step, 4);
}

#[test]
fn the_largest_step_is_the_newest() {
    let mut store = Store::new();
    let c30 = upload(&mut store, "ckpt/r", 30, 0, 0, b"x");
    commit(&mut store, "ckpt/r", 30, vec![c30]).unwrap();
    let c20 = upload(&mut store, "ckpt/r", 20, 0, 0, b"y");
    commit(&mut store, "ckpt/r", 20, vec![c20]).unwrap();
    assert_eq!(latest(&store, "ckpt/r").unwrap().unwrap().step, 30);
    store.objects.remove("ckpt/r/latest.json").unwrap();
    assert_eq!(latest(&store, "ckpt/r").unwrap().unwrap().step, 30);
}

#[test]
fn a_list_that_lags_behind_the_pointer_is_made_up_for() {
    let mut store = Store::new();
    let c = upload(&mut store, "p", 4, 0, 0, b"data");
    commit(&mut store, "p", 4, vec![c]).unwrap();
    let mut recovery = CheckpointStore::new().latest_manifest("p");
    recovery.on_head(Ok(store.head("p/latest.json")));
    recovery.on_get(store.get("p/latest.json"));
    recovery.on_head(Ok(store.head("p/manifests/step-4.json")));
    recovery.on_list(Ok(vec![ObjectMeta {
        key: "p/manifests/step-3.json".into(),
        size_bytes: 1,
    }]));
    assert!(matches!(
        recovery.action(),
        RecoverAction::Get { key } if key == "p/manifests/step-4.json"
    ));
}

#[test]
fn gc_spares_steps_in_flight_under_any_prefix() {
    let mut store = Store::new();
    upload(&mut store, "ckpt-step-7/run", 3, 0, 0, b"z");
    let objects = store.list(&layout::tmp_root("ckpt-step-7/run"));
    assert_eq!(objects.len(), 1);
    let gc = CheckpointStore::new();
    assert!(gc.gc_orphans("ckpt-step-7/run", &objects, &vec![3]).is_empty());
    assert_eq!(gc.gc_orphans("ckpt-step-7/run", &objects, &vec![7]).len(), 1);
}

#[test]
fn unusable_pointers_fall_back_to_the_list() {
    let mut store = Store::new();
    let c = upload(&mut store, "p", 4, 0, 0, b"data");
    commit(&mut store, "p", 4, vec![c]).unwrap();
    for pointer in [
        &b"not json"[..],
        b"[]",
        b"{}",
        br#"{"manifest_key": 5}"#,
        br#"{"manifest_key": "p/manifests/step-9.json"}"#,
    ] {
        store
            .objects
            .insert("p/latest.json".into(), Bytes::copy_from_slice(pointer));
        assert_eq!(latest(&store, "p").unwrap().unwrap().step, 4);
    }
}

#[test]
fn a_pointer_that_leads_elsewhere_is_followed() {
    let mut store = Store::new();
    let c = upload(&mut store, "p", 4, 0, 0, b"data");
    commit(&mut store, "p", 4, vec![c]).unwrap();
    let other = upload(&mut store, "q", 2, 0, 0, b"data");
    commit(&mut store, "q", 2, vec![other]).unwrap();
    let pointer = store.objects["q/latest.json"].clone();
    store.objects.insert("p/latest.json".into(), pointer);
    assert_eq!(latest(&store, "p").unwrap().unwrap().step, 2);
}

#[test]
fn without_a_list_the_pointer_has_to_do() {
    let mut store = Store::new();
    let c = upload(&mut store, "p", 4, 0, 0, b"data");
    commit(&mut store, "p", 4, vec![c]).unwrap();
    let broken = || DtrError::storage("here", "broken");
    let mut recovery = CheckpointStore::new().latest_manifest("p");
    recovery.on_head(Ok(store.head("p/latest.json")));
    recovery.on_get(store.get("p/latest.json"));
    recovery.on_head(Ok(store.head("p/manifests/step-4.json")));
    recovery.on_list(Err(broken()));
    recovery.on_get(store.get("p/manifests/step-4.json"));
    match recovery.action() {
        RecoverAction::Decode { data } => recovery.on_decoded(decode(&data)),
        other => panic!("unexpected {other:?}"),
    }
    assert_eq!(recovery.finish().unwrap().unwrap().step, 4);

    // Without a pointer there is nothing to fall back on.
    let mut recovery = CheckpointStore::new().latest_manifest("p");
    recovery.on_head(Ok(None));
    recovery.on_list(Err(broken()));
    assert_eq!(
        recovery.finish().unwrap_err().to_string(),
        "storage error at here: broken"
    );
}

#[test]
fn undecodable_manifest_is_an_error() {
    let mut store = Store::new();
    store
        .objects
        .insert("p/manifests/step-1.json".into(), Bytes::from_static(b"{}"));
    assert_eq!(
        latest(&store, "p").unwrap_err().to_string(),
        "internal error: manifest deserialization: no chunks"
    );
}

#[test]
fn of_equal_steps_the_last_listed_is_taken() {
    let mut recovery = CheckpointStore::new().latest_manifest("p");
    recovery.on_head(Ok(None));
    let object = |key: &str| ObjectMeta {
        key: key.to_string(),
        size_bytes: 1,
    };
    recovery.on_list(Ok(vec![
        object("p/manifests/step-7.json"),
        object("p/manifests/step-07.json"),
        object("p/manifests/junk"),
    ]));
    assert!(matches!(
        recovery.action(),
        RecoverAction::Get { key } if key == "p/manifests/step-07.json"
    ));
    recovery.on_get(Err(DtrError::storage("x", "y")));
    assert!(recovery.finish().is_err());
}

#[test]
fn digests_are_lowercase_hex() {
    assert_eq!(
        sha256_hex(b"abc"),
        "ba7816bf8f01cfea414140de5dae2223b00361a396177a9cb410ff61f20015ad"
    );
    assert_eq!(
        sha256_hex(b""),
        "e3b0c44298fc1c149afbf4c8996fb92427ae41e4649b934ca495991b7852b855"
    );
}
