use bytes::Bytes;
use dtr::config::{RuntimeConfig, StorageBackendKind};
use dtr::error::DtrError;
use dtr::storage::{uri_to_key, BackendError, BackendPlan, ObjectMeta, ObjectStorage};
use futures::TryStreamExt;
use object_store::local::LocalFileSystem;
use object_store::memory::InMemory;
use object_store::path::Path as ObjPath;
use object_store::{ObjectStore, PutPayload};
use std::sync::Arc;

fn rt() -> tokio::runtime::Runtime {
    tokio::runtime::Builder::new_current_thread()
        .enable_all()
        .build()
        .unwrap()
}

fn failure(e: object_store::Error) -> BackendError {
    match e {
        object_store::Error::NotFound { .. } => BackendError::NotFound(e.to_string()),
        other => BackendError::Other(other.to_string()),
    }
}

fn described(m: object_store::ObjectMeta) -> ObjectMeta {
    ObjectMeta {
        key: m.location.to_string(),
        size_bytes: m.size as u64,
    }
}

/// A backend behind the facade.
struct Backend {
    inner: Arc<dyn ObjectStore>,
    facade: ObjectStorage,
}

impl Backend {
    fn in_memory() -> Self {
        Backend {
            inner: Arc::new(InMemory::new()),
            facade: ObjectStorage::in_memory(),
        }
    }

    async fn get(&self, key: &str) -> Result<Bytes, DtrError> {
        let reply = match self.inner.get(&ObjPath::from(key)).await {
            Ok(found) => found.bytes().await.map_err(failure),
            Err(e) => Err(failure(e)),
        };
        self.facade.answer(key, reply)
    }

    async fn get_range(&self, key: &str, from: usize, to: usize) -> Result<Bytes, DtrError> {
        let reply = self.inner.get_range(&ObjPath::from(key), from..to).await;
        self.facade.answer(key, reply.map_err(failure))
    }

    async fn put(&self, key: &str, data: Bytes) -> Result<(), DtrError> {
        let payload = PutPayload::from_bytes(data);
        let reply = self.inner.put(&ObjPath::from(key), payload).await;
        self.facade.answer(key, reply.map(|_| ()).map_err(failure))
    }

    async fn list(&self, prefix: &str) -> Result<Vec<ObjectMeta>, DtrError> {
        let path = ObjPath::from(prefix);
        let found: Result<Vec<object_store::ObjectMeta>, object_store::Error> =
            self.inner.list(Some(&path)).try_collect().await;
        let reply = found
            .map(|all| all.into_iter().map(described).collect())
            .map_err(failure);
        self.facade.answer(prefix, reply)
    }

    async fn delete(&self, key: &str) -> Result<(), DtrError> {
        let reply = self.inner.delete(&ObjPath::from(key)).await;
        self.facade.delete(key, reply.map_err(failure))
    }

    async fn head(&self, key: &str) -> Result<Option<ObjectMeta>, DtrError> {
        let reply = self.inner.head(&ObjPath::from(key)).await;
        self.facade
            .head(key, reply.map(described).map_err(failure))
    }

    async fn there(&self, key: &str) -> Result<bool, DtrError> {
        Ok(self.head(key).await?.is_some())
    }
}

#[test]
fn uri_routing() {
    assert_eq!(uri_to_key("s3://bucket/a/b/").unwrap(), "a/b");
    assert_eq!(uri_to_key("file:///mnt/dtr/x").unwrap(), "mnt/dtr/x");
    assert_eq!(uri_to_key("plain/key").unwrap(), "plain/key");
    assert!(uri_to_key("gs://nope/x").is_err());
}

#[test]
fn uri_edge_cases() {
    assert_eq!(uri_to_key("s3://bucket").unwrap(), "");
    assert_eq!(uri_to_key("s3://bucket/").unwrap(), "");
    assert_eq!(uri_to_key("s3://bucket//a//b//").unwrap(), "a//b");
    assert_eq!(uri_to_key("").unwrap(), "");
    assert_eq!(uri_to_key("///").unwrap(), "");
    assert_eq!(uri_to_key("/a/b/").unwrap(), "a/b");
    assert_eq!(uri_to_key("file://a").unwrap(), "a");
    assert_eq!(uri_to_key("s3://b/x://y").unwrap(), "x://y");
    assert_eq!(uri_to_key("s3://büchse/ä/ö").unwrap(), "ä/ö");
    assert_eq!(
        uri_to_key("gs://nope/x").unwrap_err().to_string(),
        "invalid argument: unsupported storage URI scheme: gs://nope/x"
    );
    assert!(uri_to_key("x/s3://bucket/a").is_err());
}

#[test]
fn fs_round_trip() {
    let dir = tempfile::tempdir().unwrap();
    let store = Backend {
        inner: Arc::new(LocalFileSystem::new_with_prefix(dir.path()).unwrap()),
        facade: ObjectStorage::new("fs:test"),
    };
    rt().block_on(async {
        store
            .put("data/shard-0000.bin", Bytes::from_static(b"hello world"))
            .await
            .unwrap();

        let all = store.get("data/shard-0000.bin").await.unwrap();
        assert_eq!(&all[..], b"hello world");

        let range = store.get_range("data/shard-0000.bin", 6, 11).await.unwrap();
        assert_eq!(&range[..], b"world");

        let listed = store.list("data").await.unwrap();
        assert_eq!(listed.len(), 1);
        assert_eq!(listed[0].size_bytes, 11);

        let head = store.head("data/shard-0000.bin").await.unwrap().unwrap();
        assert_eq!(head.size_bytes, 11);
        assert!(store.there("data/shard-0000.bin").await.unwrap());

        store.delete("data/shard-0000.bin").await.unwrap();
        assert!(!store.there("data/shard-0000.bin").await.unwrap());
        // Deleting again is not an error.
        store.delete("data/shard-0000.bin").await.unwrap();
    });
}

#[test]
fn missing_object_is_error_on_get_none_on_head() {
    let store = Backend::in_memory();
    rt().block_on(async {
        assert!(store.get("nope").await.is_err());
        assert!(store.head("nope").await.unwrap().is_none());
    });
}

#[test]
fn list_scopes_to_prefix() {
    let store = Backend::in_memory();
    rt().block_on(async {
        store.put("a/1", Bytes::from_static(b"x")).await.unwrap();
        store.put("a/2", Bytes::from_static(b"y")).await.unwrap();
        store.put("b/1", Bytes::from_static(b"z")).await.unwrap();
        let listed = store.list("a").await.unwrap();
        assert_eq!(listed.len(), 2);
    });
}

#[test]
fn failures_name_backend_and_key() {
    let facade = ObjectStorage::new("fs:test");
    let err = facade
        .answer::<()>("a/b", Err(BackendError::NotFound("no such thing".into())))
        .unwrap_err();
    assert_eq!(
        err.to_string(),
        "storage error at fs:test/a/b: no such thing"
    );
    let err = facade
        .delete("k", Err(BackendError::Other("denied".into())))
        .unwrap_err();
    assert_eq!(err.to_string(), "storage error at fs:test/k: denied");
    let err = facade
        .head("k", Err(BackendError::Other("denied".into())))
        .unwrap_err();
    assert_eq!(err.to_string(), "storage error at fs:test/k: denied");
    assert_eq!(facade.answer("k", Ok(5)).unwrap(), 5);
}

#[test]
fn file_system_backend_is_planned() {
    let cfg = RuntimeConfig::default();
    let plan = ObjectStorage::from_config(&cfg, None);
    assert!(matches!(&plan, BackendPlan::Fs { root_dir } if root_dir == "/mnt/dtr"));
    assert_eq!(plan.storage().label, "fs:/mnt/dtr");
    assert_eq!(
        plan.failed("read-only").to_string(),
        "storage error at /mnt/dtr: read-only"
    );
}

#[test]
fn s3_backend_is_planned() {
    let mut cfg = RuntimeConfig::default();
    cfg.storage.backend = StorageBackendKind::S3;
    let plan = ObjectStorage::from_config(&cfg, Some("runs".into()));
    assert_eq!(plan.storage().label, "s3:aws");
    assert_eq!(
        plan.failed("no bucket").to_string(),
        "storage error at s3: no bucket"
    );
    cfg.storage.s3.endpoint = Some("http://minio:9000".into());
    cfg.storage.s3.force_path_style = true;
    cfg.storage.s3.allow_http = true;
    let plan = ObjectStorage::from_config(&cfg, None);
    assert_eq!(plan.storage().label, "s3:http://minio:9000");
    match plan {
        BackendPlan::S3 {
            virtual_hosted_style,
            allow_http,
            region,
            bucket,
            ..
        } => {
            assert_eq!(virtual_hosted_style, Some(false));
            assert_eq!(allow_http, Some(true));
            assert_eq!((region, bucket), (None, None));
        }
        BackendPlan::Fs { .. } => panic!("wrong backend"),
    }
}

#[test]
fn storage_errors_are_built_from_their_parts() {
    let err = DtrError::storage("here", "why");
    assert_eq!(err.to_string(), "storage error at here: why");
    assert_eq!(ObjectStorage::in_memory().label, "mem");
}

#[test]
fn deleting_is_final_and_idempotent() {
    let store = Backend::in_memory();
    rt().block_on(async {
        store.put("a/1", Bytes::from_static(b"x")).await.unwrap();
        store.put("a/2", Bytes::from_static(b"y")).await.unwrap();
        store.delete("a/1").await.unwrap();
        store.delete("a/1").await.unwrap();
        store.delete("never/there").await.unwrap();
        assert!(store.head("a/1").await.unwrap().is_none());
        assert!(!store.there("a/1").await.unwrap());
        assert!(matches!(
            store.get("a/1").await,
            Err(DtrError::Storage { uri, .. }) if uri == "mem/a/1"
        ));
        assert_eq!(&store.get("a/2").await.unwrap()[..], b"y");
    });
}
