//! The storage facade's rules: which backend is built, how client URIs map to
//! keys, and what a backend's answers mean.
//!
//! The backend itself is driven by the server; it hands in what the backend
//! answered and takes back what the rest of the runtime sees.

use crate::config::RuntimeConfig;
use crate::config::StorageBackendKind;
use crate::error::DtrError;
use crate::error::ErrorView;
use crate::text;
use vstd::prelude::*;

verus! {

/// Metadata for one stored object.
#[derive(Debug, PartialEq, Eq)]
pub struct ObjectMeta {
    /// Key relative to the backend root, e.g. "checkpoints/run-001/manifests/step-10.json".
    pub key: String,
    pub size_bytes: u64,
}

/// An [`ObjectMeta`] with its key as a character sequence.
#[verifier::ext_equal]
pub struct MetaView {
    pub key: Seq<char>,
    pub size_bytes: u64,
}

impl View for ObjectMeta {
    type V = MetaView;

    open spec fn view(&self) -> MetaView {
        MetaView { key: self.key@, size_bytes: self.size_bytes }
    }
}

impl Clone for ObjectMeta {
    fn clone(&self) -> (out: Self)
        ensures
            out@ == self@,
    {
        ObjectMeta { key: self.key.clone(), size_bytes: self.size_bytes }
    }
}

/// Why a backend call failed, with the backend's own words.
#[derive(Debug)]
pub enum BackendError {
    /// There is no such object.
    NotFound(String),
    /// Anything else.
    Other(String),
}

impl BackendError {
    /// The backend's own words.
    pub open spec fn message(self) -> Seq<char> {
        match self {
            BackendError::NotFound(m) => m@,
            BackendError::Other(m) => m@,
        }
    }
}

/// The storage facade: names its backend in errors and interprets its answers.
#[derive(Debug)]
pub struct ObjectStorage {
    /// Human-readable backend description for error context ("fs:/mnt/dtr").
    pub label: String,
}

/// Which backend to build, and with which settings.
#[derive(Debug)]
pub enum BackendPlan {
    /// A directory on the local file system, which is created if need be.
    Fs { root_dir: String },
    /// An S3 bucket. Settings that are `None` are left to the environment.
    S3 {
        endpoint: Option<String>,
        region: Option<String>,
        access_key_id: Option<String>,
        secret_access_key: Option<String>,
        virtual_hosted_style: Option<bool>,
        allow_http: Option<bool>,
        bucket: Option<String>,
    },
}

/// The storage error at `key` behind the backend `label`.
pub open spec fn failure(label: Seq<char>, key: Seq<char>, e: BackendError) -> ErrorView {
    ErrorView::Storage { uri: label + "/"@ + key, source: e.message() }
}

/// What a read, a write or a listing means, given what the backend replied: every
/// failure is an error, a missing object too.
pub open spec fn call_answer<T>(
    label: Seq<char>,
    key: Seq<char>,
    reply: Result<T, BackendError>,
) -> Result<T, ErrorView> {
    match reply {
        Ok(value) => Ok(value),
        Err(e) => Err(failure(label, key, e)),
    }
}

/// What a deletion means, given what the backend replied. Deleting a missing
/// object is not an error.
pub open spec fn delete_answer(
    label: Seq<char>,
    key: Seq<char>,
    reply: Result<(), BackendError>,
) -> Result<(), ErrorView> {
    match reply {
        Ok(()) => Ok(()),
        Err(BackendError::NotFound(_)) => Ok(()),
        Err(e) => Err(failure(label, key, e)),
    }
}

/// What a metadata lookup means, given what the backend replied: a missing object
/// is a normal finding.
pub open spec fn head_answer<T>(
    label: Seq<char>,
    key: Seq<char>,
    reply: Result<T, BackendError>,
) -> Result<Option<T>, ErrorView> {
    match reply {
        Ok(meta) => Ok(Some(meta)),
        Err(BackendError::NotFound(_)) => Ok(None),
        Err(e) => Err(failure(label, key, e)),
    }
}

/// An outcome with its error in views.
pub open spec fn outcome<T>(out: Result<T, DtrError>) -> Result<T, ErrorView> {
    match out {
        Ok(value) => Ok(value),
        Err(e) => Err(e@),
    }
}

impl BackendPlan {
    /// The plan that a configuration asks for.
    pub open spec fn follows(self, cfg: RuntimeConfig, bucket_name: Option<String>) -> bool {
        let s3 = cfg.storage.s3;
        match self {
            BackendPlan::Fs { root_dir } => cfg.storage.backend == StorageBackendKind::Fs
                && root_dir@ == cfg.storage.fs.root_dir@,
            BackendPlan::S3 {
                endpoint,
                region,
                access_key_id,
                secret_access_key,
                virtual_hosted_style,
                allow_http,
                bucket,
            } => {
                &&& cfg.storage.backend == StorageBackendKind::S3
                &&& text::optional(endpoint) == text::optional(s3.endpoint)
                &&& text::optional(region) == text::optional(s3.region)
                &&& text::optional(access_key_id) == text::optional(s3.access_key_id)
                &&& text::optional(secret_access_key) == text::optional(s3.secret_access_key)
                &&& virtual_hosted_style == (if s3.force_path_style {
                    Some(false)
                } else {
                    None
                })
                &&& allow_http == (if s3.allow_http {
                    Some(true)
                } else {
                    None
                })
                &&& text::optional(bucket) == text::optional(bucket_name)
            },
        }
    }

    /// How the backend is called in errors.
    pub open spec fn name(self) -> Seq<char> {
        match self {
            BackendPlan::Fs { root_dir } => "fs:"@ + root_dir@,
            BackendPlan::S3 { endpoint: Some(endpoint), .. } => "s3:"@ + endpoint@,
            BackendPlan::S3 { .. } => "s3:aws"@,
        }
    }

    /// The facade of the backend once it is built.
    pub fn storage(&self) -> (out: ObjectStorage)
        ensures
            out.label@ == self.name(),
    {
        match self {
            BackendPlan::Fs { root_dir } => ObjectStorage {
                label: text::join2("fs:", root_dir.as_str()),
            },
            BackendPlan::S3 { endpoint: Some(endpoint), .. } => ObjectStorage {
                label: text::join2("s3:", endpoint.as_str()),
            },
            BackendPlan::S3 { .. } => ObjectStorage { label: "s3:aws".to_owned() },
        }
    }

    /// The error for a backend that could not be built.
    pub fn failed(&self, cause: &str) -> (out: DtrError)
        ensures
            out@ == (ErrorView::Storage {
                uri: match *self {
                    BackendPlan::Fs { root_dir } => root_dir@,
                    BackendPlan::S3 { .. } => "s3"@,
                },
                source: cause@,
            }),
    {
        match self {
            BackendPlan::Fs { root_dir } => DtrError::storage(root_dir.as_str(), cause),
            BackendPlan::S3 { .. } => DtrError::storage("s3", cause),
        }
    }
}

impl ObjectStorage {
    pub fn new(label: &str) -> (out: Self)
        ensures
            out.label@ == label@,
    {
        ObjectStorage { label: label.to_owned() }
    }

    /// Plans the backend selected by config. A store is scoped to one bucket,
    /// `bucket`, which the environment selects.
    pub fn from_config(cfg: &RuntimeConfig, bucket: Option<String>) -> (out: BackendPlan)
        ensures
            out.follows(*cfg, bucket),
    {
        match cfg.storage.backend {
            StorageBackendKind::Fs => BackendPlan::Fs {
                root_dir: cfg.storage.fs.root_dir.clone(),
            },
            StorageBackendKind::S3 => BackendPlan::S3 {
                endpoint: text::clone_optional(&cfg.storage.s3.endpoint),
                region: text::clone_optional(&cfg.storage.s3.region),
                access_key_id: text::clone_optional(&cfg.storage.s3.access_key_id),
                secret_access_key: text::clone_optional(&cfg.storage.s3.secret_access_key),
                virtual_hosted_style: if cfg.storage.s3.force_path_style {
                    Some(false)
                } else {
                    None
                },
                allow_http: if cfg.storage.s3.allow_http {
                    Some(true)
                } else {
                    None
                },
                bucket,
            },
        }
    }

    /// The facade of an in-memory backend.
    pub fn in_memory() -> (out: Self)
        ensures
            out.label@ == "mem"@,
    {
        Self::new("mem")
    }

    fn ctx(&self, key: &str) -> (out: String)
        ensures
            out@ == self.label@ + "/"@ + key@,
    {
        text::join3(self.label.as_str(), "/", key)
    }

    fn fail(&self, key: &str, e: BackendError) -> (out: DtrError)
        ensures
            out@ == failure(self.label@, key@, e),
    {
        let uri: String = self.ctx(key);
        match e {
            BackendError::NotFound(m) => DtrError::storage(uri.as_str(), m.as_str()),
            BackendError::Other(m) => DtrError::storage(uri.as_str(), m.as_str()),
        }
    }

    /// What a call that reads, writes or lists means: every failure is an error,
    /// a missing object too.
    pub fn answer<T>(&self, key: &str, reply: Result<T, BackendError>) -> (out: Result<T, DtrError>)
        ensures
            outcome(out) == call_answer(self.label@, key@, reply),
    {
        match reply {
            Ok(value) => Ok(value),
            Err(e) => Err(self.fail(key, e)),
        }
    }

    /// What a deletion means. Deleting a missing object is not an error.
    pub fn delete(&self, key: &str, reply: Result<(), BackendError>) -> (out: Result<(), DtrError>)
        ensures
            outcome(out) == delete_answer(self.label@, key@, reply),
    {
        match reply {
            Ok(()) => Ok(()),
            Err(BackendError::NotFound(_)) => Ok(()),
            Err(e) => Err(self.fail(key, e)),
        }
    }

    /// What a metadata lookup means: None if the object does not exist.
    pub fn head(&self, key: &str, reply: Result<ObjectMeta, BackendError>) -> (out: Result<
        Option<ObjectMeta>,
        DtrError,
    >)
        ensures
            outcome(out) == head_answer(self.label@, key@, reply),
    {
        match reply {
            Ok(meta) => Ok(Some(meta)),
            Err(BackendError::NotFound(_)) => Ok(None),
            Err(e) => Err(self.fail(key, e)),
        }
    }
}

/// What storage holds, by key.
pub type Store = Map<Seq<char>, Seq<u8>>;

/// What storage that answers truthfully says to a metadata lookup.
pub open spec fn looked_up(store: Store, key: Seq<char>) -> Result<Option<MetaView>, ErrorView> {
    if store.contains_key(key) {
        Ok(Some(MetaView { key, size_bytes: store[key].len() as u64 }))
    } else {
        Ok(None)
    }
}

/// What storage that answers truthfully says to a read.
pub open spec fn read_out(store: Store, key: Seq<char>) -> Result<Seq<u8>, ErrorView> {
    if store.contains_key(key) {
        Ok(store[key])
    } else {
        Err(ErrorView::Storage { uri: key, source: Seq::empty() })
    }
}

/// What a backend that holds `store` replies to a metadata lookup.
pub open spec fn head_given(
    store: Store,
    key: Seq<char>,
    reply: Result<MetaView, BackendError>,
) -> bool {
    if store.contains_key(key) {
        reply == Ok::<MetaView, BackendError>(
            MetaView { key, size_bytes: store[key].len() as u64 },
        )
    } else {
        reply is Err && reply->Err_0 is NotFound
    }
}

/// What a backend that holds `store` replies to a read.
pub open spec fn get_given(
    store: Store,
    key: Seq<char>,
    reply: Result<Seq<u8>, BackendError>,
) -> bool {
    if store.contains_key(key) {
        reply == Ok::<Seq<u8>, BackendError>(store[key])
    } else {
        reply is Err && reply->Err_0 is NotFound
    }
}

/// What a backend that holds `store` replies to a deletion, which leaves
/// `store.remove(key)`. Backends differ in whether they mind a missing object.
pub open spec fn delete_given(
    store: Store,
    key: Seq<char>,
    reply: Result<(), BackendError>,
) -> bool {
    reply is Ok || (!store.contains_key(key) && reply->Err_0 is NotFound)
}

/// Looking up what a backend holds finds exactly that, and a missing object is
/// not an error.
pub proof fn lookups_are_truthful(
    store: Store,
    label: Seq<char>,
    key: Seq<char>,
    reply: Result<MetaView, BackendError>,
)
    requires
        head_given(store, key, reply),
    ensures
        head_answer(label, key, reply) == looked_up(store, key),
{
}

/// Deleting an object succeeds whether or not it is there, and so does deleting
/// it again. Afterwards it is not found, reading it is an error that names it,
/// and every other object is as it was.
pub proof fn deleting_is_final_and_idempotent(
    store: Store,
    label: Seq<char>,
    key: Seq<char>,
    other: Seq<char>,
    first: Result<(), BackendError>,
    second: Result<(), BackendError>,
    head: Result<MetaView, BackendError>,
    get: Result<Seq<u8>, BackendError>,
)
    requires
        delete_given(store, key, first),
        delete_given(store.remove(key), key, second),
        head_given(store.remove(key), key, head),
        get_given(store.remove(key), key, get),
        other != key,
    ensures
        delete_answer(label, key, first) == Ok::<(), ErrorView>(()),
        delete_answer(label, key, second) == Ok::<(), ErrorView>(()),
        head_answer(label, key, head) == Ok::<Option<MetaView>, ErrorView>(None),
        call_answer(label, key, get) matches Err(e) && (e matches ErrorView::Storage { uri, .. }
            && uri == label + "/"@ + key),
        store.remove(key).contains_key(other) == store.contains_key(other),
        store.contains_key(other) ==> store.remove(key)[other] == store[other],
        store.remove(key).remove(key) == store.remove(key),
{
    assert(store.remove(key).remove(key) =~= store.remove(key));
}

/// The key that a URI names, where its scheme is supported.
pub open spec fn routed(uri: Seq<char>) -> Option<Seq<char>> {
    if text::starts_with(uri, "s3://"@) {
        Some(
            match text::after_first(uri.skip(5), "/"@) {
                Some(path) => text::trim(path, '/'),
                None => Seq::empty(),
            },
        )
    } else if text::starts_with(uri, "file://"@) {
        Some(text::trim(uri.skip(7), '/'))
    } else if text::has(uri, "://"@) {
        None
    } else {
        Some(text::trim(uri, '/'))
    }
}

/// Strip a `file://` or `s3://bucket/` URI down to a backend-relative key.
///
/// The runtime config decides which backend is active; dataset and checkpoint
/// URIs from clients are resolved against it. `s3://bucket/a/b` -> `a/b` (the
/// bucket is part of backend construction), `file:///mnt/dtr/a/b` -> resolved
/// against the fs root by the backend itself, plain `a/b` passes through.
pub fn uri_to_key(uri: &str) -> (out: Result<String, DtrError>)
    ensures
        match out {
            Ok(key) => routed(uri@) == Some(key@),
            Err(e) => routed(uri@) is None && e@ == ErrorView::InvalidArgument(
                "unsupported storage URI scheme: "@ + uri@,
            ),
        },
{
    proof {
        reveal_strlit("s3://");
        reveal_strlit("file://");
        reveal_strlit("://");
        reveal_strlit("/");
    }
    let chars: Vec<char> = text::chars_of(uri);
    if text::begins_with(uri, "s3://") {
        assert(uri@.skip(5) =~= uri@.subrange(5, uri@.len() as int));
        let rest: &str = uri.substring_char(5, chars.len());
        let tail: Vec<char> = text::chars_of(rest);
        return match text::find(&tail, &text::chars_of("/"), 0) {
            None => {
                let empty: String = String::new();
                assert(empty@ =~= Seq::<char>::empty());
                Ok(empty)
            },
            Some(at) => {
                assert(rest@.skip(at + 1) =~= rest@.subrange(at + 1, rest@.len() as int));
                Ok(text::trim_matches(rest.substring_char(at + 1, tail.len()), '/'))
            },
        };
    }
    if text::begins_with(uri, "file://") {
        assert(uri@.skip(7) =~= uri@.subrange(7, uri@.len() as int));
        return Ok(text::trim_matches(uri.substring_char(7, chars.len()), '/'));
    }
    let scheme: Vec<char> = text::chars_of("://");
    proof {
        text::lemma_find_from(uri@, "://"@, 0);
    }
    match text::find(&chars, &scheme, 0) {
        Some(_) => Err(
            DtrError::InvalidArgument(text::join2("unsupported storage URI scheme: ", uri)),
        ),
        None => Ok(text::trim_matches(uri, '/')),
    }
}

/// Keys are relative to the backend's root: no key that a URI names starts or
/// ends with a slash.
pub proof fn keys_have_no_outer_slashes(uri: Seq<char>)
    ensures
        routed(uri) matches Some(key) ==> key.len() > 0 ==> key[0] != '/' && key.last() != '/',
{
    text::lemma_trimmed(uri, '/');
    text::lemma_trimmed(uri.skip(7), '/');
    if let Some(path) = text::after_first(uri.skip(5), "/"@) {
        text::lemma_trimmed(path, '/');
    }
}

/// A store that fails is told with the place and the cause. An object that is not
/// there is no failure for a lookup, nor for a removal; everything else is passed on
/// as it came.
pub proof fn backend_answers_are_passed_on(
    label: Seq<char>,
    key: Seq<char>,
    meta: MetaView,
    data: Seq<u8>,
    e: BackendError,
)
    ensures
        ({
            let told = ErrorView::Storage {
                uri: label + "/"@ + key,
                source: match e {
                    BackendError::NotFound(m) => m@,
                    BackendError::Other(m) => m@,
                },
            };
            &&& call_answer(label, key, Ok(data)) == Ok::<Seq<u8>, ErrorView>(data)
            &&& call_answer(label, key, Err::<Seq<u8>, BackendError>(e)) == Err::<
                Seq<u8>,
                ErrorView,
            >(told)
            &&& head_answer(label, key, Ok(meta)) == Ok::<Option<MetaView>, ErrorView>(Some(meta))
            &&& e is NotFound ==> head_answer(label, key, Err::<MetaView, BackendError>(e)) == Ok::<
                Option<MetaView>,
                ErrorView,
            >(None)
            &&& e is Other ==> head_answer(label, key, Err::<MetaView, BackendError>(e)) == Err::<
                Option<MetaView>,
                ErrorView,
            >(told)
            &&& delete_answer(label, key, Ok(())) == Ok::<(), ErrorView>(())
            &&& e is NotFound ==> delete_answer(label, key, Err(e)) == Ok::<(), ErrorView>(())
            &&& e is Other ==> delete_answer(label, key, Err(e)) == Err::<(), ErrorView>(told)
        }),
{
}

/// The backend is the configured one, with the configured settings; it is set up for
/// path-style addressing and for plain HTTP only where that is asked for. Errors name
/// it by its directory or endpoint.
pub proof fn the_backend_is_the_configured_one(
    plan: BackendPlan,
    cfg: RuntimeConfig,
    bucket_name: Option<String>,
)
    requires
        plan.follows(cfg, bucket_name),
    ensures
        cfg.storage.backend == StorageBackendKind::Fs <==> plan is Fs,
        plan matches BackendPlan::Fs { root_dir } ==> root_dir@ == cfg.storage.fs.root_dir@
            && plan.name() == "fs:"@ + root_dir@,
        plan matches BackendPlan::S3 {
            endpoint,
            region,
            access_key_id,
            secret_access_key,
            virtual_hosted_style,
            allow_http,
            bucket,
        } ==> {
            let s3 = cfg.storage.s3;
            &&& endpoint is Some <==> s3.endpoint is Some
            &&& endpoint is Some ==> endpoint->0@ == s3.endpoint->0@
            &&& region is Some <==> s3.region is Some
            &&& region is Some ==> region->0@ == s3.region->0@
            &&& access_key_id is Some <==> s3.access_key_id is Some
            &&& access_key_id is Some ==> access_key_id->0@ == s3.access_key_id->0@
            &&& secret_access_key is Some <==> s3.secret_access_key is Some
            &&& secret_access_key is Some ==> secret_access_key->0@ == s3.secret_access_key->0@
            &&& s3.force_path_style ==> virtual_hosted_style == Some(false)
            &&& !s3.force_path_style ==> virtual_hosted_style is None
            &&& s3.allow_http ==> allow_http == Some(true)
            &&& !s3.allow_http ==> allow_http is None
            &&& bucket is Some <==> bucket_name is Some
            &&& bucket is Some ==> bucket->0@ == bucket_name->0@
            &&& endpoint is Some ==> plan.name() == "s3:"@ + endpoint->0@
            &&& endpoint is None ==> plan.name() == "s3:aws"@
        },
{
}

/// A URI leads to a key: behind the bucket of an S3 URI, behind the scheme of a file
/// URI, and to itself without a scheme, each without slashes around it. Other schemes
/// lead nowhere.
pub proof fn uris_lead_to_keys(bucket: Seq<char>, path: Seq<char>)
    ensures
        (forall|i: int| 0 <= i < bucket.len() ==> #[trigger] bucket[i] != '/') ==> {
            &&& routed("s3://"@ + bucket + "/"@ + path) == Some(text::trim(path, '/'))
            &&& routed("s3://"@ + bucket) == Some(Seq::<char>::empty())
        },
        routed("file://"@ + path) == Some(text::trim(path, '/')),
        !text::has(path, "://"@) ==> routed(path) == Some(text::trim(path, '/')),
        text::has(path, "://"@) && !text::starts_with(path, "s3://"@) && !text::starts_with(
            path,
            "file://"@,
        ) ==> routed(path) is None,
{
    reveal_strlit("s3://");
    reveal_strlit("file://");
    reveal_strlit("://");
    reveal_strlit("/");
    let s3 = "s3://"@ + bucket + "/"@ + path;
    let bare = "s3://"@ + bucket;
    let file = "file://"@ + path;
    if forall|i: int| 0 <= i < bucket.len() ==> #[trigger] bucket[i] != '/' {
        let rest = bucket + "/"@ + path;
        assert(s3.subrange(0, 5) =~= "s3://"@);
        assert(bare.subrange(0, 5) =~= "s3://"@);
        assert(s3.skip(5) =~= rest);
        assert(bare.skip(5) =~= bucket);
        assert(rest.subrange(bucket.len() as int, bucket.len() + 1int) =~= "/"@);
        assert forall|j: int| 0 <= j < bucket.len() implies !text::occurs_at(rest, "/"@, j) by {
            assert(rest[j] == bucket[j]);
            if text::occurs_at(rest, "/"@, j) {
                assert(rest.subrange(j, j + 1)[0] == '/');
            }
        }
        text::lemma_find_from_is(rest, "/"@, 0, bucket.len() as int);
        assert(rest.skip(bucket.len() + 1int) =~= path);
        text::lemma_find_from(bucket, "/"@, 0);
        if let Some(i) = text::find_from(bucket, "/"@, 0) {
            assert(bucket.subrange(i, i + 1)[0] == '/');
        }
    }
    assert(file.subrange(0, 7) =~= "file://"@);
    assert(file.skip(7) =~= path);
    assert(!text::starts_with(file, "s3://"@)) by {
        assert(file[0] == 'f');
        if text::starts_with(file, "s3://"@) {
            assert(file.subrange(0, 5)[0] == 's');
        }
    }
    if !text::has(path, "://"@) {
        if text::starts_with(path, "s3://"@) {
            assert(path.subrange(0, 5) == "s3://"@);
            assert(path.subrange(2, 5) =~= "s3://"@.subrange(2, 5)) by {
                assert(path.subrange(0, 5).subrange(2, 5) =~= path.subrange(2, 5));
            }
            assert("s3://"@.subrange(2, 5) =~= "://"@);
            assert(text::occurs_at(path, "://"@, 2));
        }
        if text::starts_with(path, "file://"@) {
            assert(path.subrange(0, 7) == "file://"@);
            assert(path.subrange(4, 7) =~= "file://"@.subrange(4, 7)) by {
                assert(path.subrange(0, 7).subrange(4, 7) =~= path.subrange(4, 7));
            }
            assert("file://"@.subrange(4, 7) =~= "://"@);
            assert(text::occurs_at(path, "://"@, 4));
        }
    }
}

/// Metadata and results are seen as they are.
pub proof fn metadata_is_seen_as_it_is(meta: ObjectMeta, out: Result<Vec<u8>, DtrError>)
    ensures
        meta@.key == meta.key@,
        meta@.size_bytes == meta.size_bytes,
        match out {
            Ok(value) => outcome(out) == Ok::<Vec<u8>, ErrorView>(value),
            Err(e) => outcome(out) == Err::<Vec<u8>, ErrorView>(e@),
        },
{
}

} // verus!
