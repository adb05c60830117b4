//! Shared application state wired once in the server and handed to all three
//! RPC services.

use crate::barrier::BarrierState;
use crate::checkpoint::CheckpointStore;
use crate::config::RuntimeConfig;
use crate::coordinator::Coordinator;
use crate::coordinator::CoordinatorState;
use crate::error::DtrError;
use crate::error::ErrorView;
use crate::hash;
use crate::io_engine::EngineView;
use crate::io_engine::IoEngine;
use crate::manifest;
use crate::manifest::ChunkRecord;
use crate::manifest::ChunkView;
use crate::outside;
use crate::storage;
use crate::table::Table;
use crate::text;
use crate::types::CheckpointToken;
use crate::types::TargetId;
use crate::types::WorkerId;
use vstd::prelude::*;

verus! {

/// A registered checkpoint destination.
#[derive(Debug)]
pub struct TargetInfo {
    pub target_id: TargetId,
    /// Backend-relative key prefix (URI already routed via uri_to_key).
    pub prefix: String,
    pub chunk_bytes: u64,
    pub keep_last: u32,
}

/// A [`TargetInfo`] with its texts as character sequences.
#[verifier::ext_equal]
pub struct TargetView {
    pub target_id: Seq<char>,
    pub prefix: Seq<char>,
    pub chunk_bytes: u64,
    pub keep_last: u32,
}

impl View for TargetInfo {
    type V = TargetView;

    open spec fn view(&self) -> TargetView {
        TargetView {
            target_id: self.target_id@,
            prefix: self.prefix@,
            chunk_bytes: self.chunk_bytes,
            keep_last: self.keep_last,
        }
    }
}

impl Clone for TargetInfo {
    fn clone(&self) -> (out: Self)
        ensures
            out@ == self@,
    {
        TargetInfo {
            target_id: self.target_id.clone(),
            prefix: self.prefix.clone(),
            chunk_bytes: self.chunk_bytes,
            keep_last: self.keep_last,
        }
    }
}

/// The chunks reported for one checkpoint.
pub struct Reports {
    pub chunks: Vec<ChunkRecord>,
}

impl View for Reports {
    type V = Seq<ChunkView>;

    open spec fn view(&self) -> Seq<ChunkView> {
        manifest::views(self.chunks@)
    }
}

/// The handle of the checkpoint target at `uri`.
pub open spec fn target_handle(uri: Seq<char>) -> Seq<char> {
    "tgt-"@ + text::hex_fixed(hash::fnv1a(vstd::utf8::encode_utf8(uri)) as nat, 16)
}

/// What the services share.
#[verifier::ext_equal]
pub struct AppView {
    pub coordinator: CoordinatorState,
    pub io: EngineView,
    pub targets: Map<Seq<char>, TargetView>,
    pub reported: Map<Seq<char>, Seq<ChunkView>>,
    pub default_chunk_bytes: u64,
    pub barrier_timeout_ms: u64,
}

impl AppView {
    /// What a server starts with.
    pub open spec fn initial(cfg: RuntimeConfig) -> AppView {
        AppView {
            coordinator: CoordinatorState::initial(
                cfg.coordinator,
                cfg.checkpoint.quorum,
                cfg.checkpoint.barrier_timeout_ms,
            ),
            io: EngineView::initial(cfg.io.cache_bytes, cfg.io.prefetch_depth),
            targets: Map::empty(),
            reported: Map::empty(),
            default_chunk_bytes: cfg.checkpoint.default_chunk_bytes,
            barrier_timeout_ms: cfg.checkpoint.barrier_timeout_ms,
        }
    }

    pub open spec fn consistent(self) -> bool {
        &&& self.coordinator.consistent()
        &&& self.io.consistent()
        &&& forall|id: Seq<char>| #[trigger]
            self.targets.contains_key(id) ==> self.targets[id].target_id == id
    }

    /// The barriers are replaced.
    pub open spec fn with_barriers(self, barriers: BarrierState) -> AppView {
        AppView { coordinator: CoordinatorState { barriers, ..self.coordinator }, ..self }
    }

    /// Whether the worker is known and the token is its own.
    pub open spec fn auth(self, worker: Seq<char>, token: Seq<char>) -> Result<(), ErrorView> {
        self.coordinator.membership.authenticate(worker, token)
    }

    /// What registering a target does to the state, and what is known of the
    /// target then. A target that is known already stays as it is.
    pub open spec fn register_target(
        self,
        uri: Seq<char>,
        chunk_bytes: u64,
        keep_last: u32,
    ) -> (AppView, Result<(TargetView, bool), ErrorView>) {
        let id = target_handle(uri);
        match storage::routed(uri) {
            None => (
                self,
                Err(ErrorView::InvalidArgument("unsupported storage URI scheme: "@ + uri)),
            ),
            Some(prefix) => if self.targets.contains_key(id) {
                (self, Ok((self.targets[id], true)))
            } else {
                let info = TargetView {
                    target_id: id,
                    prefix,
                    chunk_bytes: if chunk_bytes == 0 {
                        self.default_chunk_bytes
                    } else {
                        chunk_bytes
                    },
                    keep_last,
                };
                (AppView { targets: self.targets.insert(id, info), ..self }, Ok((info, false)))
            },
        }
    }

    pub open spec fn target(self, id: Seq<char>) -> Result<TargetView, ErrorView> {
        if self.targets.contains_key(id) {
            Ok(self.targets[id])
        } else {
            Err(ErrorView::InvalidArgument("unknown target "@ + id))
        }
    }

    /// The chunks reported for a checkpoint.
    pub open spec fn chunks_of(self, token: Seq<char>) -> Seq<ChunkView> {
        if self.reported.contains_key(token) {
            self.reported[token]
        } else {
            Seq::empty()
        }
    }

    /// More chunks are reported for a checkpoint.
    pub open spec fn recorded(self, token: Seq<char>, chunks: Seq<ChunkView>) -> AppView {
        AppView {
            reported: self.reported.insert(token, self.chunks_of(token) + chunks),
            ..self
        }
    }

    /// What was reported for a checkpoint is forgotten.
    pub open spec fn forgotten(self, token: Seq<char>) -> AppView {
        AppView { reported: self.reported.remove(token), ..self }
    }

    /// All barriers, with deadlines applied.
    pub open spec fn looked_over(self, now: nat) -> AppView {
        self.with_barriers(self.coordinator.barriers.looked_over(now))
    }
}

pub struct AppState {
    pub cfg: RuntimeConfig,
    pub coordinator: Coordinator,
    pub io: IoEngine,
    pub ckpt: CheckpointStore,
    /// Registered checkpoint targets by id.
    pub targets: Table<TargetInfo>,
    /// Chunk records reported per open checkpoint token.
    pub reported: Table<Reports>,
}

impl View for AppState {
    type V = AppView;

    open spec fn view(&self) -> AppView {
        AppView {
            coordinator: self.coordinator@,
            io: self.io@,
            targets: self.targets@,
            reported: self.reported@,
            default_chunk_bytes: self.cfg.checkpoint.default_chunk_bytes,
            barrier_timeout_ms: self.cfg.checkpoint.barrier_timeout_ms,
        }
    }
}

/// A result of registering a target, in views.
pub open spec fn target_outcome(out: Result<(TargetInfo, bool), DtrError>) -> Result<
    (TargetView, bool),
    ErrorView,
> {
    match out {
        Ok((info, existed)) => Ok((info@, existed)),
        Err(e) => Err(e@),
    }
}

impl AppState {
    pub open spec fn wf(self) -> bool {
        &&& self.coordinator.wf()
        &&& self.io.wf()
        &&& self.targets.wf()
        &&& self.reported.wf()
        &&& forall|id: Seq<char>| #[trigger]
            self.targets@.contains_key(id) ==> self.targets@[id].target_id == id
    }

    /// The latest reading of the clock that deadlines are measured on.
    pub open spec fn latest(self) -> nat {
        self.coordinator.latest()
    }

    /// What well-formedness says about the state.
    pub proof fn lemma_wf(&self)
        requires
            self.wf(),
        ensures
            self@.consistent(),
    {
        self.coordinator.lemma_wf();
        self.io.lemma_wf();
    }

    pub fn new(cfg: RuntimeConfig) -> (out: Self)
        ensures
            out.wf(),
            out.cfg == cfg,
            out@ == AppView::initial(cfg),
            out.latest() == 0,
    {
        let coordinator = Coordinator::new(
            &cfg.coordinator,
            cfg.checkpoint.quorum,
            cfg.checkpoint.barrier_timeout_ms,
        );
        let io = IoEngine::new(cfg.io.cache_bytes, cfg.io.prefetch_depth);
        AppState {
            cfg,
            coordinator,
            io,
            ckpt: CheckpointStore::new(),
            targets: Table::new(),
            reported: Table::new(),
        }
    }

    /// Authenticate a (worker, token) pair against membership.
    pub fn auth(&self, worker_id: &str, token: &str) -> (out: Result<WorkerId, DtrError>)
        requires
            self.wf(),
        ensures
            match out {
                Ok(id) => self@.auth(worker_id@, token@) is Ok && id@ == worker_id@,
                Err(e) => self@.auth(worker_id@, token@) == Err::<(), ErrorView>(e@),
            },
    {
        let id = WorkerId::new(worker_id);
        match self.coordinator.membership.authenticate(&id, token) {
            Ok(()) => Ok(id),
            Err(e) => Err(e),
        }
    }

    /// Register (or look up) a checkpoint target. Deterministic id per URI.
    pub fn register_target(&mut self, uri: &str, chunk_bytes: u64, keep_last: u32) -> (out: Result<
        (TargetInfo, bool),
        DtrError,
    >)
        requires
            old(self).wf(),
        ensures
            final(self).wf(),
            final(self).cfg == old(self).cfg,
            final(self).latest() == old(self).latest(),
            (final(self)@, target_outcome(out)) == old(self)@.register_target(
                uri@,
                chunk_bytes,
                keep_last,
            ),
    {
        match storage::uri_to_key(uri) {
            Err(e) => Err(e),
            Ok(prefix) => {
                let digits: String = text::hex16_string(hash::fnv(uri.as_bytes()));
                let target_id = TargetId(text::join2("tgt-", digits.as_str()));
                match self.targets.get(target_id.as_str()) {
                    Some(info) => Ok((info.clone(), true)),
                    None => {
                        let info = TargetInfo {
                            target_id: target_id.clone(),
                            prefix,
                            chunk_bytes: if chunk_bytes == 0 {
                                self.cfg.checkpoint.default_chunk_bytes
                            } else {
                                chunk_bytes
                            },
                            keep_last,
                        };
                        self.targets.put(target_id.to_string(), info.clone());
                        Ok((info, false))
                    },
                }
            },
        }
    }

    pub fn target(&self, target_id: &TargetId) -> (out: Result<TargetInfo, DtrError>)
        requires
            self.wf(),
        ensures
            match out {
                Ok(info) => self@.target(target_id@) == Ok::<TargetView, ErrorView>(info@),
                Err(e) => self@.target(target_id@) == Err::<TargetView, ErrorView>(e@),
            },
    {
        match self.targets.get(target_id.as_str()) {
            Some(info) => Ok(info.clone()),
            None => Err(
                DtrError::InvalidArgument(text::join2("unknown target ", target_id.as_str())),
            ),
        }
    }

    pub fn record_chunks(&mut self, token: &CheckpointToken, chunks: Vec<ChunkRecord>)
        requires
            old(self).wf(),
        ensures
            final(self).wf(),
            final(self).cfg == old(self).cfg,
            final(self).latest() == old(self).latest(),
            final(self)@ == old(self)@.recorded(token@, manifest::views(chunks@)),
    {
        let ghost before = self@;
        let mut reports: Reports = match self.reported.take(token.as_str()) {
            Some(reports) => reports,
            None => {
                let reports = Reports { chunks: Vec::new() };
                assert(reports@ =~= Seq::<ChunkView>::empty());
                reports
            },
        };
        let mut more: Vec<ChunkRecord> = chunks;
        let ghost known = reports@;
        reports.chunks.append(&mut more);
        assert(reports@ =~= known + manifest::views(chunks@));
        self.reported.put(token.to_string(), reports);
        assert(self@.reported =~= before.recorded(token@, manifest::views(chunks@)).reported);
    }

    pub fn reported_chunks(&self, token: &CheckpointToken) -> (out: Vec<ChunkRecord>)
        requires
            self.wf(),
        ensures
            manifest::views(out@) == self@.chunks_of(token@),
    {
        match self.reported.get(token.as_str()) {
            Some(reports) => manifest::clone_chunks(&reports.chunks),
            None => {
                let none: Vec<ChunkRecord> = Vec::new();
                assert(manifest::views(none@) =~= Seq::<ChunkView>::empty());
                none
            },
        }
    }

    pub fn drop_reported(&mut self, token: &CheckpointToken)
        requires
            old(self).wf(),
        ensures
            final(self).wf(),
            final(self).cfg == old(self).cfg,
            final(self).latest() == old(self).latest(),
            final(self)@ == old(self)@.forgotten(token@),
    {
        self.reported.take(token.as_str());
    }

    /// Steps with an open (pending or ready) barrier: the GC spare list.
    pub fn in_flight_steps(&mut self) -> (out: Vec<u64>)
        requires
            old(self).wf(),
        ensures
            final(self).wf(),
            final(self).cfg == old(self).cfg,
            old(self).latest() <= final(self).latest() <= outside::MAX_NANOS,
            final(self)@ == old(self)@.looked_over(final(self).latest()),
            old(self)@.coordinator.barriers.lists_open_steps(out@, final(self).latest()),
    {
        let now: u128 = self.coordinator.now();
        self.in_flight_steps_at(now)
    }

    /// [`AppState::in_flight_steps`] at the clock reading `now`.
    pub fn in_flight_steps_at(&mut self, now: u128) -> (out: Vec<u64>)
        requires
            old(self).wf(),
        ensures
            final(self).wf(),
            final(self).cfg == old(self).cfg,
            final(self).latest() == old(self).latest(),
            final(self)@ == old(self)@.looked_over(now as nat),
            old(self)@.coordinator.barriers.lists_open_steps(out@, now as nat),
    {
        self.coordinator.barriers.open_steps_at(now)
    }
}

/// A server starts with nothing, on exactly the configured terms.
pub proof fn a_server_starts_on_its_terms(cfg: RuntimeConfig, name: Seq<char>)
    ensures
        ({
            let state = AppView::initial(cfg);
            &&& state.coordinator == CoordinatorState::initial(
                cfg.coordinator,
                cfg.checkpoint.quorum,
                cfg.checkpoint.barrier_timeout_ms,
            )
            &&& state.io == EngineView::initial(cfg.io.cache_bytes, cfg.io.prefetch_depth)
            &&& !state.targets.contains_key(name)
            &&& !state.reported.contains_key(name)
            &&& state.default_chunk_bytes == cfg.checkpoint.default_chunk_bytes
            &&& state.barrier_timeout_ms == cfg.checkpoint.barrier_timeout_ms
        }),
{
}

/// A target that is not known yet is filed under the handle of its URI, below the key
/// that the URI leads to, with the chunk size and retention given; no chunk size means
/// the default one. A known target is found as it is, and a URI that leads nowhere is
/// refused. Nothing else changes.
pub proof fn a_target_is_filed_as_given(
    state: AppView,
    uri: Seq<char>,
    chunk_bytes: u64,
    keep_last: u32,
)
    ensures
        ({
            let (after, out) = state.register_target(uri, chunk_bytes, keep_last);
            let id = "tgt-"@ + text::hex_fixed(
                hash::fnv1a(vstd::utf8::encode_utf8(uri)) as nat,
                16,
            );
            let known = state.targets.contains_key(id);
            &&& out is Err <==> storage::routed(uri) is None
            &&& out is Err ==> after == state && out == Err::<(TargetView, bool), ErrorView>(
                ErrorView::InvalidArgument("unsupported storage URI scheme: "@ + uri),
            )
            &&& out is Ok && known ==> after == state && out->Ok_0 == (state.targets[id], true)
            &&& out is Ok && !known ==> {
                let filed = after.targets[id];
                &&& out->Ok_0 == (filed, false)
                &&& after.targets.contains_key(id)
                &&& filed.target_id == id
                &&& filed.prefix == storage::routed(uri)->0
                &&& chunk_bytes == 0 ==> filed.chunk_bytes == state.default_chunk_bytes
                &&& chunk_bytes != 0 ==> filed.chunk_bytes == chunk_bytes
                &&& filed.keep_last == keep_last
                &&& forall|other: Seq<char>|
                    other != id ==> (#[trigger] after.targets.contains_key(other)
                        <==> state.targets.contains_key(other))
                &&& forall|other: Seq<char>|
                    other != id && state.targets.contains_key(other)
                        ==> #[trigger] after.targets[other] == state.targets[other]
            }
            &&& after.coordinator == state.coordinator
            &&& after.io == state.io
            &&& after.reported == state.reported
            &&& after.default_chunk_bytes == state.default_chunk_bytes
            &&& after.barrier_timeout_ms == state.barrier_timeout_ms
        }),
{
}

/// A target is looked up under its handle; one that is not known is refused.
pub proof fn targets_are_looked_up_by_handle(state: AppView, id: Seq<char>)
    ensures
        state.targets.contains_key(id) ==> state.target(id) == Ok::<TargetView, ErrorView>(
            state.targets[id],
        ),
        !state.targets.contains_key(id) ==> state.target(id) == Err::<TargetView, ErrorView>(
            ErrorView::InvalidArgument("unknown target "@ + id),
        ),
{
}

/// Reported chunks are kept per checkpoint, all of them and in the order of their
/// reports, until that checkpoint is forgotten. Nothing else changes.
pub proof fn reported_chunks_are_kept(
    state: AppView,
    token: Seq<char>,
    chunks: Seq<ChunkView>,
    other: Seq<char>,
)
    ensures
        ({
            let after = state.recorded(token, chunks);
            let gone = state.forgotten(token);
            &&& after.chunks_of(token) == state.chunks_of(token) + chunks
            &&& !state.reported.contains_key(token) ==> state.chunks_of(token).len() == 0
            &&& state.reported.contains_key(token) ==> state.chunks_of(token)
                == state.reported[token]
            &&& other != token ==> after.chunks_of(other) == state.chunks_of(other)
            &&& gone.chunks_of(token).len() == 0
            &&& !gone.reported.contains_key(token)
            &&& other != token ==> gone.chunks_of(other) == state.chunks_of(other)
            &&& after.coordinator == state.coordinator && gone.coordinator == state.coordinator
            &&& after.targets == state.targets && gone.targets == state.targets
            &&& after.io == state.io && gone.io == state.io
        }),
{
}

/// A session counts with the server exactly if it does with the registry of workers,
/// and replacing the barriers replaces nothing else.
pub proof fn the_server_goes_by_its_registry(
    state: AppView,
    worker: Seq<char>,
    token: Seq<char>,
    barriers: BarrierState,
    now: nat,
)
    ensures
        state.auth(worker, token) == state.coordinator.membership.authenticate(worker, token),
        ({
            let after = state.with_barriers(barriers);
            &&& after.coordinator.barriers == barriers
            &&& after.coordinator.membership == state.coordinator.membership
            &&& after.coordinator.leases == state.coordinator.leases
            &&& after.io == state.io
            &&& after.targets == state.targets
            &&& after.reported == state.reported
            &&& after.default_chunk_bytes == state.default_chunk_bytes
            &&& after.barrier_timeout_ms == state.barrier_timeout_ms
        }),
        state.looked_over(now) == state.with_barriers(state.coordinator.barriers.looked_over(now)),
{
}

/// A target is seen as it is, and so is what came of registering one.
pub proof fn targets_are_seen_as_they_are(
    info: TargetInfo,
    out: Result<(TargetInfo, bool), DtrError>,
)
    ensures
        info@.target_id == info.target_id@,
        info@.prefix == info.prefix@,
        info@.chunk_bytes == info.chunk_bytes,
        info@.keep_last == info.keep_last,
        match out {
            Ok(known) => target_outcome(out) == Ok::<(TargetView, bool), ErrorView>(
                (known.0@, known.1),
            ),
            Err(e) => target_outcome(out) == Err::<(TargetView, bool), ErrorView>(e@),
        },
{
}

} // verus!
