//! Verify-then-publish: the decisions of one checkpoint commit.
//!
//! Object stores have no atomic rename, so visibility is controlled by a
//! manifest. A [`CommitRun`] says which storage call comes next and is told how
//! it went. It asks for every reported chunk, and hands out the manifest only
//! after all of them have been found intact.

use crate::checkpoint;
use crate::error::DtrError;
use crate::error::ErrorView;
use crate::layout;
use crate::manifest;
use crate::manifest::ChunkRecord;
use crate::manifest::ChunkView;
use crate::manifest::Manifest;
use crate::manifest::ManifestView;
use crate::outside;
use crate::storage::MetaView;
use crate::storage::ObjectMeta;
use crate::text;
use bytes::Bytes;
use vstd::prelude::*;

verus! {

/// The storage call that a commit waits for.
#[derive(Debug)]
pub enum CommitAction {
    /// Look up the metadata of a chunk.
    Head { key: String },
    /// Read a chunk.
    Get { key: String },
    /// Take the manifest and write it under the key.
    Publish { key: String },
    /// Move the pointer: write `data` under the key.
    Point { key: String, data: Bytes },
    /// Nothing more: the outcome is known.
    Finish,
}

/// How far a commit has come.
enum Phase {
    Head(usize),
    Get(usize),
    Publish,
    Publishing(String),
    Point(Bytes),
    Done(Result<String, DtrError>),
}

/// How far a commit has come.
pub enum PhaseView {
    /// The metadata of a chunk is asked for.
    Head(int),
    /// The contents of a chunk are asked for.
    Get(int),
    /// Every chunk is verified; the manifest can be taken.
    Publish,
    /// The manifest with the given timestamp has been taken.
    Publishing(Seq<char>),
    /// The manifest exists; the pointer is to be written, if possible.
    Point(Seq<u8>),
    /// The outcome: the manifest's key, or what went wrong.
    Done(Result<Seq<char>, ErrorView>),
}

impl View for Phase {
    type V = PhaseView;

    closed spec fn view(&self) -> PhaseView {
        match *self {
            Phase::Head(i) => PhaseView::Head(i as int),
            Phase::Get(i) => PhaseView::Get(i as int),
            Phase::Publish => PhaseView::Publish,
            Phase::Publishing(created_at) => PhaseView::Publishing(created_at@),
            Phase::Point(data) => PhaseView::Point(outside::contents(data)),
            Phase::Done(Ok(key)) => PhaseView::Done(Ok(key@)),
            Phase::Done(Err(e)) => PhaseView::Done(Err(e@)),
        }
    }
}

/// What a commit knows.
#[verifier::ext_equal]
pub struct CommitView {
    pub prefix: Seq<char>,
    pub step: u64,
    pub chunks: Seq<ChunkView>,
    pub verify_content: bool,
    pub phase: PhaseView,
}

/// The error of a checkpoint that does not hold together.
pub open spec fn corrupt(step: u64, reason: Seq<char>) -> ErrorView {
    ErrorView::CheckpointCorrupt { token: "step-"@ + text::decimal(step as nat), reason }
}

/// Whether a chunk's metadata is as reported.
pub open spec fn head_verdict(
    step: u64,
    chunk: ChunkView,
    reply: Result<Option<MetaView>, ErrorView>,
) -> Result<(), ErrorView> {
    match reply {
        Err(e) => Err(e),
        Ok(None) => Err(corrupt(step, "missing chunk "@ + chunk.key)),
        Ok(Some(meta)) => if meta.size_bytes != chunk.size_bytes {
            Err(
                corrupt(
                    step,
                    "size mismatch for "@ + chunk.key + ": stored "@ + text::decimal(
                        meta.size_bytes as nat,
                    ) + " != reported "@ + text::decimal(chunk.size_bytes as nat),
                ),
            )
        } else {
            Ok(())
        },
    }
}

/// Whether a chunk's contents are as reported.
pub open spec fn get_verdict(
    step: u64,
    chunk: ChunkView,
    reply: Result<Seq<u8>, ErrorView>,
) -> Result<(), ErrorView> {
    match reply {
        Err(e) => Err(e),
        Ok(data) => if checkpoint::digest_text(data) != chunk.sha256 {
            Err(
                corrupt(
                    step,
                    "checksum mismatch for "@ + chunk.key + ": stored "@ + checkpoint::digest_text(
                        data,
                    ) + " != reported "@ + chunk.sha256,
                ),
            )
        } else {
            Ok(())
        },
    }
}

/// The contents of the pointer to a step's manifest.
pub open spec fn pointer(prefix: Seq<char>, step: u64, created_at: Seq<char>) -> Seq<u8> {
    outside::json_object(
        "step"@,
        step,
        "manifest_key"@,
        layout::manifest_name(prefix, step),
        "committed_at"@,
        created_at,
    )
}

impl CommitView {
    /// A commit starts by asking for its first chunk; one without chunks fails.
    pub open spec fn started(
        prefix: Seq<char>,
        step: u64,
        chunks: Seq<ChunkView>,
        verify_content: bool,
    ) -> CommitView {
        CommitView {
            prefix,
            step,
            chunks,
            verify_content,
            phase: if chunks.len() == 0 {
                PhaseView::Done(Err(corrupt(step, "no chunks reported"@)))
            } else {
                PhaseView::Head(0)
            },
        }
    }

    pub open spec fn with_phase(self, phase: PhaseView) -> CommitView {
        CommitView { phase, ..self }
    }

    /// The chunk `i` is verified: on to the next, or to the manifest.
    pub open spec fn past(self, i: int) -> CommitView {
        self.with_phase(
            if i + 1 < self.chunks.len() {
                PhaseView::Head(i + 1)
            } else {
                PhaseView::Publish
            },
        )
    }

    /// What a metadata lookup leads to.
    pub open spec fn after_head(self, reply: Result<Option<MetaView>, ErrorView>) -> CommitView {
        let i = self.phase->Head_0;
        match head_verdict(self.step, self.chunks[i], reply) {
            Err(e) => self.with_phase(PhaseView::Done(Err(e))),
            Ok(()) => if self.verify_content {
                self.with_phase(PhaseView::Get(i))
            } else {
                self.past(i)
            },
        }
    }

    /// What reading a chunk leads to.
    pub open spec fn after_get(self, reply: Result<Seq<u8>, ErrorView>) -> CommitView {
        let i = self.phase->Get_0;
        match get_verdict(self.step, self.chunks[i], reply) {
            Err(e) => self.with_phase(PhaseView::Done(Err(e))),
            Ok(()) => self.past(i),
        }
    }

    /// What writing the manifest leads to.
    pub open spec fn after_publish(self, reply: Result<(), ErrorView>) -> CommitView {
        self.with_phase(
            match reply {
                Err(e) => PhaseView::Done(Err(e)),
                Ok(()) => PhaseView::Point(
                    pointer(self.prefix, self.step, self.phase->Publishing_0),
                ),
            },
        )
    }

    /// What the attempt to write the pointer leads to: the checkpoint exists since
    /// its manifest does, whether or not the pointer could be moved.
    pub open spec fn after_point(self) -> CommitView {
        self.with_phase(PhaseView::Done(Ok(layout::manifest_name(self.prefix, self.step))))
    }

    /// The chunk that is asked for is one of those reported.
    pub open spec fn consistent(self) -> bool {
        match self.phase {
            PhaseView::Head(i) => 0 <= i < self.chunks.len(),
            PhaseView::Get(i) => 0 <= i < self.chunks.len(),
            _ => true,
        }
    }
}

/// A metadata reply, in views.
pub open spec fn head_reply(reply: Result<Option<ObjectMeta>, DtrError>) -> Result<
    Option<MetaView>,
    ErrorView,
> {
    match reply {
        Ok(Some(meta)) => Ok(Some(meta@)),
        Ok(None) => Ok(None),
        Err(e) => Err(e@),
    }
}

/// A read reply, in views.
pub open spec fn get_reply(reply: Result<Bytes, DtrError>) -> Result<Seq<u8>, ErrorView> {
    match reply {
        Ok(data) => Ok(outside::contents(data)),
        Err(e) => Err(e@),
    }
}

/// A write reply, in views.
pub open spec fn put_reply(reply: Result<(), DtrError>) -> Result<(), ErrorView> {
    match reply {
        Ok(()) => Ok(()),
        Err(e) => Err(e@),
    }
}

/// One checkpoint commit in progress.
pub struct CommitRun {
    prefix: String,
    step: u64,
    chunks: Vec<ChunkRecord>,
    verify_content: bool,
    phase: Phase,
}

impl View for CommitRun {
    type V = CommitView;

    closed spec fn view(&self) -> CommitView {
        CommitView {
            prefix: self.prefix@,
            step: self.step,
            chunks: manifest::views(self.chunks@),
            verify_content: self.verify_content,
            phase: self.phase@,
        }
    }
}

fn corrupted(step: u64, reason: String) -> (out: DtrError)
    ensures
        out@ == corrupt(step, reason@),
{
    DtrError::CheckpointCorrupt {
        token: text::join2("step-", text::decimal_string(step).as_str()),
        reason,
    }
}

fn mismatch(what: &str, key: &str, stored: &str, reported: &str) -> (out: String)
    ensures
        out@ == what@ + key@ + ": stored "@ + stored@ + " != reported "@ + reported@,
{
    let mut out: String = what.to_owned();
    out.append(key);
    out.append(": stored ");
    out.append(stored);
    out.append(" != reported ");
    out.append(reported);
    out
}

impl CommitRun {
    pub closed spec fn wf(self) -> bool {
        self@.consistent()
    }

    /// Verify every reported chunk, then publish the manifest and update the
    /// `latest` pointer. The checkpoint exists iff the manifest object exists.
    pub fn start(
        target_prefix: &str,
        step: u64,
        chunks: Vec<ChunkRecord>,
        verify_content: bool,
    ) -> (out: Self)
        ensures
            out.wf(),
            out@ == CommitView::started(
                target_prefix@,
                step,
                manifest::views(chunks@),
                verify_content,
            ),
    {
        let phase: Phase = if chunks.len() == 0 {
            Phase::Done(Err(corrupted(step, "no chunks reported".to_owned())))
        } else {
            Phase::Head(0)
        };
        CommitRun { prefix: target_prefix.to_owned(), step, chunks, verify_content, phase }
    }

    /// The storage call that comes next.
    pub fn action(&self) -> (out: CommitAction)
        requires
            self.wf(),
            !(self@.phase is Publishing),
        ensures
            match self@.phase {
                PhaseView::Head(i) => out matches CommitAction::Head { key } && key@
                    == self@.chunks[i].key,
                PhaseView::Get(i) => out matches CommitAction::Get { key } && key@
                    == self@.chunks[i].key,
                PhaseView::Publish => out matches CommitAction::Publish { key } && key@
                    == layout::manifest_name(self@.prefix, self@.step),
                PhaseView::Point(raw) => out matches CommitAction::Point { key, data } && key@
                    == layout::latest_name(self@.prefix) && outside::contents(data) == raw,
                _ => out is Finish,
            },
    {
        match &self.phase {
            Phase::Head(i) => CommitAction::Head { key: self.chunks[*i].key.clone() },
            Phase::Get(i) => CommitAction::Get { key: self.chunks[*i].key.clone() },
            Phase::Publish => CommitAction::Publish {
                key: layout::manifest_key(self.prefix.as_str(), self.step),
            },
            Phase::Point(data) => CommitAction::Point {
                key: layout::latest_key(self.prefix.as_str()),
                data: outside::bytes_clone(data),
            },
            _ => CommitAction::Finish,
        }
    }

    fn pass(&mut self, i: usize)
        requires
            old(self).wf(),
            i < old(self)@.chunks.len(),
        ensures
            final(self).wf(),
            final(self)@ == old(self)@.past(i as int),
    {
        if i < self.chunks.len() - 1 {
            self.phase = Phase::Head(i + 1);
        } else {
            self.phase = Phase::Publish;
        }
    }

    /// Takes in the metadata of the chunk that was asked for.
    pub fn on_head(&mut self, reply: Result<Option<ObjectMeta>, DtrError>)
        requires
            old(self).wf(),
            old(self)@.phase is Head,
        ensures
            final(self).wf(),
            final(self)@ == old(self)@.after_head(head_reply(reply)),
    {
        let i: usize = match self.phase {
            Phase::Head(i) => i,
            _ => 0,
        };
        match reply {
            Err(e) => {
                self.phase = Phase::Done(Err(e));
            },
            Ok(None) => {
                let reason: String = text::join2("missing chunk ", self.chunks[i].key.as_str());
                self.phase = Phase::Done(Err(corrupted(self.step, reason)));
            },
            Ok(Some(meta)) => {
                if meta.size_bytes != self.chunks[i].size_bytes {
                    let reason: String = mismatch(
                        "size mismatch for ",
                        self.chunks[i].key.as_str(),
                        text::decimal_string(meta.size_bytes).as_str(),
                        text::decimal_string(self.chunks[i].size_bytes).as_str(),
                    );
                    self.phase = Phase::Done(Err(corrupted(self.step, reason)));
                } else if self.verify_content {
                    self.phase = Phase::Get(i);
                } else {
                    self.pass(i);
                }
            },
        }
    }

    /// Takes in the contents of the chunk that was asked for.
    pub fn on_get(&mut self, reply: Result<Bytes, DtrError>)
        requires
            old(self).wf(),
            old(self)@.phase is Get,
        ensures
            final(self).wf(),
            final(self)@ == old(self)@.after_get(get_reply(reply)),
    {
        let i: usize = match self.phase {
            Phase::Get(i) => i,
            _ => 0,
        };
        match reply {
            Err(e) => {
                self.phase = Phase::Done(Err(e));
            },
            Ok(data) => {
                let actual: String = checkpoint::sha256_hex(outside::bytes_as_slice(&data));
                if !text::same(actual.as_str(), self.chunks[i].sha256.as_str()) {
                    let reason: String = mismatch(
                        "checksum mismatch for ",
                        self.chunks[i].key.as_str(),
                        actual.as_str(),
                        self.chunks[i].sha256.as_str(),
                    );
                    self.phase = Phase::Done(Err(corrupted(self.step, reason)));
                } else {
                    self.pass(i);
                }
            },
        }
    }

    /// The manifest to publish, stamped with the current time. It is handed out
    /// only once every chunk has been verified.
    pub fn manifest(&mut self) -> (out: Manifest)
        requires
            old(self).wf(),
            old(self)@.phase is Publish,
        ensures
            final(self).wf(),
            out@ == ManifestView::of(old(self)@.step, old(self)@.chunks, out@.created_at),
            text::ends_with(out@.created_at, "+00:00"@),
            out.step == old(self)@.step,
            out.format_version == 1,
            final(self)@ == old(self)@.with_phase(PhaseView::Publishing(out@.created_at)),
    {
        let created_at: String = outside::utc_now_rfc3339();
        self.manifest_at(created_at)
    }

    /// [`CommitRun::manifest`] with the given commit timestamp.
    pub fn manifest_at(&mut self, created_at: String) -> (out: Manifest)
        requires
            old(self).wf(),
            old(self)@.phase is Publish,
        ensures
            final(self).wf(),
            out@ == ManifestView::of(old(self)@.step, old(self)@.chunks, created_at@),
            out.step == old(self)@.step,
            out.format_version == 1,
            final(self)@ == old(self)@.with_phase(PhaseView::Publishing(created_at@)),
    {
        self.phase = Phase::Publishing(created_at.clone());
        Manifest::new_at(self.step, manifest::clone_chunks(&self.chunks), created_at)
    }

    /// Takes in how writing the manifest went.
    pub fn on_published(&mut self, reply: Result<(), DtrError>)
        requires
            old(self).wf(),
            old(self)@.phase is Publishing,
        ensures
            final(self).wf(),
            final(self)@ == old(self)@.after_publish(put_reply(reply)),
            final(self)@.phase matches PhaseView::Point(raw) ==> outside::json_text_field(
                raw,
                "manifest_key"@,
            ) == Some(layout::manifest_name(old(self)@.prefix, old(self)@.step)),
    {
        match reply {
            Err(e) => {
                self.phase = Phase::Done(Err(e));
            },
            Ok(()) => {
                let key: String = layout::manifest_key(self.prefix.as_str(), self.step);
                let created_at: String = match &self.phase {
                    Phase::Publishing(created_at) => created_at.clone(),
                    _ => String::new(),
                };
                proof {
                    reveal_strlit("step");
                    reveal_strlit("manifest_key");
                    reveal_strlit("committed_at");
                    assert("manifest_key"@[0] != "committed_at"@[0]);
                }
                let raw: Vec<u8> = outside::json_write_object(
                    "step",
                    self.step,
                    "manifest_key",
                    key.as_str(),
                    "committed_at",
                    created_at.as_str(),
                ).unwrap();
                self.phase = Phase::Point(outside::bytes_from_vec(raw));
            },
        }
    }

    /// The attempt to write the pointer is over. The pointer is moved on a
    /// best-effort basis, so how the attempt went does not matter.
    pub fn on_pointed(&mut self, reply: Result<(), DtrError>)
        requires
            old(self).wf(),
            old(self)@.phase is Point,
        ensures
            final(self).wf(),
            final(self)@ == old(self)@.after_point(),
    {
        let _ = reply;
        self.phase = Phase::Done(Ok(layout::manifest_key(self.prefix.as_str(), self.step)));
    }

    /// The outcome: the manifest's key, or what went wrong.
    pub fn finish(self) -> (out: Result<String, DtrError>)
        requires
            self@.phase is Done,
        ensures
            match out {
                Ok(key) => self@.phase == PhaseView::Done(Ok(key@)),
                Err(e) => self@.phase == PhaseView::Done(Err(e@)),
            },
    {
        match self.phase {
            Phase::Done(outcome) => outcome,
            _ => Ok(String::new()),
        }
    }
}

} // verus!
