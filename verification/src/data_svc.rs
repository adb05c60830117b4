//! DataService: cached object reads and proxied checkpoint chunk uploads for
//! workers without direct storage credentials.

use crate::checkpoint;
use crate::chunker;
use crate::error::DtrError;
use crate::error::ErrorView;
use crate::io_engine;
use crate::manifest::ChunkRecord;
use crate::outside;
use crate::runtime_svc;
use crate::state::AppState;
use crate::state::AppView;
use crate::status;
use crate::status::Code;
use crate::status::Status;
use crate::status::StatusView;
use crate::storage::MetaView;
use crate::storage::ObjectMeta;
use crate::text;
use crate::types::CheckpointToken;
use bytes::Bytes;
use vstd::prelude::*;

verus! {

pub const DEFAULT_FRAME_BYTES: u64 = 1048576;

/// Answers whether a worker may use the data plane.
pub fn authorize(state: &AppState, worker_id: &str, session_token: &str) -> (out: Result<
    (),
    Status,
>)
    requires
        state.wf(),
    ensures
        match state@.auth(worker_id@, session_token@) {
            Ok(()) => out is Ok,
            Err(e) => out matches Err(refused) && refused@ == status::status_for(e),
        },
{
    match state.auth(worker_id, session_token) {
        Ok(_) => Ok(()),
        Err(e) => Err(status::to_status(e)),
    }
}

#[derive(Debug)]
pub struct ReadObjectRequest {
    pub worker_id: String,
    pub session_token: String,
    pub key: String,
    pub offset: u64,
    pub length: u64,
    pub frame_bytes: u64,
    pub prefetch_hint: Vec<String>,
}

/// How an object is read for a worker.
#[derive(Debug)]
pub struct ReadStart {
    /// The keys to warm the cache with: those the worker says it needs next.
    pub prefetch: Vec<String>,
    /// Read the whole object through the cache, or else a range of it.
    pub whole: bool,
    /// The size of the frames that the data goes out in.
    pub frame_bytes: u64,
}

/// The size of frames that a request means; zero means the default.
pub open spec fn frame_size(frame_bytes: u64) -> u64 {
    if frame_bytes == 0 {
        DEFAULT_FRAME_BYTES
    } else {
        frame_bytes
    }
}

/// Decides how an object is read for a worker.
pub fn read_start(state: &AppState, req: &ReadObjectRequest) -> (out: Result<ReadStart, Status>)
    requires
        state.wf(),
    ensures
        match state@.auth(req.worker_id@, req.session_token@) {
            Err(e) => out matches Err(refused) && refused@ == status::status_for(e),
            Ok(()) => out matches Ok(start) && {
                &&& io_engine::names(start.prefetch@) == io_engine::uncached(
                    state@.io.cache,
                    io_engine::names(req.prefetch_hint@),
                )
                &&& start.whole == (req.length == 0 && req.offset == 0)
                &&& start.frame_bytes == frame_size(req.frame_bytes)
            },
        },
{
    match state.auth(req.worker_id.as_str(), req.session_token.as_str()) {
        Err(e) => Err(status::to_status(e)),
        Ok(_) => Ok(
            ReadStart {
                prefetch: state.io.prefetch_keys(&req.prefetch_hint),
                whole: req.length == 0 && req.offset == 0,
                frame_bytes: if req.frame_bytes == 0 {
                    DEFAULT_FRAME_BYTES
                } else {
                    req.frame_bytes
                },
            },
        ),
    }
}

/// Where a range read ends, given the object's metadata: at the end of the
/// object, or earlier if less is asked for.
pub open spec fn range_end_answer(
    key: Seq<char>,
    offset: u64,
    length: u64,
    meta: Result<Option<MetaView>, ErrorView>,
) -> Result<u64, StatusView> {
    match meta {
        Err(e) => Err(status::status_for(e)),
        Ok(None) => Err(runtime_svc::refusal(Code::NotFound, "object "@ + key + " not found"@)),
        Ok(Some(found)) => Ok(
            if length == 0 || offset + length > found.size_bytes {
                found.size_bytes
            } else {
                (offset + length) as u64
            },
        ),
    }
}

/// An object's metadata, in views.
pub open spec fn meta_reply(meta: Result<Option<ObjectMeta>, DtrError>) -> Result<
    Option<MetaView>,
    ErrorView,
> {
    match meta {
        Ok(Some(found)) => Ok(Some(found@)),
        Ok(None) => Ok(None),
        Err(e) => Err(e@),
    }
}

/// Where a range read ends.
pub fn range_end(
    key: &str,
    offset: u64,
    length: u64,
    meta: Result<Option<ObjectMeta>, DtrError>,
) -> (out: Result<u64, Status>)
    requires
        meta matches Ok(Some(_)) ==> offset + length <= u64::MAX,
    ensures
        runtime_svc::answered(out) == range_end_answer(key@, offset, length, meta_reply(meta)),
{
    match meta {
        Err(e) => Err(status::to_status(e)),
        Ok(None) => {
            let message: String = text::join3("object ", key, " not found");
            Err(status::refuse(Code::NotFound, message.as_str()))
        },
        Ok(Some(found)) => {
            if length == 0 || offset + length > found.size_bytes {
                Ok(found.size_bytes)
            } else {
                Ok(offset + length)
            }
        },
    }
}

/// A part of an object on its way to a worker.
#[derive(Debug)]
pub struct ObjectFrame {
    pub offset: u64,
    pub data: Vec<u8>,
}

/// The frames that an object goes out in.
pub struct Frames {
    data: Bytes,
    base_offset: u64,
    frame_bytes: u64,
    sent: usize,
}

impl Frames {
    /// The data of the frames that are still to come.
    pub closed spec fn remaining(self) -> Seq<Seq<u8>> {
        chunker::pieces(
            outside::contents(self.data).skip(self.sent as int),
            self.frame_bytes as nat,
        )
    }

    /// Where the next frame starts within the object.
    pub closed spec fn offset(self) -> int {
        self.base_offset + self.sent
    }

    pub closed spec fn wf(self) -> bool {
        &&& self.frame_bytes > 0
        &&& self.sent <= outside::contents(self.data).len()
        &&& self.base_offset + outside::contents(self.data).len() <= u64::MAX
    }

    /// Cuts data that starts at `base_offset` within its object into frames.
    pub fn new(data: Bytes, base_offset: u64, frame_bytes: u64) -> (out: Self)
        requires
            frame_bytes > 0,
            base_offset + outside::contents(data).len() <= u64::MAX,
        ensures
            out.wf(),
            out.offset() == base_offset,
            out.remaining() == chunker::pieces(outside::contents(data), frame_bytes as nat),
    {
        assert(outside::contents(data).skip(0) =~= outside::contents(data));
        Frames { data, base_offset, frame_bytes, sent: 0 }
    }

    /// The next frame.
    pub fn next_frame(&mut self) -> (out: Option<ObjectFrame>)
        requires
            old(self).wf(),
        ensures
            final(self).wf(),
            match out {
                None => old(self).remaining().len() == 0 && *final(self) == *old(self),
                Some(frame) => {
                    &&& old(self).remaining().len() > 0
                    &&& frame.offset == old(self).offset()
                    &&& frame.data@ == old(self).remaining()[0]
                    &&& final(self).remaining() == old(self).remaining().drop_first()
                    &&& final(self).offset() == old(self).offset() + frame.data@.len()
                },
            },
    {
        let ghost all = outside::contents(self.data);
        let ghost rest = all.skip(self.sent as int);
        let len: usize = outside::bytes_len(&self.data);
        if self.sent >= len {
            assert(rest.len() == 0);
            return None;
        }
        let end: usize = if (len - self.sent) as u64 > self.frame_bytes {
            self.sent + self.frame_bytes as usize
        } else {
            len
        };
        let part: Bytes = outside::bytes_slice(&self.data, self.sent, end);
        let frame = ObjectFrame {
            offset: self.base_offset + self.sent as u64,
            data: vstd::slice::slice_to_vec(outside::bytes_as_slice(&part)),
        };
        proof {
            let size = self.frame_bytes as nat;
            let before = chunker::pieces(rest, size);
            if rest.len() > size {
                assert(rest.take(size as int) =~= outside::contents(part));
                assert(rest.skip(size as int) =~= all.skip(end as int));
                assert(before.drop_first() =~= chunker::pieces(all.skip(end as int), size));
            } else {
                assert(rest =~= outside::contents(part));
                assert(before.drop_first() =~= chunker::pieces(all.skip(end as int), size));
            }
        }
        self.sent = end;
        Some(frame)
    }
}

/// What an upload starts with.
#[derive(Debug)]
pub struct UploadHeader {
    pub worker_id: String,
    pub session_token: String,
    pub checkpoint_token: String,
    pub rank: u32,
    pub part_index: u32,
}

/// One message of an upload.
#[derive(Debug)]
pub enum UploadFrame {
    Header(UploadHeader),
    Data(Vec<u8>),
    Empty,
}

/// A chunk upload in progress.
#[derive(Debug)]
pub struct Upload {
    pub prefix: String,
    pub step: u64,
    pub rank: u32,
    pub part_index: u32,
    pub data: Vec<u8>,
}

/// An [`Upload`] with its prefix as a character sequence.
#[verifier::ext_equal]
pub struct UploadView {
    pub prefix: Seq<char>,
    pub step: u64,
    pub rank: u32,
    pub part_index: u32,
    pub data: Seq<u8>,
}

impl View for Upload {
    type V = UploadView;

    open spec fn view(&self) -> UploadView {
        UploadView {
            prefix: self.prefix@,
            step: self.step,
            rank: self.rank,
            part_index: self.part_index,
            data: self.data@,
        }
    }
}

/// What the first message of an upload does to the state, and what it leads to:
/// the target and the step are resolved from the barrier token.
pub open spec fn upload_start_answer(state: AppView, first: Option<UploadFrame>, now: nat) -> (
    AppView,
    Result<UploadView, StatusView>,
) {
    match first {
        Some(UploadFrame::Header(header)) => match state.auth(
            header.worker_id@,
            header.session_token@,
        ) {
            Err(e) => (state, Err(status::status_for(e))),
            Ok(()) => {
                let (seen, barrier) = state.coordinator.barriers.get(
                    header.checkpoint_token@,
                    now,
                );
                (
                    state.with_barriers(seen),
                    match barrier {
                        Err(e) => Err(status::status_for(e)),
                        Ok(barrier) => match state.target(barrier.target_id) {
                            Err(e) => Err(status::status_for(e)),
                            Ok(target) => Ok(
                                UploadView {
                                    prefix: target.prefix,
                                    step: barrier.step,
                                    rank: header.rank,
                                    part_index: header.part_index,
                                    data: Seq::empty(),
                                },
                            ),
                        },
                    },
                )
            },
        },
        _ => (
            state,
            Err(
                runtime_svc::refusal(
                    Code::InvalidArgument,
                    "first frame must be an UploadChunkHeader"@,
                ),
            ),
        ),
    }
}

/// An upload that was started, or not, in views.
pub open spec fn upload_answered(out: Result<Upload, Status>) -> Result<UploadView, StatusView> {
    match out {
        Ok(upload) => Ok(upload@),
        Err(refused) => Err(refused@),
    }
}

/// Starts an upload with its first message.
pub fn upload_start(state: &mut AppState, first: Option<UploadFrame>) -> (out: Result<
    Upload,
    Status,
>)
    requires
        old(state).wf(),
    ensures
        final(state).wf(),
        final(state).cfg == old(state).cfg,
        old(state).latest() <= final(state).latest() <= outside::MAX_NANOS,
        (final(state)@, upload_answered(out)) == upload_start_answer(
            old(state)@,
            first,
            final(state).latest(),
        ),
{
    let now: u128 = state.coordinator.now();
    assert(state@ == old(state)@);
    upload_start_at(state, first, now)
}

/// [`upload_start`] at the clock reading `now`.
pub fn upload_start_at(state: &mut AppState, first: Option<UploadFrame>, now: u128) -> (out: Result<
    Upload,
    Status,
>)
    requires
        old(state).wf(),
    ensures
        final(state).wf(),
        final(state).cfg == old(state).cfg,
        final(state).latest() == old(state).latest(),
        (final(state)@, upload_answered(out)) == upload_start_answer(
            old(state)@,
            first,
            now as nat,
        ),
{
    let header: UploadHeader = match first {
        Some(UploadFrame::Header(header)) => header,
        _ => {
            return Err(
                status::refuse(Code::InvalidArgument, "first frame must be an UploadChunkHeader"),
            );
        },
    };
    if let Err(e) = state.auth(header.worker_id.as_str(), header.session_token.as_str()) {
        return Err(status::to_status(e));
    }
    let token = CheckpointToken(header.checkpoint_token);
    let barrier = match state.coordinator.barriers.get_at(&token, now) {
        Ok(barrier) => barrier,
        Err(e) => {
            return Err(status::to_status(e));
        },
    };
    match state.target(&barrier.target_id) {
        Err(e) => Err(status::to_status(e)),
        Ok(target) => {
            let data: Vec<u8> = Vec::new();
            assert(data@ =~= Seq::<u8>::empty());
            Ok(
                Upload {
                    prefix: target.prefix,
                    step: barrier.step,
                    rank: header.rank,
                    part_index: header.part_index,
                    data,
                },
            )
        },
    }
}

impl Upload {
    /// Takes in a further message. Data adds up; a second header is refused.
    pub fn accept(&mut self, frame: UploadFrame) -> (out: Result<(), Status>)
        ensures
            match frame {
                UploadFrame::Data(more) => out is Ok && final(self)@ == (UploadView {
                    data: old(self)@.data + more@,
                    ..old(self)@
                }),
                UploadFrame::Header(_) => final(self)@ == old(self)@ && (out matches Err(refused)
                    && refused@ == runtime_svc::refusal(
                    Code::InvalidArgument,
                    "duplicate header frame"@,
                )),
                UploadFrame::Empty => out is Ok && final(self)@ == old(self)@,
            },
    {
        match frame {
            UploadFrame::Data(more) => {
                let mut rest: Vec<u8> = more;
                self.data.append(&mut rest);
                Ok(())
            },
            UploadFrame::Header(_) => Err(
                status::refuse(Code::InvalidArgument, "duplicate header frame"),
            ),
            UploadFrame::Empty => Ok(()),
        }
    }

    /// Ends the upload: the chunk's record, and the data to store under its key.
    pub fn finish(self, state: &AppState) -> (out: Result<(ChunkRecord, Bytes), Status>)
        ensures
            match out {
                Ok((record, data)) => {
                    &&& self@.data.len() > 0
                    &&& outside::contents(data) == self@.data
                    &&& record@ == checkpoint::chunk_of(
                        self@.prefix,
                        self@.step,
                        self@.rank,
                        self@.part_index,
                        self@.data,
                    )
                },
                Err(refused) => self@.data.len() == 0 && refused@ == runtime_svc::refusal(
                    Code::InvalidArgument,
                    "chunk upload carried no data"@,
                ),
            },
    {
        if self.data.len() == 0 {
            return Err(status::refuse(Code::InvalidArgument, "chunk upload carried no data"));
        }
        let data: Bytes = outside::bytes_from_vec(self.data);
        let record: ChunkRecord = state.ckpt.upload_chunk(
            self.prefix.as_str(),
            self.step,
            self.rank,
            self.part_index,
            &data,
        );
        Ok((record, data))
    }
}

/// The end of a range read never lies behind the end of the object, and lies
/// where it was asked for if the object reaches that far.
pub proof fn ranges_stay_within_the_object(
    key: Seq<char>,
    offset: u64,
    length: u64,
    found: MetaView,
)
    requires
        offset + length <= u64::MAX,
    ensures
        range_end_answer(key, offset, length, Ok(Some(found))) matches Ok(end) && {
            &&& end <= found.size_bytes
            &&& length > 0 && offset + length <= found.size_bytes ==> end == offset + length
            &&& length == 0 ==> end == found.size_bytes
        },
{
}

/// A frame size of zero means a mebibyte, every other one itself.
pub proof fn no_frame_size_means_a_mebibyte(frame_bytes: u64)
    ensures
        frame_bytes == 0 ==> frame_size(frame_bytes) == 1024 * 1024,
        frame_bytes > 0 ==> frame_size(frame_bytes) == frame_bytes,
{
}

/// A range ends at the end of the object, or earlier if less is asked for. An object
/// that is not there is not found, and a store that fails is told.
pub proof fn ranges_end_where_asked(
    key: Seq<char>,
    offset: u64,
    length: u64,
    found: MetaView,
    failure: ErrorView,
)
    requires
        offset + length <= u64::MAX,
    ensures
        range_end_answer(key, offset, length, Ok(Some(found))) == Ok::<u64, StatusView>(
            if length > 0 && offset + length < found.size_bytes {
                (offset + length) as u64
            } else {
                found.size_bytes
            },
        ),
        range_end_answer(key, offset, length, Ok(None)) == Err::<u64, StatusView>(
            StatusView { code: Code::NotFound, message: "object "@ + key + " not found"@ },
        ),
        range_end_answer(key, offset, length, Err(failure)) == Err::<u64, StatusView>(
            status::status_for(failure),
        ),
{
}

/// An upload starts with a header and from nothing else. It is for the step of the
/// barrier that the header names, below that barrier's target, for the rank and part
/// of the header, and has no data yet. A barrier or target that is not known is
/// refused.
pub proof fn an_upload_follows_its_header(state: AppView, header: UploadHeader, now: nat)
    requires
        state.auth(header.worker_id@, header.session_token@) is Ok,
    ensures
        ({
            let (after, out) = upload_start_answer(state, Some(UploadFrame::Header(header)), now);
            let barriers = state.coordinator.barriers;
            let token = header.checkpoint_token@;
            let barrier = barriers.barriers[token];
            let known = barriers.barriers.contains_key(token);
            let filed = state.targets.contains_key(barrier.target_id);
            &&& after == state.with_barriers(barriers.get(token, now).0)
            &&& out is Ok <==> known && filed
            &&& out is Ok ==> {
                &&& out->Ok_0.prefix == state.targets[barrier.target_id].prefix
                &&& out->Ok_0.step == barrier.step
                &&& out->Ok_0.rank == header.rank
                &&& out->Ok_0.part_index == header.part_index
                &&& out->Ok_0.data.len() == 0
            }
            &&& !known ==> out == Err::<UploadView, StatusView>(
                status::status_for(ErrorView::UnknownCheckpoint(token)),
            )
            &&& known && !filed ==> out == Err::<UploadView, StatusView>(
                status::status_for(
                    ErrorView::InvalidArgument("unknown target "@ + barrier.target_id),
                ),
            )
        }),
{
}

/// An upload that does not start with a header, or whose session does not count, is
/// refused, and nothing changes.
pub proof fn an_upload_needs_a_header(
    state: AppView,
    first: Option<UploadFrame>,
    header: UploadHeader,
    now: nat,
)
    ensures
        !(first matches Some(UploadFrame::Header(_))) ==> upload_start_answer(state, first, now)
            == (
            state,
            Err::<UploadView, StatusView>(
                StatusView {
                    code: Code::InvalidArgument,
                    message: "first frame must be an UploadChunkHeader"@,
                },
            ),
        ),
        state.auth(header.worker_id@, header.session_token@) matches Err(e)
            ==> upload_start_answer(state, Some(UploadFrame::Header(header)), now) == (
            state,
            Err::<UploadView, StatusView>(status::status_for(e)),
        ),
{
}

/// Uploads and metadata are seen as they are.
pub proof fn uploads_are_seen_as_they_are(
    one: Upload,
    out: Result<Upload, Status>,
    meta: Result<Option<ObjectMeta>, DtrError>,
)
    ensures
        one@.prefix == one.prefix@,
        one@.step == one.step,
        one@.rank == one.rank,
        one@.part_index == one.part_index,
        one@.data == one.data@,
        match out {
            Ok(upload) => upload_answered(out) == Ok::<UploadView, StatusView>(upload@),
            Err(refused) => upload_answered(out) == Err::<UploadView, StatusView>(refused@),
        },
        match meta {
            Ok(Some(found)) => meta_reply(meta) == Ok::<Option<MetaView>, ErrorView>(Some(found@)),
            Ok(None) => meta_reply(meta) == Ok::<Option<MetaView>, ErrorView>(None),
            Err(e) => meta_reply(meta) == Err::<Option<MetaView>, ErrorView>(e@),
        },
{
}

} // verus!
