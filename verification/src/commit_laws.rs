//! What holds of every commit: a manifest is handed out only after every chunk
//! that it lists has been found intact.

use crate::checkpoint;
use crate::commit;
use crate::commit::CommitView;
use crate::commit::PhaseView;
use crate::error::DtrError;
use crate::error::ErrorView;
use crate::layout;
use crate::manifest::ChunkView;
use crate::outside;
use crate::storage;
use crate::storage::MetaView;
use crate::storage::ObjectMeta;
use crate::storage::Store;
use crate::text;
use bytes::Bytes;
use vstd::prelude::*;

verus! {

/// What storage answered while chunks were verified.
pub enum Reply {
    Head(Result<Option<MetaView>, ErrorView>),
    Get(Result<Seq<u8>, ErrorView>),
}

/// The commit after one answer. An answer to a question that was not asked is
/// not taken in.
pub open spec fn answered(run: CommitView, reply: Reply) -> CommitView {
    match (run.phase, reply) {
        (PhaseView::Head(_), Reply::Head(r)) => run.after_head(r),
        (PhaseView::Get(_), Reply::Get(r)) => run.after_get(r),
        _ => run,
    }
}

/// The commit after a series of answers.
pub open spec fn replayed(run: CommitView, replies: Seq<Reply>) -> CommitView
    decreases replies.len(),
{
    if replies.len() == 0 {
        run
    } else {
        answered(replayed(run, replies.drop_last()), replies.last())
    }
}

/// The answer shows the chunk with the reported size.
pub open spec fn shows_size(reply: Reply, chunk: ChunkView) -> bool {
    reply matches Reply::Head(Ok(Some(meta))) && meta.size_bytes == chunk.size_bytes
}

/// The answer shows contents with the reported checksum.
pub open spec fn shows_contents(reply: Reply, chunk: ChunkView) -> bool {
    reply matches Reply::Get(Ok(data)) && checkpoint::digest_text(data) == chunk.sha256
}

/// One of the answers showed the chunk's size.
pub open spec fn size_seen(replies: Seq<Reply>, chunk: ChunkView) -> bool {
    exists|k: int| 0 <= k < replies.len() && shows_size(#[trigger] replies[k], chunk)
}

/// One of the answers showed the chunk's contents.
pub open spec fn contents_seen(replies: Seq<Reply>, chunk: ChunkView) -> bool {
    exists|k: int| 0 <= k < replies.len() && shows_contents(#[trigger] replies[k], chunk)
}

/// The answers showed all that is asked of the chunk.
pub open spec fn confirmed(replies: Seq<Reply>, chunk: ChunkView, verify_content: bool) -> bool {
    size_seen(replies, chunk) && (verify_content ==> contents_seen(replies, chunk))
}

proof fn lemma_more_replies(replies: Seq<Reply>, chunk: ChunkView, verify_content: bool)
    requires
        replies.len() > 0,
    ensures
        size_seen(replies.drop_last(), chunk) ==> size_seen(replies, chunk),
        contents_seen(replies.drop_last(), chunk) ==> contents_seen(replies, chunk),
        confirmed(replies.drop_last(), chunk, verify_content) ==> confirmed(
            replies,
            chunk,
            verify_content,
        ),
        shows_size(replies.last(), chunk) ==> size_seen(replies, chunk),
        shows_contents(replies.last(), chunk) ==> contents_seen(replies, chunk),
{
    let fewer = replies.drop_last();
    if size_seen(fewer, chunk) {
        let k = choose|k: int| 0 <= k < fewer.len() && shows_size(#[trigger] fewer[k], chunk);
        assert(shows_size(replies[k], chunk));
    }
    if contents_seen(fewer, chunk) {
        let k = choose|k: int| 0 <= k < fewer.len() && shows_contents(#[trigger] fewer[k], chunk);
        assert(shows_contents(replies[k], chunk));
    }
    assert(replies[replies.len() - 1] == replies.last());
}

/// Everything in front of the chunk that is asked for was confirmed.
spec fn progress_is_earned(run: CommitView, replies: Seq<Reply>) -> bool {
    let done = |n: int|
        forall|i: int|
            0 <= i < n ==> confirmed(replies, #[trigger] run.chunks[i], run.verify_content);
    match run.phase {
        PhaseView::Head(n) => 0 <= n < run.chunks.len() && done(n),
        PhaseView::Get(n) => 0 <= n < run.chunks.len() && done(n) && size_seen(
            replies,
            run.chunks[n],
        ) && run.verify_content,
        PhaseView::Publish => done(run.chunks.len() as int),
        _ => true,
    }
}

proof fn lemma_progress_is_earned(
    prefix: Seq<char>,
    step: u64,
    chunks: Seq<ChunkView>,
    verify_content: bool,
    replies: Seq<Reply>,
)
    ensures
        ({
            let run = replayed(
                CommitView::started(prefix, step, chunks, verify_content),
                replies,
            );
            &&& run.prefix == prefix
            &&& run.step == step
            &&& run.chunks == chunks
            &&& run.verify_content == verify_content
            &&& run.phase is Head || run.phase is Get || run.phase is Publish || (run.phase is Done
                && run.phase->Done_0 is Err)
            &&& progress_is_earned(run, replies)
        }),
    decreases replies.len(),
{
    let start = CommitView::started(prefix, step, chunks, verify_content);
    if replies.len() > 0 {
        let fewer = replies.drop_last();
        lemma_progress_is_earned(prefix, step, chunks, verify_content, fewer);
        let before = replayed(start, fewer);
        let run = replayed(start, replies);
        assert forall|i: int|
            0 <= i < chunks.len() && confirmed(
                fewer,
                #[trigger] chunks[i],
                verify_content,
            ) implies confirmed(replies, chunks[i], verify_content) by {
            lemma_more_replies(replies, chunks[i], verify_content);
        }
        match before.phase {
            PhaseView::Head(n) => {
                lemma_more_replies(replies, chunks[n], verify_content);
            },
            PhaseView::Get(n) => {
                lemma_more_replies(replies, chunks[n], verify_content);
            },
            _ => {},
        }
    }
}

/// Whatever storage answers and in whatever order, the manifest is handed out
/// only after every chunk was seen with its reported size and, where contents
/// are verified, with its reported checksum.
pub proof fn manifest_waits_for_every_chunk(
    prefix: Seq<char>,
    step: u64,
    chunks: Seq<ChunkView>,
    verify_content: bool,
    replies: Seq<Reply>,
    i: int,
)
    requires
        replayed(CommitView::started(prefix, step, chunks, verify_content), replies).phase
            is Publish,
        0 <= i < chunks.len(),
    ensures
        size_seen(replies, chunks[i]),
        verify_content ==> contents_seen(replies, chunks[i]),
{
    lemma_progress_is_earned(prefix, step, chunks, verify_content, replies);
    assert(confirmed(replies, chunks[i], verify_content));
}

/// The chunk is in storage as it was reported.
pub open spec fn intact(store: Store, chunk: ChunkView, verify_content: bool) -> bool {
    &&& store.contains_key(chunk.key)
    &&& store[chunk.key].len() == chunk.size_bytes
    &&& verify_content ==> checkpoint::digest_text(store[chunk.key]) == chunk.sha256
}

/// The commit after storage has answered for the chunk `i`.
pub open spec fn checked(run: CommitView, store: Store, i: int) -> CommitView {
    let headed = run.after_head(storage::looked_up(store, run.chunks[i].key));
    if headed.phase is Get {
        headed.after_get(Ok(store[run.chunks[i].key]))
    } else {
        headed
    }
}

/// The commit after storage has answered for the chunk `i` and all behind it.
pub open spec fn checked_from(run: CommitView, store: Store, i: int) -> CommitView
    decreases run.chunks.len() - i,
{
    if run.phase == PhaseView::Head(i) && 0 <= i < run.chunks.len() {
        checked_from(checked(run, store, i), store, i + 1)
    } else {
        run
    }
}

proof fn lemma_checked_from(run: CommitView, store: Store, i: int)
    requires
        0 <= i < run.chunks.len(),
        run.phase == PhaseView::Head(i),
        forall|key: Seq<char>| #[trigger] store.contains_key(key) ==> store[key].len() <= u64::MAX,
    ensures
        ({
            let end = checked_from(run, store, i);
            let good = forall|j: int|
                i <= j < run.chunks.len() ==> intact(
                    store,
                    #[trigger] run.chunks[j],
                    run.verify_content,
                );
            &&& end.phase is Publish <==> good
            &&& !good ==> (end.phase matches PhaseView::Done(Err(e)) && e is CheckpointCorrupt)
        }),
    decreases run.chunks.len() - i,
{
    let chunk = run.chunks[i];
    let next = checked(run, store, i);
    if intact(store, chunk, run.verify_content) {
        assert(next == run.past(i));
        if i + 1 < run.chunks.len() {
            lemma_checked_from(next, store, i + 1);
        }
        let end = checked_from(run, store, i);
        if forall|j: int|
            i + 1 <= j < run.chunks.len() ==> intact(
                store,
                #[trigger] run.chunks[j],
                run.verify_content,
            ) {
            assert forall|j: int| i <= j < run.chunks.len() implies intact(
                store,
                #[trigger] run.chunks[j],
                run.verify_content,
            ) by {
                if j > i {
                    assert(i + 1 <= j);
                }
            }
        }
    } else {
        assert(next.phase is Done);
        assert(checked_from(next, store, i + 1) == next);
    }
}

/// Against a storage that answers truthfully a commit gets to publish exactly if
/// chunks were reported and all of them are in storage as reported. Otherwise it
/// fails as corrupt, and no manifest is written.
pub proof fn commit_publishes_exactly_intact_checkpoints(
    prefix: Seq<char>,
    step: u64,
    chunks: Seq<ChunkView>,
    verify_content: bool,
    store: Store,
)
    requires
        forall|key: Seq<char>| #[trigger] store.contains_key(key) ==> store[key].len() <= u64::MAX,
    ensures
        ({
            let end = checked_from(
                CommitView::started(prefix, step, chunks, verify_content),
                store,
                0,
            );
            let good = chunks.len() > 0 && forall|i: int|
                0 <= i < chunks.len() ==> intact(store, #[trigger] chunks[i], verify_content);
            &&& end.phase is Publish <==> good
            &&& !good ==> (end.phase matches PhaseView::Done(Err(e)) && e is CheckpointCorrupt)
        }),
{
    let run = CommitView::started(prefix, step, chunks, verify_content);
    if chunks.len() > 0 {
        lemma_checked_from(run, store, 0);
    }
}

/// A chunk that never reached storage keeps the checkpoint invisible.
pub proof fn missing_chunk_is_never_published(
    prefix: Seq<char>,
    step: u64,
    chunks: Seq<ChunkView>,
    verify_content: bool,
    store: Store,
    i: int,
)
    requires
        forall|key: Seq<char>| #[trigger] store.contains_key(key) ==> store[key].len() <= u64::MAX,
        0 <= i < chunks.len(),
        !store.contains_key(chunks[i].key),
    ensures
        checked_from(CommitView::started(prefix, step, chunks, verify_content), store, 0).phase
            is Done,
{
    commit_publishes_exactly_intact_checkpoints(prefix, step, chunks, verify_content, store);
    assert(!intact(store, chunks[i], verify_content));
}

/// With contents verified, storage that holds other bytes than were reported is
/// found out, even where the length is right.
pub proof fn altered_chunk_is_never_published(
    prefix: Seq<char>,
    step: u64,
    chunks: Seq<ChunkView>,
    store: Store,
    i: int,
)
    requires
        forall|key: Seq<char>| #[trigger] store.contains_key(key) ==> store[key].len() <= u64::MAX,
        0 <= i < chunks.len(),
        checkpoint::digest_text(store[chunks[i].key]) != chunks[i].sha256,
    ensures
        checked_from(CommitView::started(prefix, step, chunks, true), store, 0).phase is Done,
{
    commit_publishes_exactly_intact_checkpoints(prefix, step, chunks, true, store);
    assert(!intact(store, chunks[i], true));
}

/// The manifest is the commit point: a commit reports success under the
/// manifest's key exactly if the manifest was written, whether or not the pointer
/// could be moved afterwards.
pub proof fn the_manifest_is_the_commit_point(run: CommitView, published: Result<(), ErrorView>)
    requires
        run.phase is Publishing,
    ensures
        ({
            let after = run.after_publish(published);
            &&& after.phase is Point <==> published is Ok
            &&& published is Err ==> after.phase == PhaseView::Done(Err(published->Err_0))
            &&& published is Ok ==> after.after_point().phase == PhaseView::Done(
                Ok(layout::manifest_name(run.prefix, run.step)),
            )
        }),
{
}

/// With a storage that works a commit succeeds exactly for intact checkpoints:
/// once every chunk was found as reported, writing the manifest is all that is
/// left to do.
pub proof fn intact_checkpoints_are_committed(
    prefix: Seq<char>,
    step: u64,
    chunks: Seq<ChunkView>,
    verify_content: bool,
    store: Store,
    created_at: Seq<char>,
)
    requires
        forall|key: Seq<char>| #[trigger] store.contains_key(key) ==> store[key].len() <= u64::MAX,
        chunks.len() > 0,
        forall|i: int|
            0 <= i < chunks.len() ==> intact(store, #[trigger] chunks[i], verify_content),
    ensures
        ({
            let run = checked_from(
                CommitView::started(prefix, step, chunks, verify_content),
                store,
                0,
            );
            &&& run.phase is Publish
            &&& run.with_phase(PhaseView::Publishing(created_at)).after_publish(
                Ok(()),
            ).after_point().phase == PhaseView::Done(Ok(layout::manifest_name(prefix, step)))
        }),
{
    commit_publishes_exactly_intact_checkpoints(prefix, step, chunks, verify_content, store);
    lemma_checked_keeps(CommitView::started(prefix, step, chunks, verify_content), store, 0);
}

proof fn lemma_checked_keeps(run: CommitView, store: Store, i: int)
    ensures
        checked_from(run, store, i).prefix == run.prefix,
        checked_from(run, store, i).step == run.step,
    decreases run.chunks.len() - i,
{
    if run.phase == PhaseView::Head(i) && 0 <= i < run.chunks.len() {
        lemma_checked_keeps(checked(run, store, i), store, i + 1);
    }
}

/// A commit is for the prefix, step and chunks it was started with, and keeps to
/// them to its end. It starts with the first chunk; one without any chunks fails at
/// once, as corrupt.
pub proof fn a_commit_starts_with_the_first_chunk(
    prefix: Seq<char>,
    step: u64,
    chunks: Seq<ChunkView>,
    verify_content: bool,
)
    ensures
        ({
            let run = CommitView::started(prefix, step, chunks, verify_content);
            &&& run.prefix == prefix
            &&& run.step == step
            &&& run.chunks == chunks
            &&& run.verify_content == verify_content
            &&& chunks.len() > 0 ==> run.phase == PhaseView::Head(0)
            &&& chunks.len() == 0 ==> run.phase == PhaseView::Done(
                Err(
                    ErrorView::CheckpointCorrupt {
                        token: "step-"@ + text::decimal(step as nat),
                        reason: "no chunks reported"@,
                    },
                ),
            )
        }),
{
}

/// A chunk whose metadata was asked for passes exactly if it is there and as long
/// as was reported; then its contents are read, where they are to be verified, and
/// else the next chunk is up, or the manifest behind the last one. Whatever is wrong
/// ends the commit, and what went wrong is told.
pub proof fn a_chunk_must_be_there_in_full(
    run: CommitView,
    i: int,
    reply: Result<Option<MetaView>, ErrorView>,
)
    requires
        run.phase == PhaseView::Head(i),
        0 <= i < run.chunks.len(),
    ensures
        ({
            let next = run.after_head(reply);
            let chunk = run.chunks[i];
            let token = "step-"@ + text::decimal(run.step as nat);
            let passes = reply is Ok && reply->Ok_0 is Some && reply->Ok_0->0.size_bytes
                == chunk.size_bytes;
            &&& next.prefix == run.prefix
            &&& next.step == run.step
            &&& next.chunks == run.chunks
            &&& next.verify_content == run.verify_content
            &&& passes && run.verify_content ==> next.phase == PhaseView::Get(i)
            &&& passes && !run.verify_content && i + 1 < run.chunks.len() ==> next.phase
                == PhaseView::Head(i + 1)
            &&& passes && !run.verify_content && i + 1 == run.chunks.len() ==> next.phase
                == PhaseView::Publish
            &&& reply matches Err(e) ==> next.phase == PhaseView::Done(Err(e))
            &&& reply matches Ok(None) ==> next.phase == PhaseView::Done(
                Err(
                    ErrorView::CheckpointCorrupt { token, reason: "missing chunk "@ + chunk.key },
                ),
            )
            &&& reply is Ok && reply->Ok_0 is Some && !passes ==> next.phase == PhaseView::Done(
                Err(
                    ErrorView::CheckpointCorrupt {
                        token,
                        reason: "size mismatch for "@ + chunk.key + ": stored "@ + text::decimal(
                            reply->Ok_0->0.size_bytes as nat,
                        ) + " != reported "@ + text::decimal(chunk.size_bytes as nat),
                    },
                ),
            )
        }),
{
}

/// A chunk whose contents were read passes exactly if their digest is the one that
/// was reported; then the next chunk is up, or the manifest behind the last one.
/// Whatever is wrong ends the commit, and what went wrong is told.
pub proof fn a_chunk_must_have_its_digest(
    run: CommitView,
    i: int,
    reply: Result<Seq<u8>, ErrorView>,
)
    requires
        run.phase == PhaseView::Get(i),
        0 <= i < run.chunks.len(),
    ensures
        ({
            let next = run.after_get(reply);
            let chunk = run.chunks[i];
            let digest = text::hex_bytes(outside::sha256(reply->Ok_0));
            &&& next.prefix == run.prefix
            &&& next.step == run.step
            &&& next.chunks == run.chunks
            &&& next.verify_content == run.verify_content
            &&& reply matches Err(e) ==> next.phase == PhaseView::Done(Err(e))
            &&& reply is Ok && digest == chunk.sha256 && i + 1 < run.chunks.len() ==> next.phase
                == PhaseView::Head(i + 1)
            &&& reply is Ok && digest == chunk.sha256 && i + 1 == run.chunks.len() ==> next.phase
                == PhaseView::Publish
            &&& reply is Ok && digest != chunk.sha256 ==> next.phase == PhaseView::Done(
                Err(
                    ErrorView::CheckpointCorrupt {
                        token: "step-"@ + text::decimal(run.step as nat),
                        reason: "checksum mismatch for "@ + chunk.key + ": stored "@ + digest
                            + " != reported "@ + chunk.sha256,
                    },
                ),
            )
        }),
{
}

/// Once the manifest is written the pointer is: it holds the step, the key of that
/// step's manifest and the manifest's timestamp. The commit then ends with that key,
/// however writing the pointer went. A manifest that could not be written fails the
/// commit with what went wrong.
pub proof fn the_pointer_names_the_published_manifest(
    run: CommitView,
    created_at: Seq<char>,
    reply: Result<(), ErrorView>,
)
    requires
        run.phase == PhaseView::Publishing(created_at),
    ensures
        ({
            let next = run.after_publish(reply);
            let key = text::trim(run.prefix, '/') + "/manifests/step-"@ + text::decimal(
                run.step as nat,
            ) + ".json"@;
            &&& next.prefix == run.prefix
            &&& next.step == run.step
            &&& next.chunks == run.chunks
            &&& reply is Ok ==> next.phase == PhaseView::Point(
                outside::json_object(
                    "step"@,
                    run.step,
                    "manifest_key"@,
                    key,
                    "committed_at"@,
                    created_at,
                ),
            )
            &&& reply matches Err(e) ==> next.phase == PhaseView::Done(Err(e))
            &&& next.after_point().phase == PhaseView::Done(Ok(key))
            &&& layout::manifest_step(key) == run.step
        }),
{
    layout::manifest_key_names_its_step(run.prefix, run.step);
}

/// Replies of the store are taken as they came.
pub proof fn replies_are_taken_as_they_came(
    head: Result<Option<ObjectMeta>, DtrError>,
    get: Result<Bytes, DtrError>,
    put: Result<(), DtrError>,
)
    ensures
        match head {
            Ok(Some(meta)) => commit::head_reply(head) == Ok::<Option<MetaView>, ErrorView>(
                Some(meta@),
            ),
            Ok(None) => commit::head_reply(head) == Ok::<Option<MetaView>, ErrorView>(None),
            Err(e) => commit::head_reply(head) == Err::<Option<MetaView>, ErrorView>(e@),
        },
        match get {
            Ok(data) => commit::get_reply(get) == Ok::<Seq<u8>, ErrorView>(outside::contents(data)),
            Err(e) => commit::get_reply(get) == Err::<Seq<u8>, ErrorView>(e@),
        },
        match put {
            Ok(()) => commit::put_reply(put) == Ok::<(), ErrorView>(()),
            Err(e) => commit::put_reply(put) == Err::<(), ErrorView>(e@),
        },
{
}

} // verus!
