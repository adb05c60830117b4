//! Crash-safe checkpointing on object storage.
//!
//! Chunks land under `tmp/ckpt-step-N/`, are verified against reported
//! checksums, and only then does `manifests/step-N.json` appear. Readers trust
//! manifests exclusively: a partial upload is invisible by construction.

use crate::commit;
use crate::commit::CommitRun;
use crate::commit::CommitView;
use crate::layout;
use crate::manifest;
use crate::manifest::ChunkRecord;
use crate::manifest::ChunkView;
use crate::outside;
use crate::recover;
use crate::recover::RecoverRun;
use crate::storage::MetaView;
use crate::storage::ObjectMeta;
use crate::text;
use bytes::Bytes;
use vstd::prelude::*;

verus! {

/// The lowercase-hex SHA-256 of the data.
pub open spec fn digest_text(data: Seq<u8>) -> Seq<char> {
    text::hex_bytes(outside::sha256(data))
}

/// Compute the lowercase-hex SHA-256 of a buffer.
pub fn sha256_hex(data: &[u8]) -> (out: String)
    ensures
        out@ == digest_text(data@),
        out@.len() == 64,
{
    let digest: Vec<u8> = outside::sha256_digest(data);
    outside::hex_encode(digest.as_slice())
}

/// An uploaded object that garbage collection removes.
#[derive(Debug)]
pub struct Removal {
    pub key: String,
    /// Where the manifest of the object's step would be.
    pub manifest_key: String,
}

/// A [`Removal`] with its texts as character sequences.
#[verifier::ext_equal]
pub struct RemovalView {
    pub key: Seq<char>,
    pub manifest_key: Seq<char>,
}

impl View for Removal {
    type V = RemovalView;

    open spec fn view(&self) -> RemovalView {
        RemovalView { key: self.key@, manifest_key: self.manifest_key@ }
    }
}

/// The object belongs to a step of the target that is not in flight.
pub open spec fn removable(target_prefix: Seq<char>, key: Seq<char>, in_flight: Seq<u64>) -> bool {
    layout::tmp_step(target_prefix, key) matches Some(step) && !in_flight.contains(step)
}

/// The objects to remove, in the order in which they are listed. Those of steps
/// in flight and those that belong to no step are spared.
pub open spec fn removals(
    target_prefix: Seq<char>,
    objects: Seq<MetaView>,
    in_flight: Seq<u64>,
) -> Seq<RemovalView>
    decreases objects.len(),
{
    if objects.len() == 0 {
        Seq::empty()
    } else {
        let earlier = removals(target_prefix, objects.drop_last(), in_flight);
        let key = objects.last().key;
        if removable(target_prefix, key, in_flight) {
            earlier.push(
                RemovalView {
                    key,
                    manifest_key: layout::manifest_name(
                        target_prefix,
                        layout::tmp_step(target_prefix, key)->0,
                    ),
                },
            )
        } else {
            earlier
        }
    }
}

/// The record of a chunk with the given contents.
pub open spec fn chunk_of(
    target_prefix: Seq<char>,
    step: u64,
    rank: u32,
    part: u32,
    data: Seq<u8>,
) -> ChunkView {
    ChunkView {
        key: layout::chunk_name(target_prefix, step, rank, part),
        size_bytes: data.len() as u64,
        sha256: digest_text(data),
        rank,
        part_index: part,
    }
}

fn is_in_flight(in_flight: &Vec<u64>, step: u64) -> (out: bool)
    ensures
        out == in_flight@.contains(step),
{
    let mut i: usize = 0;
    while i < in_flight.len()
        invariant
            i <= in_flight@.len(),
            forall|j: int| 0 <= j < i ==> in_flight@[j] != step,
        decreases in_flight@.len() - i,
    {
        if in_flight[i] == step {
            return true;
        }
        i = i + 1;
    }
    false
}

/// The rules of verify-then-publish commits and GC for one storage backend.
#[derive(Debug)]
pub struct CheckpointStore {}

impl CheckpointStore {
    pub fn new() -> (out: Self)
        ensures
            out == (CheckpointStore {  }),
    {
        CheckpointStore {  }
    }

    /// The record of a chunk to upload. Its key is where the data goes; the size
    /// and the checksum are those of the data.
    pub fn upload_chunk(
        &self,
        target_prefix: &str,
        step: u64,
        rank: u32,
        part: u32,
        data: &Bytes,
    ) -> (out: ChunkRecord)
        ensures
            out@ == chunk_of(target_prefix@, step, rank, part, outside::contents(*data)),
    {
        ChunkRecord {
            key: layout::chunk_key(target_prefix, step, rank, part),
            size_bytes: outside::bytes_len(data) as u64,
            sha256: sha256_hex(outside::bytes_as_slice(data)),
            rank,
            part_index: part,
        }
    }

    /// Verify every reported chunk exists with the reported size, then publish
    /// the manifest and update the `latest` pointer. This is THE commit point:
    /// the checkpoint exists iff the manifest object exists.
    pub fn commit(
        &self,
        target_prefix: &str,
        step: u64,
        chunks: Vec<ChunkRecord>,
        verify_content: bool,
    ) -> (out: CommitRun)
        ensures
            out.wf(),
            out@ == CommitView::started(
                target_prefix@,
                step,
                manifest::views(chunks@),
                verify_content,
            ),
    {
        CommitRun::start(target_prefix, step, chunks, verify_content)
    }

    /// Load the newest committed manifest, the one with the largest step: the one
    /// that the latest pointer names, unless manifests/ lists a newer one (the
    /// pointer write could have failed, and steps can be committed out of order).
    pub fn latest_manifest(&self, target_prefix: &str) -> (out: RecoverRun)
        ensures
            out.prefix() == target_prefix@,
            out.phase() is HeadPointer,
    {
        RecoverRun::start(target_prefix)
    }

    /// The tmp area for a step, all of which is deleted after commit or abort.
    pub fn clean_tmp(&self, target_prefix: &str, step: u64) -> (out: String)
        ensures
            out@ == layout::tmp_name(target_prefix@, step),
    {
        layout::tmp_prefix(target_prefix, step)
    }

    /// GC: what to remove of the uploads, keeping steps listed in `in_flight`
    /// (their barrier is still open). `objects` are those under the tmp root.
    ///
    /// Orphans are uploads for a step that is neither committed nor in flight
    /// (crashed mid-upload or aborted). Committed steps' uploads are removable
    /// too: commit already verified and published.
    pub fn gc_orphans(
        &self,
        target_prefix: &str,
        objects: &Vec<ObjectMeta>,
        in_flight: &Vec<u64>,
    ) -> (out: Vec<Removal>)
        ensures
            out@.map_values(|r: Removal| r@) == removals(
                target_prefix@,
                recover::listing(objects@),
                in_flight@,
            ),
    {
        let ghost all = recover::listing(objects@);
        let mut out: Vec<Removal> = Vec::new();
        let mut i: usize = 0;
        assert(out@.map_values(|r: Removal| r@) =~= removals(
            target_prefix@,
            all.take(0),
            in_flight@,
        ));
        while i < objects.len()
            invariant
                i <= objects@.len(),
                all == recover::listing(objects@),
                out@.map_values(|r: Removal| r@) == removals(
                    target_prefix@,
                    all.take(i as int),
                    in_flight@,
                ),
            decreases objects@.len() - i,
        {
            let ghost before = out@.map_values(|r: Removal| r@);
            proof {
                assert(all.take(i + 1).drop_last() =~= all.take(i as int));
                assert(all.take(i + 1).last() == objects@[i as int]@);
            }
            match layout::tmp_step_of(target_prefix, objects[i].key.as_str()) {
                None => {},
                Some(step) => {
                    if !is_in_flight(in_flight, step) {
                        let removal = Removal {
                            key: objects[i].key.clone(),
                            manifest_key: layout::manifest_key(target_prefix, step),
                        };
                        out.push(removal);
                        assert(out@.map_values(|r: Removal| r@) =~= before.push(removal@));
                    }
                },
            }
            i = i + 1;
        }
        assert(all.take(i as int) =~= all);
        out
    }
}

/// A chunk's own record describes it: a commit that finds the uploaded data finds
/// it intact.
pub proof fn uploaded_chunk_verifies(
    target_prefix: Seq<char>,
    step: u64,
    rank: u32,
    part: u32,
    data: Seq<u8>,
)
    requires
        data.len() <= u64::MAX,
    ensures
        ({
            let chunk = chunk_of(target_prefix, step, rank, part, data);
            &&& chunk.size_bytes == data.len()
            &&& commit::head_verdict(
                step,
                chunk,
                Ok(Some(MetaView { key: chunk.key, size_bytes: data.len() as u64 })),
            ) is Ok
            &&& commit::get_verdict(step, chunk, Ok(data)) is Ok
        }),
{
}

/// Garbage collection removes exactly the listed objects that belong to a step
/// and whose step is not in flight.
pub proof fn gc_removes_exactly_the_orphans(
    target_prefix: Seq<char>,
    objects: Seq<MetaView>,
    in_flight: Seq<u64>,
    key: Seq<char>,
)
    ensures
        (exists|i: int|
            0 <= i < removals(target_prefix, objects, in_flight).len() && (
            #[trigger] removals(target_prefix, objects, in_flight)[i]).key == key) <==> removable(
            target_prefix,
            key,
            in_flight,
        ) && exists|i: int| 0 <= i < objects.len() && (#[trigger] objects[i]).key == key,
    decreases objects.len(),
{
    let all = removals(target_prefix, objects, in_flight);
    if objects.len() > 0 {
        let fewer = objects.drop_last();
        let earlier = removals(target_prefix, fewer, in_flight);
        gc_removes_exactly_the_orphans(target_prefix, fewer, in_flight, key);
        if exists|i: int| 0 <= i < all.len() && (#[trigger] all[i]).key == key {
            let i = choose|i: int| 0 <= i < all.len() && (#[trigger] all[i]).key == key;
            if i < earlier.len() {
                assert(earlier[i].key == key);
                let j = choose|j: int| 0 <= j < fewer.len() && (#[trigger] fewer[j]).key == key;
                assert(objects[j].key == key);
            } else {
                assert(objects[objects.len() - 1].key == key);
            }
        }
        if removable(target_prefix, key, in_flight) && exists|i: int|
            0 <= i < objects.len() && (#[trigger] objects[i]).key == key {
            let j = choose|j: int| 0 <= j < objects.len() && (#[trigger] objects[j]).key == key;
            if j < fewer.len() {
                assert(fewer[j].key == key);
                let i = choose|i: int| 0 <= i < earlier.len() && (#[trigger] earlier[i]).key == key;
                assert(all[i].key == key);
            } else {
                assert(all[earlier.len() as int].key == key);
            }
        }
    }
}

/// The chunks of a step in flight are never collected, and those of any other
/// step are, whatever the target's prefix looks like, also where the store lists
/// keys without empty segments.
pub proof fn gc_goes_by_the_step(
    target_prefix: Seq<char>,
    step: u64,
    rank: u32,
    part: u32,
    in_flight: Seq<u64>,
)
    ensures
        removable(
            target_prefix,
            layout::chunk_name(target_prefix, step, rank, part),
            in_flight,
        ) <==> !in_flight.contains(step),
        removable(
            target_prefix,
            text::compact(layout::chunk_name(target_prefix, step, rank, part)),
            in_flight,
        ) <==> !in_flight.contains(step),
{
    layout::chunk_key_tells_its_step(target_prefix, step, rank, part);
}

/// What is recorded of a chunk is what was uploaded: where it is, how long it is,
/// its digest in hexadecimal, and whose part it is.
pub proof fn a_chunk_record_describes_the_upload(
    target_prefix: Seq<char>,
    step: u64,
    rank: u32,
    part: u32,
    data: Seq<u8>,
)
    requires
        data.len() <= u64::MAX,
    ensures
        ({
            let made = chunk_of(target_prefix, step, rank, part, data);
            &&& made.key == text::trim(target_prefix, '/') + "/tmp/ckpt-step-"@ + text::decimal(
                step as nat,
            ) + "/rank-"@ + text::decimal(rank as nat) + ".part-"@ + text::padded(part as nat, 4)
            &&& made.size_bytes == data.len()
            &&& made.sha256 == text::hex_bytes(outside::sha256(data))
            &&& digest_text(data) == text::hex_bytes(outside::sha256(data))
            &&& made.rank == rank
            &&& made.part_index == part
        }),
{
}

/// Collecting garbage goes through the listed objects in order. One is up for
/// removal exactly if its key belongs to a step of the target's upload area that is
/// not in flight, and then only where that step's manifest does not exist.
pub proof fn garbage_is_what_no_step_needs(
    target_prefix: Seq<char>,
    objects: Seq<MetaView>,
    object: MetaView,
    in_flight: Seq<u64>,
)
    ensures
        ({
            let before = removals(target_prefix, objects, in_flight);
            let after = removals(target_prefix, objects.push(object), in_flight);
            let step = layout::tmp_step(target_prefix, object.key);
            let goes = step is Some && forall|i: int|
                0 <= i < in_flight.len() ==> #[trigger] in_flight[i] != step->0;
            &&& removals(target_prefix, Seq::empty(), in_flight).len() == 0
            &&& !goes ==> after == before
            &&& goes ==> after.len() == before.len() + 1 && after.drop_last() == before
            &&& goes ==> after.last().key == object.key
            &&& goes ==> after.last().manifest_key == text::trim(target_prefix, '/')
                + "/manifests/step-"@ + text::decimal(step->0 as nat) + ".json"@
        }),
{
    let step = layout::tmp_step(target_prefix, object.key);
    assert(objects.push(object).drop_last() =~= objects);
    if step is Some && in_flight.contains(step->0) {
        let i = in_flight.index_of(step->0);
        assert(in_flight[i] == step->0);
    }
    let before = removals(target_prefix, objects, in_flight);
    let after = removals(target_prefix, objects.push(object), in_flight);
    if removable(target_prefix, object.key, in_flight) {
        assert(after.drop_last() =~= before);
    }
}

/// What is up for removal is seen as it is.
pub proof fn removals_are_seen_as_they_are(one: Removal)
    ensures
        one@.key == one.key@,
        one@.manifest_key == one.manifest_key@,
{
}

} // verus!
