//! Checkpoint manifest: the single source of truth for a committed checkpoint.

use crate::layout;
use crate::outside;
use crate::text;
use vstd::prelude::*;

verus! {

pub const MANIFEST_FORMAT_VERSION: u32 = 1;

#[derive(Debug, PartialEq, Eq)]
pub struct ChunkRecord {
    /// Full storage key of the chunk (in the tmp area).
    pub key: String,
    pub size_bytes: u64,
    /// Lowercase hex SHA-256 of the chunk contents.
    pub sha256: String,
    pub rank: u32,
    pub part_index: u32,
}

/// A [`ChunkRecord`] with its texts as character sequences.
#[verifier::ext_equal]
pub struct ChunkView {
    pub key: Seq<char>,
    pub size_bytes: u64,
    pub sha256: Seq<char>,
    pub rank: u32,
    pub part_index: u32,
}

impl View for ChunkRecord {
    type V = ChunkView;

    open spec fn view(&self) -> ChunkView {
        ChunkView {
            key: self.key@,
            size_bytes: self.size_bytes,
            sha256: self.sha256@,
            rank: self.rank,
            part_index: self.part_index,
        }
    }
}

impl Clone for ChunkRecord {
    fn clone(&self) -> (out: Self)
        ensures
            out@ == self@,
    {
        ChunkRecord {
            key: self.key.clone(),
            size_bytes: self.size_bytes,
            sha256: self.sha256.clone(),
            rank: self.rank,
            part_index: self.part_index,
        }
    }
}

/// Views of the records.
pub open spec fn views(chunks: Seq<ChunkRecord>) -> Seq<ChunkView> {
    chunks.map_values(|c: ChunkRecord| c@)
}

/// A copy of the records.
pub fn clone_chunks(chunks: &Vec<ChunkRecord>) -> (out: Vec<ChunkRecord>)
    ensures
        views(out@) == views(chunks@),
{
    let mut out: Vec<ChunkRecord> = Vec::new();
    let mut i: usize = 0;
    while i < chunks.len()
        invariant
            i <= chunks@.len(),
            views(out@) == views(chunks@).take(i as int),
        decreases chunks@.len() - i,
    {
        let ghost before = views(out@);
        out.push(chunks[i].clone());
        assert(views(out@) =~= before.push(chunks@[i as int]@));
        assert(views(chunks@).take(i + 1) =~= views(chunks@).take(i as int).push(
            chunks@[i as int]@,
        ));
        i = i + 1;
    }
    assert(views(chunks@).take(i as int) =~= views(chunks@));
    out
}

impl ChunkView {
    /// Whose chunk it is, and which part.
    pub open spec fn slot(self) -> (u32, u32) {
        (self.rank, self.part_index)
    }
}

/// The order of slots: by rank, then by part.
pub open spec fn precedes(a: (u32, u32), b: (u32, u32)) -> bool {
    a.0 < b.0 || (a.0 == b.0 && a.1 < b.1)
}

/// The chunks for one slot, in order.
pub open spec fn at_slot(chunks: Seq<ChunkView>, slot: (u32, u32)) -> Seq<ChunkView>
    decreases chunks.len(),
{
    if chunks.len() == 0 {
        Seq::empty()
    } else {
        let rest = at_slot(chunks.drop_first(), slot);
        if chunks[0].slot() == slot {
            seq![chunks[0]] + rest
        } else {
            rest
        }
    }
}

/// No chunk stands behind one of a later slot.
pub open spec fn in_order(chunks: Seq<ChunkView>) -> bool {
    forall|i: int, j: int|
        0 <= i < j < chunks.len() ==> !precedes(chunks[j].slot(), chunks[i].slot())
}

/// `after` is `before` put in order, with chunks for the same slot left in the
/// order in which they came.
pub open spec fn arranges(before: Seq<ChunkView>, after: Seq<ChunkView>) -> bool {
    &&& in_order(after)
    &&& forall|slot: (u32, u32)| #[trigger] at_slot(after, slot) == at_slot(before, slot)
}

/// The chunks in the order in which a manifest lists them.
pub open spec fn arranged(chunks: Seq<ChunkView>) -> Seq<ChunkView> {
    choose|after: Seq<ChunkView>| arranges(chunks, after)
}

/// How many bytes the chunks hold together.
pub open spec fn total(chunks: Seq<ChunkView>) -> nat
    decreases chunks.len(),
{
    if chunks.len() == 0 {
        0
    } else {
        total(chunks.drop_last()) + chunks.last().size_bytes as nat
    }
}

#[derive(Debug, PartialEq, Eq)]
pub struct Manifest {
    /// Schema version for forward compatibility.
    pub format_version: u32,
    pub step: u64,
    pub chunks: Vec<ChunkRecord>,
    /// RFC 3339 commit timestamp.
    pub created_at: String,
}

/// A [`Manifest`] with its texts as character sequences.
#[verifier::ext_equal]
pub struct ManifestView {
    pub format_version: u32,
    pub step: u64,
    pub chunks: Seq<ChunkView>,
    pub created_at: Seq<char>,
}

impl View for Manifest {
    type V = ManifestView;

    open spec fn view(&self) -> ManifestView {
        ManifestView {
            format_version: self.format_version,
            step: self.step,
            chunks: views(self.chunks@),
            created_at: self.created_at@,
        }
    }
}

impl ManifestView {
    /// The manifest of a step whose chunks were reported in the given order.
    pub open spec fn of(step: u64, chunks: Seq<ChunkView>, created_at: Seq<char>) -> ManifestView {
        ManifestView {
            format_version: MANIFEST_FORMAT_VERSION,
            step,
            chunks: arranged(chunks),
            created_at,
        }
    }
}

fn is_before(a: &ChunkRecord, b: &ChunkRecord) -> (out: bool)
    ensures
        out == precedes(a@.slot(), b@.slot()),
{
    a.rank < b.rank || (a.rank == b.rank && a.part_index < b.part_index)
}

proof fn lemma_at_slot_joins(a: Seq<ChunkView>, b: Seq<ChunkView>, slot: (u32, u32))
    ensures
        at_slot(a + b, slot) == at_slot(a, slot) + at_slot(b, slot),
    decreases a.len(),
{
    if a.len() == 0 {
        assert(a + b =~= b);
        assert(at_slot(a, slot) + at_slot(b, slot) =~= at_slot(b, slot));
    } else {
        lemma_at_slot_joins(a.drop_first(), b, slot);
        assert((a + b).drop_first() =~= a.drop_first() + b);
        assert((a + b)[0] == a[0]);
        assert(at_slot(a + b, slot) =~= at_slot(a, slot) + at_slot(b, slot));
    }
}

proof fn lemma_at_slot_none(a: Seq<ChunkView>, slot: (u32, u32))
    requires
        forall|i: int| 0 <= i < a.len() ==> (#[trigger] a[i]).slot() != slot,
    ensures
        at_slot(a, slot) == Seq::<ChunkView>::empty(),
    decreases a.len(),
{
    if a.len() > 0 {
        assert(a[0].slot() != slot);
        assert forall|i: int| 0 <= i < a.drop_first().len() implies (#[trigger] a.drop_first()[i]).slot()
            != slot by {
            assert(a.drop_first()[i] == a[i + 1]);
        }
        lemma_at_slot_none(a.drop_first(), slot);
    }
}

proof fn lemma_at_slot_one(chunk: ChunkView, slot: (u32, u32))
    ensures
        at_slot(seq![chunk], slot) == (if chunk.slot() == slot {
            seq![chunk]
        } else {
            Seq::empty()
        }),
{
    let one = seq![chunk];
    assert(one.drop_first() =~= Seq::<ChunkView>::empty());
    assert(at_slot(one.drop_first(), slot) =~= Seq::<ChunkView>::empty());
    assert(seq![chunk] + Seq::<ChunkView>::empty() =~= seq![chunk]);
}

/// The members of a slot are members of the whole.
proof fn lemma_at_slot_member(a: Seq<ChunkView>, slot: (u32, u32), i: int)
    requires
        0 <= i < at_slot(a, slot).len(),
    ensures
        a.contains(at_slot(a, slot)[i]),
        at_slot(a, slot)[i].slot() == slot,
    decreases a.len(),
{
    let rest = at_slot(a.drop_first(), slot);
    if a[0].slot() == slot && i == 0 {
        assert(a.contains(a[0]));
    } else {
        let k = if a[0].slot() == slot { i - 1 } else { i };
        lemma_at_slot_member(a.drop_first(), slot, k);
        let j = a.drop_first().index_of(rest[k]);
        assert(a[j + 1] == rest[k]);
    }
}

/// There is one way to arrange the chunks.
pub proof fn arranging_is_unique(
    chunks: Seq<ChunkView>,
    one: Seq<ChunkView>,
    other: Seq<ChunkView>,
)
    requires
        arranges(chunks, one),
        arranges(chunks, other),
    ensures
        one == other,
{
    assert forall|slot: (u32, u32)| #[trigger] at_slot(one, slot) == at_slot(other, slot) by {
        assert(at_slot(one, slot) == at_slot(chunks, slot));
    }
    lemma_same_slots_same_order(one, other);
}

proof fn lemma_first_of_slot(a: Seq<ChunkView>)
    requires
        a.len() > 0,
    ensures
        at_slot(a, a[0].slot()).len() > 0,
        at_slot(a, a[0].slot())[0] == a[0],
{
}

proof fn lemma_same_slots_same_order(a: Seq<ChunkView>, b: Seq<ChunkView>)
    requires
        in_order(a),
        in_order(b),
        forall|slot: (u32, u32)| #[trigger] at_slot(a, slot) == at_slot(b, slot),
    ensures
        a == b,
    decreases a.len(),
{
    if a.len() == 0 {
        if b.len() > 0 {
            lemma_first_of_slot(b);
            assert(at_slot(a, b[0].slot()) == at_slot(b, b[0].slot()));
        }
        assert(a =~= b);
    } else {
        let slot = a[0].slot();
        lemma_first_of_slot(a);
        assert(at_slot(a, slot) == at_slot(b, slot));
        lemma_at_slot_member(b, slot, 0);
        let other = b[0].slot();
        lemma_first_of_slot(b);
        assert(at_slot(a, other) == at_slot(b, other));
        lemma_at_slot_member(a, other, 0);
        let j = b.index_of(at_slot(b, slot)[0]);
        let k = a.index_of(at_slot(a, other)[0]);
        assert(!precedes(slot, other)) by {
            if j > 0 {
                assert(!precedes(b[j].slot(), b[0].slot()));
            }
        }
        assert(!precedes(other, slot)) by {
            if k > 0 {
                assert(!precedes(a[k].slot(), a[0].slot()));
            }
        }
        assert(slot == other);
        assert(a[0] == b[0]);
        assert forall|s: (u32, u32)| #[trigger] at_slot(a.drop_first(), s) == at_slot(
            b.drop_first(),
            s,
        ) by {
            assert(at_slot(a, s) == at_slot(b, s));
            if s == slot {
                assert(at_slot(a, s).drop_first() =~= at_slot(a.drop_first(), s));
                assert(at_slot(b, s).drop_first() =~= at_slot(b.drop_first(), s));
            }
        }
        lemma_same_slots_same_order(a.drop_first(), b.drop_first());
        assert(a =~= seq![a[0]] + a.drop_first());
        assert(b =~= seq![b[0]] + b.drop_first());
    }
}

/// The spliced sequence is arranged as the longer prefix is.
proof fn lemma_insertion(before: Seq<ChunkView>, sorted: Seq<ChunkView>, chunk: ChunkView, at: int)
    requires
        arranges(before, sorted),
        0 <= at <= sorted.len(),
        forall|i: int| 0 <= i < at ==> !precedes(chunk.slot(), (#[trigger] sorted[i]).slot()),
        forall|i: int|
            at <= i < sorted.len() ==> precedes(chunk.slot(), (#[trigger] sorted[i]).slot()),
    ensures
        arranges(before.push(chunk), sorted.insert(at, chunk)),
{
    let left = sorted.take(at);
    let right = sorted.skip(at);
    let after = sorted.insert(at, chunk);
    assert(sorted =~= left + right);
    assert(after =~= (left + seq![chunk]) + right);
    assert(before.push(chunk) =~= before + seq![chunk]);
    assert forall|slot: (u32, u32)| #[trigger] at_slot(after, slot) == at_slot(
        before.push(chunk),
        slot,
    ) by {
        lemma_at_slot_joins(left + seq![chunk], right, slot);
        lemma_at_slot_joins(left, seq![chunk], slot);
        lemma_at_slot_joins(left, right, slot);
        lemma_at_slot_joins(before, seq![chunk], slot);
        lemma_at_slot_one(chunk, slot);
        assert(at_slot(sorted, slot) == at_slot(before, slot));
        if chunk.slot() == slot {
            assert forall|i: int| 0 <= i < right.len() implies (#[trigger] right[i]).slot()
                != slot by {
                assert(right[i] == sorted[at + i]);
            }
            lemma_at_slot_none(right, slot);
        }
        assert(at_slot(after, slot) =~= at_slot(before.push(chunk), slot));
    }
    assert forall|i: int, j: int| 0 <= i < j < after.len() implies !precedes(
        after[j].slot(),
        after[i].slot(),
    ) by {
        let a = if i < at { i } else { i - 1 };
        let b = if j < at { j } else { j - 1 };
        if i != at {
            assert(after[i] == sorted[a]);
        }
        if j != at {
            assert(after[j] == sorted[b]);
        }
        if i != at && j != at {
            assert(!precedes(sorted[b].slot(), sorted[a].slot()));
        }
    }
}

/// Puts the chunks in order, by rank and then by part.
fn arrange(chunks: Vec<ChunkRecord>) -> (out: Vec<ChunkRecord>)
    ensures
        arranges(views(chunks@), views(out@)),
{
    let ghost given = views(chunks@);
    let mut out: Vec<ChunkRecord> = chunks;
    let mut i: usize = 0;
    assert(views(out@).take(0) =~= given.take(0));
    while i < out.len()
        invariant
            i <= out@.len(),
            out@.len() == given.len(),
            arranges(given.take(i as int), views(out@).take(i as int)),
            views(out@).skip(i as int) == given.skip(i as int),
        decreases out@.len() - i,
    {
        let ghost was = views(out@);
        let ghost sorted = was.take(i as int);
        let chunk: ChunkRecord = out.remove(i);
        assert(chunk@ == was[i as int]);
        assert(given[i as int] == given.skip(i as int)[0]);
        let mut at: usize = i;
        while at > 0 && is_before(&chunk, &out[at - 1])
            invariant
                at <= i <= out@.len(),
                sorted == views(out@).take(i as int),
                in_order(sorted),
                forall|k: int|
                    at <= k < i ==> precedes(chunk@.slot(), (#[trigger] sorted[k]).slot()),
            decreases at,
        {
            assert(sorted[at - 1] == out@[at - 1]@);
            at = at - 1;
        }
        proof {
            assert forall|k: int| 0 <= k < at implies !precedes(
                chunk@.slot(),
                (#[trigger] sorted[k]).slot(),
            ) by {
                assert(sorted[at - 1] == out@[at - 1]@);
                if k < at - 1 {
                    assert(!precedes(sorted[at - 1].slot(), sorted[k].slot()));
                }
            }
            lemma_insertion(given.take(i as int), sorted, chunk@, at as int);
            assert(given.take(i as int).push(chunk@) =~= given.take(i + 1));
        }
        out.insert(at, chunk);
        proof {
            assert(views(out@).take(i + 1) =~= sorted.insert(at as int, chunk@));
            let left = views(out@).skip(i + 1);
            let right = given.skip(i + 1);
            assert forall|k: int| 0 <= k < right.len() implies left[k] == #[trigger] right[k] by {
                assert(was.skip(i as int)[k + 1] == given.skip(i as int)[k + 1]);
            }
            assert(left =~= right);
        }
        i = i + 1;
    }
    assert(given.take(i as int) =~= given);
    assert(views(out@).take(i as int) =~= views(out@));
    out
}

/// Sums up the chunks' bytes, unless the sum exceeds 64 bits.
pub fn sum_bytes(chunks: &Vec<ChunkRecord>) -> (out: Option<u64>)
    ensures
        match out {
            Some(n) => n == total(views(chunks@)),
            None => total(views(chunks@)) > u64::MAX,
        },
{
    let ghost all = views(chunks@);
    let mut sum: u64 = 0;
    let mut i: usize = 0;
    assert(all.take(0) =~= Seq::<ChunkView>::empty());
    while i < chunks.len()
        invariant
            i <= chunks@.len(),
            all == views(chunks@),
            sum == total(all.take(i as int)),
        decreases chunks@.len() - i,
    {
        proof {
            assert(all.take(i + 1).drop_last() =~= all.take(i as int));
            assert(all.take(i + 1).last() == chunks@[i as int]@);
            lemma_total_grows(all, i + 1);
        }
        match sum.checked_add(chunks[i].size_bytes) {
            None => {
                return None;
            },
            Some(more) => {
                sum = more;
            },
        }
        i = i + 1;
    }
    assert(all.take(i as int) =~= all);
    Some(sum)
}

proof fn lemma_total_grows(chunks: Seq<ChunkView>, k: int)
    requires
        0 <= k <= chunks.len(),
    ensures
        total(chunks.take(k)) <= total(chunks),
    decreases chunks.len(),
{
    if k == chunks.len() {
        assert(chunks.take(k) =~= chunks);
    } else {
        assert(chunks.drop_last().take(k) =~= chunks.take(k));
        lemma_total_grows(chunks.drop_last(), k);
    }
}

impl Manifest {
    /// The manifest of a step, with its chunks in order and stamped with the
    /// current time.
    pub fn new(step: u64, chunks: Vec<ChunkRecord>) -> (out: Self)
        ensures
            out@ == ManifestView::of(step, views(chunks@), out.created_at@),
            out.step == step,
            out.format_version == 1,
            text::ends_with(out.created_at@, "+00:00"@),
    {
        let created_at: String = outside::utc_now_rfc3339();
        Self::new_at(step, chunks, created_at)
    }

    /// [`Manifest::new`] with the given commit timestamp.
    pub fn new_at(step: u64, chunks: Vec<ChunkRecord>, created_at: String) -> (out: Self)
        ensures
            out@ == ManifestView::of(step, views(chunks@), created_at@),
            out.step == step,
            out.format_version == 1,
            out.created_at@ == created_at@,
            arranges(views(chunks@), views(out.chunks@)),
    {
        // Deterministic order: by rank then part. Makes manifests diffable
        // and restore iteration order stable.
        let sorted: Vec<ChunkRecord> = arrange(chunks);
        proof {
            let given = views(chunks@);
            assert(arranges(given, views(sorted@)));
            assert(arranges(given, arranged(given)));
            arranging_is_unique(given, views(sorted@), arranged(given));
        }
        Manifest { format_version: MANIFEST_FORMAT_VERSION, step, chunks: sorted, created_at }
    }

    /// How many bytes the chunks hold together.
    pub fn total_bytes(&self) -> (out: u64)
        requires
            total(self@.chunks) <= u64::MAX,
        ensures
            out == total(self@.chunks),
    {
        match sum_bytes(&self.chunks) {
            Some(sum) => sum,
            None => {
                assert(false);
                0
            },
        }
    }

    /// The ranks that have chunks, each once, in increasing order.
    pub fn ranks(&self) -> (out: Vec<u32>)
        ensures
            forall|i: int, j: int| 0 <= i < j < out@.len() ==> out@[i] < out@[j],
            forall|rank: u32|
                out@.contains(rank) <==> exists|i: int|
                    0 <= i < self.chunks@.len() && (#[trigger] self.chunks@[i]).rank == rank,
    {
        let mut out: Vec<u32> = Vec::new();
        let mut i: usize = 0;
        while i < self.chunks.len()
            invariant
                i <= self.chunks@.len(),
                forall|a: int, b: int| 0 <= a < b < out@.len() ==> out@[a] < out@[b],
                forall|rank: u32|
                    out@.contains(rank) <==> exists|k: int|
                        0 <= k < i && (#[trigger] self.chunks@[k]).rank == rank,
            decreases self.chunks@.len() - i,
        {
            let rank: u32 = self.chunks[i].rank;
            let ghost before = out@;
            add_rank(&mut out, rank);
            proof {
                assert forall|r: u32|
                    out@.contains(r) <==> exists|k: int|
                        0 <= k < i + 1 && (#[trigger] self.chunks@[k]).rank == r by {
                    assert(out@.contains(r) == (before.contains(r) || r == rank));
                    if r == rank {
                        assert(self.chunks@[i as int].rank == r);
                    }
                    if before.contains(r) {
                        let k = choose|k: int| 0 <= k < i && (#[trigger] self.chunks@[k]).rank == r;
                        assert(0 <= k < i + 1);
                    }
                }
            }
            i = i + 1;
        }
        out
    }
}

/// Adds a number to an increasing list, unless it is there.
fn add_rank(ranks: &mut Vec<u32>, rank: u32)
    requires
        forall|a: int, b: int| 0 <= a < b < old(ranks)@.len() ==> old(ranks)@[a] < old(ranks)@[b],
    ensures
        forall|a: int, b: int|
            0 <= a < b < final(ranks)@.len() ==> final(ranks)@[a] < final(ranks)@[b],
        forall|r: u32| #[trigger]
            final(ranks)@.contains(r) <==> (old(ranks)@.contains(r) || r == rank),
{
    let ghost before = ranks@;
    let mut at: usize = ranks.len();
    while at > 0 && ranks[at - 1] > rank
        invariant
            at <= ranks@.len(),
            ranks@ == before,
            forall|k: int| at <= k < ranks@.len() ==> ranks@[k] > rank,
        decreases at,
    {
        at = at - 1;
    }
    if at > 0 && ranks[at - 1] == rank {
        assert(before.contains(before[at - 1]));
        return;
    }
    ranks.insert(at, rank);
    proof {
        assert(ranks@ == before.insert(at as int, rank));
        assert forall|r: u32| #[trigger]
            ranks@.contains(r) <==> (before.contains(r) || r == rank) by {
            if before.contains(r) {
                let k = before.index_of(r);
                assert(ranks@[if k < at { k } else { k + 1 }] == r);
            }
            assert(ranks@[at as int] == rank);
            if ranks@.contains(r) && r != rank {
                let k = ranks@.index_of(r);
                assert(before[if k < at { k } else { k - 1 }] == r);
            }
        }
    }
}

/// Where a chunk of the slot goes among the first `at` sorted ones.
spec fn place(sorted: Seq<ChunkView>, slot: (u32, u32), at: int) -> int
    decreases at,
{
    if at > 0 && precedes(slot, sorted[at - 1].slot()) {
        place(sorted, slot, at - 1)
    } else {
        at
    }
}

proof fn lemma_place(sorted: Seq<ChunkView>, slot: (u32, u32), at: int)
    requires
        in_order(sorted),
        0 <= at <= sorted.len(),
        forall|i: int| at <= i < sorted.len() ==> precedes(slot, (#[trigger] sorted[i]).slot()),
    ensures
        0 <= place(sorted, slot, at) <= sorted.len(),
        forall|i: int|
            0 <= i < place(sorted, slot, at) ==> !precedes(slot, (#[trigger] sorted[i]).slot()),
        forall|i: int|
            place(sorted, slot, at) <= i < sorted.len() ==> precedes(
                slot,
                (#[trigger] sorted[i]).slot(),
            ),
    decreases at,
{
    if at > 0 && precedes(slot, sorted[at - 1].slot()) {
        lemma_place(sorted, slot, at - 1);
    } else if at > 0 {
        assert forall|i: int| 0 <= i < at implies !precedes(
            slot,
            (#[trigger] sorted[i]).slot(),
        ) by {
            if i < at - 1 {
                assert(!precedes(sorted[at - 1].slot(), sorted[i].slot()));
            }
        }
    }
}

/// Any chunks can be arranged, so what a manifest lists is arranged.
pub proof fn manifest_lists_chunks_in_order(chunks: Seq<ChunkView>)
    ensures
        arranges(chunks, arranged(chunks)),
    decreases chunks.len(),
{
    if chunks.len() == 0 {
        assert(arranges(chunks, chunks));
    } else {
        let before = chunks.drop_last();
        manifest_lists_chunks_in_order(before);
        let sorted = arranged(before);
        let at = place(sorted, chunks.last().slot(), sorted.len() as int);
        lemma_place(sorted, chunks.last().slot(), sorted.len() as int);
        lemma_insertion(before, sorted, chunks.last(), at);
        assert(before.push(chunks.last()) =~= chunks);
        assert(arranges(chunks, sorted.insert(at, chunks.last())));
    }
}

/// Where no slot is reported twice, the order of the reports does not matter:
/// the same chunks give the same manifest.
pub proof fn report_order_does_not_matter(one: Seq<ChunkView>, other: Seq<ChunkView>)
    requires
        one.to_multiset() == other.to_multiset(),
        forall|i: int, j: int| 0 <= i < j < one.len() ==> one[i].slot() != one[j].slot(),
    ensures
        arranged(one) == arranged(other),
{
    manifest_lists_chunks_in_order(one);
    manifest_lists_chunks_in_order(other);
    assert forall|slot: (u32, u32)| #[trigger] at_slot(arranged(other), slot) == at_slot(
        one,
        slot,
    ) by {
        assert(at_slot(arranged(other), slot) == at_slot(other, slot));
        lemma_slot_of_multiset(one, other, slot);
    }
    arranging_is_unique(one, arranged(one), arranged(other));
}

proof fn lemma_slot_counts(chunks: Seq<ChunkView>, slot: (u32, u32), chunk: ChunkView)
    ensures
        at_slot(chunks, slot).to_multiset().count(chunk) == (if chunk.slot() == slot {
            chunks.to_multiset().count(chunk)
        } else {
            0
        }),
    decreases chunks.len(),
{
    broadcast use vstd::seq_lib::group_to_multiset_ensures;

    if chunks.len() > 0 {
        let first = seq![chunks[0]];
        let rest = at_slot(chunks.drop_first(), slot);
        lemma_slot_counts(chunks.drop_first(), slot, chunk);
        assert(chunks =~= first + chunks.drop_first());
        vstd::seq_lib::lemma_multiset_commutative(first, chunks.drop_first());
        vstd::seq_lib::lemma_multiset_commutative(first, rest);
        assert(first =~= Seq::<ChunkView>::empty().push(chunks[0]));
    }
}

proof fn lemma_slot_short(chunks: Seq<ChunkView>, slot: (u32, u32))
    requires
        forall|i: int, j: int| 0 <= i < j < chunks.len() ==> chunks[i].slot() != chunks[j].slot(),
    ensures
        at_slot(chunks, slot).len() <= 1,
    decreases chunks.len(),
{
    if chunks.len() > 0 {
        let rest = chunks.drop_first();
        assert forall|i: int, j: int| 0 <= i < j < rest.len() implies rest[i].slot()
            != rest[j].slot() by {
            assert(chunks[i + 1].slot() != chunks[j + 1].slot());
        }
        if chunks[0].slot() == slot {
            assert forall|i: int| 0 <= i < rest.len() implies (#[trigger] rest[i]).slot()
                != slot by {
                assert(chunks[0].slot() != chunks[i + 1].slot());
            }
            lemma_at_slot_none(rest, slot);
        } else {
            lemma_slot_short(rest, slot);
        }
    }
}

proof fn lemma_slot_of_multiset(one: Seq<ChunkView>, other: Seq<ChunkView>, slot: (u32, u32))
    requires
        one.to_multiset() == other.to_multiset(),
        forall|i: int, j: int| 0 <= i < j < one.len() ==> one[i].slot() != one[j].slot(),
    ensures
        at_slot(one, slot) == at_slot(other, slot),
{
    broadcast use vstd::seq_lib::group_to_multiset_ensures;

    let left = at_slot(one, slot);
    let right = at_slot(other, slot);
    assert forall|chunk: ChunkView| left.to_multiset().count(chunk) == right.to_multiset().count(
        chunk,
    ) by {
        lemma_slot_counts(one, slot, chunk);
        lemma_slot_counts(other, slot, chunk);
    }
    assert(left.to_multiset() =~= right.to_multiset());
    lemma_slot_short(one, slot);
    left.to_multiset_ensures();
    right.to_multiset_ensures();
    if left.len() == 1 {
        assert(left.contains(left[0]));
        assert(right.to_multiset().count(left[0]) > 0);
        assert(right.contains(left[0]));
    }
    assert(left =~= right);
}

proof fn lemma_arranging_keeps_chunks(chunks: Seq<ChunkView>)
    ensures
        arranged(chunks).to_multiset() == chunks.to_multiset(),
{
    manifest_lists_chunks_in_order(chunks);
    let after = arranged(chunks);
    assert forall|chunk: ChunkView| after.to_multiset().count(chunk) == chunks.to_multiset().count(
        chunk,
    ) by {
        lemma_slot_counts(chunks, chunk.slot(), chunk);
        lemma_slot_counts(after, chunk.slot(), chunk);
        assert(at_slot(after, chunk.slot()) == at_slot(chunks, chunk.slot()));
    }
    assert(after.to_multiset() =~= chunks.to_multiset());
}

proof fn lemma_total_without(chunks: Seq<ChunkView>, i: int)
    requires
        0 <= i < chunks.len(),
    ensures
        total(chunks) == total(chunks.remove(i)) + chunks[i].size_bytes as nat,
    decreases chunks.len(),
{
    if i == chunks.len() - 1 {
        assert(chunks.remove(i) =~= chunks.drop_last());
    } else {
        lemma_total_without(chunks.drop_last(), i);
        assert(chunks.remove(i).drop_last() =~= chunks.drop_last().remove(i));
        assert(chunks.remove(i).last() == chunks.last());
    }
}

proof fn lemma_total_of_multiset(one: Seq<ChunkView>, other: Seq<ChunkView>)
    requires
        one.to_multiset() == other.to_multiset(),
    ensures
        total(one) == total(other),
    decreases one.len(),
{
    one.to_multiset_ensures();
    other.to_multiset_ensures();
    if one.len() > 0 {
        let last = one.last();
        assert(one.contains(last));
        assert(other.to_multiset().count(last) > 0);
        let i = other.index_of(last);
        assert(one.remove(one.len() - 1) =~= one.drop_last());
        lemma_total_without(other, i);
        lemma_total_of_multiset(one.drop_last(), other.remove(i));
    }
}

/// A manifest holds as many bytes as were reported, in whatever order the reports
/// came and also where a slot was reported more than once.
pub proof fn total_does_not_depend_on_the_order(
    step: u64,
    one: Seq<ChunkView>,
    other: Seq<ChunkView>,
    created_at: Seq<char>,
    then: Seq<char>,
)
    requires
        one.to_multiset() == other.to_multiset(),
    ensures
        total(ManifestView::of(step, one, created_at).chunks) == total(one),
        total(ManifestView::of(step, other, then).chunks) == total(
            ManifestView::of(step, one, created_at).chunks,
        ),
{
    lemma_arranging_keeps_chunks(one);
    lemma_arranging_keeps_chunks(other);
    lemma_total_of_multiset(arranged(one), one);
    lemma_total_of_multiset(arranged(other), other);
    lemma_total_of_multiset(one, other);
}

/// A manifest records the very step that it was made for, in the current format,
/// and the timestamp it was given; the key that it is published under names that
/// same step.
pub proof fn a_manifest_records_its_step(
    target_prefix: Seq<char>,
    step: u64,
    chunks: Seq<ChunkView>,
    created_at: Seq<char>,
)
    ensures
        ({
            let made = ManifestView::of(step, chunks, created_at);
            &&& made.step == step
            &&& made.format_version == 1
            &&& made.created_at == created_at
            &&& layout::manifest_step(layout::manifest_name(target_prefix, made.step)) == step
            &&& layout::manifest_step(
                text::trim(target_prefix, '/') + "/manifests/step-"@ + text::decimal(step as nat)
                    + ".json"@,
            ) == made.step
        }),
{
    layout::manifest_key_names_its_step(target_prefix, step);
}

proof fn lemma_at_slot_filters(chunks: Seq<ChunkView>, rank: u32, part: u32)
    ensures
        at_slot(chunks, (rank, part)) == chunks.filter(
            |c: ChunkView| c.rank == rank && c.part_index == part,
        ),
    decreases chunks.len(),
{
    reveal(Seq::filter);
    let wanted = |c: ChunkView| c.rank == rank && c.part_index == part;
    if chunks.len() > 0 {
        let front = chunks.drop_last();
        lemma_at_slot_filters(front, rank, part);
        lemma_at_slot_joins(front, seq![chunks.last()], (rank, part));
        lemma_at_slot_one(chunks.last(), (rank, part));
        assert(front + seq![chunks.last()] =~= chunks);
        assert(at_slot(chunks, (rank, part)) =~= chunks.filter(wanted));
    } else {
        assert(at_slot(chunks, (rank, part)) =~= chunks.filter(wanted));
    }
}

/// A manifest lists every chunk that was reported and no other, each as often as
/// it was reported, by rank and then by part; those of one rank and part stay in
/// the order of their reports.
pub proof fn a_manifest_lists_every_chunk(
    step: u64,
    chunks: Seq<ChunkView>,
    created_at: Seq<char>,
    rank: u32,
    part: u32,
)
    ensures
        ({
            let listed = ManifestView::of(step, chunks, created_at).chunks;
            &&& listed.len() == chunks.len()
            &&& listed.to_multiset() == chunks.to_multiset()
            &&& forall|i: int, j: int|
                0 <= i < j < listed.len() ==> listed[i].rank < listed[j].rank || (listed[i].rank
                    == listed[j].rank && listed[i].part_index <= listed[j].part_index)
            &&& listed.filter(|c: ChunkView| c.rank == rank && c.part_index == part)
                == chunks.filter(|c: ChunkView| c.rank == rank && c.part_index == part)
        }),
{
    broadcast use vstd::seq_lib::group_to_multiset_ensures;

    let listed = arranged(chunks);
    manifest_lists_chunks_in_order(chunks);
    lemma_arranging_keeps_chunks(chunks);
    assert(listed.len() == listed.to_multiset().len());
    assert(chunks.len() == chunks.to_multiset().len());
    lemma_at_slot_filters(listed, rank, part);
    lemma_at_slot_filters(chunks, rank, part);
    assert(at_slot(listed, (rank, part)) == at_slot(chunks, (rank, part)));
    assert forall|i: int, j: int| 0 <= i < j < listed.len() implies listed[i].rank
        < listed[j].rank || (listed[i].rank == listed[j].rank && listed[i].part_index
        <= listed[j].part_index) by {
        assert(!precedes(listed[j].slot(), listed[i].slot()));
    }
}

/// The bytes of a manifest are those of its chunks, added up one by one.
pub proof fn bytes_add_up(chunks: Seq<ChunkView>, chunk: ChunkView)
    ensures
        total(Seq::<ChunkView>::empty()) == 0,
        total(chunks.push(chunk)) == total(chunks) + chunk.size_bytes,
{
    assert(chunks.push(chunk).drop_last() =~= chunks);
}

/// Nothing of a manifest or of a chunk is lost on the way to its view.
pub proof fn manifest_views_are_faithful(made: Manifest, i: int)
    requires
        0 <= i < made.chunks@.len(),
    ensures
        made@.format_version == made.format_version,
        made@.step == made.step,
        made@.created_at == made.created_at@,
        made@.chunks.len() == made.chunks@.len(),
        made@.chunks[i].key == made.chunks@[i].key@,
        made@.chunks[i].size_bytes == made.chunks@[i].size_bytes,
        made@.chunks[i].sha256 == made.chunks@[i].sha256@,
        made@.chunks[i].rank == made.chunks@[i].rank,
        made@.chunks[i].part_index == made.chunks@[i].part_index,
{
}

} // verus!
