//! Recovery: finding the newest committed manifest.
//!
//! The newest manifest is the one with the largest step. The latest pointer is
//! moved on a best-effort basis and by every commit, so it may be missing or name
//! an older manifest: the manifests are listed as well, and the manifest that the
//! pointer names is taken where nothing newer is listed or the list cannot be
//! had. A pointer that leads elsewhere, to an object that is not among the
//! target's manifests, is followed as it is. A [`RecoverRun`] says which storage
//! call comes next and is told how it went.

use crate::commit;
use crate::error::DtrError;
use crate::error::ErrorView;
use crate::layout;
use crate::manifest::Manifest;
use crate::manifest::ManifestView;
use crate::outside;
use crate::storage;
use crate::storage::MetaView;
use crate::storage::ObjectMeta;
use crate::storage::Store;
use crate::text;
use bytes::Bytes;
use vstd::prelude::*;

verus! {

/// What a recovery waits for.
#[derive(Debug)]
pub enum RecoverAction {
    /// Look up the metadata of an object.
    Head { key: String },
    /// Read an object.
    Get { key: String },
    /// List the objects under a prefix.
    List { prefix: String },
    /// Decode a manifest.
    Decode { data: Bytes },
    /// Nothing more: the outcome is known.
    Finish,
}

enum Phase {
    HeadPointer,
    GetPointer,
    HeadManifest(String),
    List(Option<String>),
    GetManifest(String),
    Decode(Bytes),
    Done(Result<Option<Manifest>, DtrError>),
}

/// How far a recovery has come.
pub enum PhaseView {
    /// Whether there is a pointer is asked for.
    HeadPointer,
    /// The pointer is asked for.
    GetPointer,
    /// Whether the manifest that the pointer names exists is asked for.
    HeadManifest(Seq<char>),
    /// The list of manifests is asked for; the pointer may have named one that
    /// exists.
    List(Option<Seq<char>>),
    /// A manifest is asked for.
    GetManifest(Seq<char>),
    /// The manifest is to be decoded.
    Decode(Seq<u8>),
    /// The outcome: the newest manifest, if any, or what went wrong.
    Done(Result<Option<ManifestView>, ErrorView>),
}

impl View for Phase {
    type V = PhaseView;

    closed spec fn view(&self) -> PhaseView {
        match *self {
            Phase::HeadPointer => PhaseView::HeadPointer,
            Phase::GetPointer => PhaseView::GetPointer,
            Phase::HeadManifest(key) => PhaseView::HeadManifest(key@),
            Phase::GetManifest(key) => PhaseView::GetManifest(key@),
            Phase::List(named) => PhaseView::List(text::optional(named)),
            Phase::Decode(data) => PhaseView::Decode(outside::contents(data)),
            Phase::Done(Ok(Some(manifest))) => PhaseView::Done(Ok(Some(manifest@))),
            Phase::Done(Ok(None)) => PhaseView::Done(Ok(None)),
            Phase::Done(Err(e)) => PhaseView::Done(Err(e@)),
        }
    }
}

/// Views of the listed objects.
pub open spec fn listing(objects: Seq<ObjectMeta>) -> Seq<MetaView> {
    objects.map_values(|m: ObjectMeta| m@)
}

/// The object names the largest step; of several such objects it is the last.
pub open spec fn is_newest(objects: Seq<MetaView>, i: int) -> bool {
    &&& 0 <= i < objects.len()
    &&& forall|j: int|
        0 <= j < objects.len() ==> layout::manifest_step(#[trigger] objects[j].key)
            <= layout::manifest_step(objects[i].key)
    &&& forall|j: int|
        i < j < objects.len() ==> layout::manifest_step(#[trigger] objects[j].key)
            < layout::manifest_step(objects[i].key)
}

/// The position of the newest manifest in a list.
pub open spec fn newest(objects: Seq<MetaView>) -> int {
    choose|i: int| is_newest(objects, i)
}

/// A reply to a listing, in views.
pub open spec fn list_reply(reply: Result<Vec<ObjectMeta>, DtrError>) -> Result<
    Seq<MetaView>,
    ErrorView,
> {
    match reply {
        Ok(objects) => Ok(listing(objects@)),
        Err(e) => Err(e@),
    }
}

/// The outcome of decoding a manifest, in views.
pub open spec fn decode_reply(reply: Result<Manifest, String>) -> Result<ManifestView, Seq<char>> {
    match reply {
        Ok(manifest) => Ok(manifest@),
        Err(m) => Err(m@),
    }
}

/// What finding the pointer, or not, leads to.
pub open spec fn after_head_pointer(reply: Result<Option<MetaView>, ErrorView>) -> PhaseView {
    match reply {
        Err(e) => PhaseView::Done(Err(e)),
        Ok(Some(_)) => PhaseView::GetPointer,
        Ok(None) => PhaseView::List(None),
    }
}

/// The key names a manifest of the target.
pub open spec fn is_manifest_of(prefix: Seq<char>, key: Seq<char>) -> bool {
    key == layout::manifest_name(prefix, layout::manifest_step(key))
}

/// What reading the pointer leads to. A pointer that names nothing is as good as
/// none.
pub open spec fn after_get_pointer(reply: Result<Seq<u8>, ErrorView>) -> PhaseView {
    match reply {
        Err(e) => PhaseView::Done(Err(e)),
        Ok(raw) => match outside::json_text_field(raw, "manifest_key"@) {
            Some(key) => PhaseView::HeadManifest(key),
            None => PhaseView::List(None),
        },
    }
}

/// What finding the object that the pointer names, or not, leads to. One of the
/// target's manifests is held against the others; anything else is read as it is.
pub open spec fn after_head_manifest(
    prefix: Seq<char>,
    key: Seq<char>,
    reply: Result<Option<MetaView>, ErrorView>,
) -> PhaseView {
    match reply {
        Err(e) => PhaseView::Done(Err(e)),
        Ok(Some(_)) => if is_manifest_of(prefix, key) {
            PhaseView::List(Some(key))
        } else {
            PhaseView::GetManifest(key)
        },
        Ok(None) => PhaseView::List(None),
    }
}

/// The newest manifest: the one with the largest step among those listed, or the
/// one that the pointer names where no step that large is listed.
pub open spec fn newest_key(named: Option<Seq<char>>, objects: Seq<MetaView>) -> Option<
    Seq<char>,
> {
    match named {
        None => if objects.len() == 0 {
            None
        } else {
            Some(objects[newest(objects)].key)
        },
        Some(key) => if objects.len() == 0 || layout::manifest_step(
            objects[newest(objects)].key,
        ) < layout::manifest_step(key) {
            Some(key)
        } else {
            Some(objects[newest(objects)].key)
        },
    }
}

/// What listing the manifests leads to. Where the list cannot be had, the manifest
/// that the pointer names has to do.
pub open spec fn after_list(
    named: Option<Seq<char>>,
    reply: Result<Seq<MetaView>, ErrorView>,
) -> PhaseView {
    match reply {
        Err(e) => match named {
            Some(key) => PhaseView::GetManifest(key),
            None => PhaseView::Done(Err(e)),
        },
        Ok(objects) => match newest_key(named, objects) {
            None => PhaseView::Done(Ok(None)),
            Some(key) => PhaseView::GetManifest(key),
        },
    }
}

/// What reading a manifest leads to.
pub open spec fn after_get_manifest(reply: Result<Seq<u8>, ErrorView>) -> PhaseView {
    match reply {
        Err(e) => PhaseView::Done(Err(e)),
        Ok(data) => PhaseView::Decode(data),
    }
}

/// What decoding a manifest leads to.
pub open spec fn after_decode(reply: Result<ManifestView, Seq<char>>) -> PhaseView {
    PhaseView::Done(
        match reply {
            Ok(manifest) => Ok(Some(manifest)),
            Err(m) => Err(ErrorView::Internal("manifest deserialization: "@ + m)),
        },
    )
}

/// One recovery in progress.
pub struct RecoverRun {
    prefix: String,
    phase: Phase,
}

impl RecoverRun {
    /// The prefix of the checkpoint target.
    pub closed spec fn prefix(self) -> Seq<char> {
        self.prefix@
    }

    pub closed spec fn phase(self) -> PhaseView {
        self.phase@
    }

    /// Load the newest committed manifest: the one that the latest pointer names,
    /// unless a newer one is listed.
    pub fn start(target_prefix: &str) -> (out: Self)
        ensures
            out.prefix() == target_prefix@,
            out.phase() == PhaseView::HeadPointer,
    {
        RecoverRun { prefix: target_prefix.to_owned(), phase: Phase::HeadPointer }
    }

    /// What comes next.
    pub fn action(&self) -> (out: RecoverAction)
        ensures
            match self.phase() {
                PhaseView::HeadPointer => out matches RecoverAction::Head { key } && key@
                    == layout::latest_name(self.prefix()),
                PhaseView::GetPointer => out matches RecoverAction::Get { key } && key@
                    == layout::latest_name(self.prefix()),
                PhaseView::HeadManifest(k) => out matches RecoverAction::Head { key } && key@ == k,
                PhaseView::GetManifest(k) => out matches RecoverAction::Get { key } && key@ == k,
                PhaseView::List(_) => out matches RecoverAction::List { prefix } && prefix@
                    == layout::manifests_name(self.prefix()),
                PhaseView::Decode(raw) => out matches RecoverAction::Decode { data }
                    && outside::contents(data) == raw,
                PhaseView::Done(_) => out is Finish,
            },
    {
        match &self.phase {
            Phase::HeadPointer => RecoverAction::Head {
                key: layout::latest_key(self.prefix.as_str()),
            },
            Phase::GetPointer => RecoverAction::Get {
                key: layout::latest_key(self.prefix.as_str()),
            },
            Phase::HeadManifest(key) => RecoverAction::Head { key: key.clone() },
            Phase::GetManifest(key) => RecoverAction::Get { key: key.clone() },
            Phase::List(_) => RecoverAction::List {
                prefix: layout::manifests_prefix(self.prefix.as_str()),
            },
            Phase::Decode(data) => RecoverAction::Decode { data: outside::bytes_clone(data) },
            Phase::Done(_) => RecoverAction::Finish,
        }
    }

    /// Takes in the metadata that was asked for.
    pub fn on_head(&mut self, reply: Result<Option<ObjectMeta>, DtrError>)
        requires
            old(self).phase() is HeadPointer || old(self).phase() is HeadManifest,
        ensures
            final(self).prefix() == old(self).prefix(),
            final(self).phase() == (match old(self).phase() {
                PhaseView::HeadManifest(key) => after_head_manifest(
                    old(self).prefix(),
                    key,
                    commit::head_reply(reply),
                ),
                _ => after_head_pointer(commit::head_reply(reply)),
            }),
    {
        let named: Option<String> = match &self.phase {
            Phase::HeadManifest(key) => Some(key.clone()),
            _ => None,
        };
        self.phase = match (reply, named) {
            (Err(e), _) => Phase::Done(Err(e)),
            (Ok(None), _) => Phase::List(None),
            (Ok(Some(_)), Some(key)) => {
                let own: String = layout::manifest_key(
                    self.prefix.as_str(),
                    layout::manifest_step_of(key.as_str()),
                );
                if text::same(key.as_str(), own.as_str()) {
                    Phase::List(Some(key))
                } else {
                    Phase::GetManifest(key)
                }
            },
            (Ok(Some(_)), None) => Phase::GetPointer,
        };
    }

    /// Takes in the object that was asked for.
    pub fn on_get(&mut self, reply: Result<Bytes, DtrError>)
        requires
            old(self).phase() is GetPointer || old(self).phase() is GetManifest,
        ensures
            final(self).prefix() == old(self).prefix(),
            final(self).phase() == (match old(self).phase() {
                PhaseView::GetManifest(_) => after_get_manifest(commit::get_reply(reply)),
                _ => after_get_pointer(commit::get_reply(reply)),
            }),
    {
        let wanted: bool = match self.phase {
            Phase::GetManifest(_) => true,
            _ => false,
        };
        self.phase = match reply {
            Err(e) => Phase::Done(Err(e)),
            Ok(data) => {
                if wanted {
                    Phase::Decode(data)
                } else {
                    match outside::json_read_text(outside::bytes_as_slice(&data), "manifest_key") {
                        Some(key) => Phase::HeadManifest(key),
                        None => Phase::List(None),
                    }
                }
            },
        };
    }

    /// Takes in the list that was asked for.
    pub fn on_list(&mut self, reply: Result<Vec<ObjectMeta>, DtrError>)
        requires
            old(self).phase() is List,
        ensures
            final(self).prefix() == old(self).prefix(),
            final(self).phase() == after_list(old(self).phase()->List_0, list_reply(reply)),
    {
        let named: Option<String> = match &self.phase {
            Phase::List(named) => text::clone_optional(named),
            _ => None,
        };
        self.phase = match reply {
            Err(e) => match named {
                Some(key) => Phase::GetManifest(key),
                None => Phase::Done(Err(e)),
            },
            Ok(objects) => match newest_key_of(named, &objects) {
                None => Phase::Done(Ok(None)),
                Some(key) => Phase::GetManifest(key),
            },
        };
    }

    /// Takes in how decoding the manifest went.
    pub fn on_decoded(&mut self, reply: Result<Manifest, String>)
        requires
            old(self).phase() is Decode,
        ensures
            final(self).prefix() == old(self).prefix(),
            final(self).phase() == after_decode(decode_reply(reply)),
    {
        self.phase = match reply {
            Ok(manifest) => Phase::Done(Ok(Some(manifest))),
            Err(m) => Phase::Done(
                Err(DtrError::Internal(text::join2("manifest deserialization: ", m.as_str()))),
            ),
        };
    }

    /// The outcome: the newest manifest, if any, or what went wrong.
    pub fn finish(self) -> (out: Result<Option<Manifest>, DtrError>)
        requires
            self.phase() is Done,
        ensures
            match out {
                Ok(Some(manifest)) => self.phase() == PhaseView::Done(Ok(Some(manifest@))),
                Ok(None) => self.phase() == PhaseView::Done(Ok(None)),
                Err(e) => self.phase() == PhaseView::Done(Err(e@)),
            },
    {
        match self.phase {
            Phase::Done(outcome) => outcome,
            _ => Ok(None),
        }
    }
}

/// The key of the newest manifest.
fn newest_key_of(named: Option<String>, objects: &Vec<ObjectMeta>) -> (out: Option<String>)
    ensures
        text::optional(out) == newest_key(text::optional(named), listing(objects@)),
{
    if objects.len() == 0 {
        return named;
    }
    let at: usize = newest_of(objects);
    let listed: String = objects[at].key.clone();
    match named {
        None => Some(listed),
        Some(key) => if layout::manifest_step_of(listed.as_str()) < layout::manifest_step_of(
            key.as_str(),
        ) {
            Some(key)
        } else {
            Some(listed)
        },
    }
}

/// The position of the newest manifest in a list.
fn newest_of(objects: &Vec<ObjectMeta>) -> (out: usize)
    requires
        objects@.len() > 0,
    ensures
        out < objects@.len(),
        out == newest(listing(objects@)),
{
    let ghost all = listing(objects@);
    let mut best: usize = 0;
    let mut largest: u64 = layout::manifest_step_of(objects[0].key.as_str());
    let mut i: usize = 1;
    while i < objects.len()
        invariant
            best < i <= objects@.len(),
            all == listing(objects@),
            largest == layout::manifest_step(all[best as int].key),
            forall|j: int|
                0 <= j < i ==> layout::manifest_step(#[trigger] all[j].key) <= largest,
            forall|j: int|
                best < j < i ==> layout::manifest_step(#[trigger] all[j].key) < largest,
        decreases objects@.len() - i,
    {
        let step: u64 = layout::manifest_step_of(objects[i].key.as_str());
        assert(all[i as int].key == objects@[i as int].key@);
        if step >= largest {
            best = i;
            largest = step;
        }
        i = i + 1;
    }
    proof {
        assert(is_newest(all, best as int));
        lemma_newest(all, best as int);
    }
    best
}

proof fn lemma_newest(objects: Seq<MetaView>, i: int)
    requires
        is_newest(objects, i),
    ensures
        newest(objects) == i,
{
    let j = newest(objects);
    assert(is_newest(objects, j));
    if i < j {
        assert(layout::manifest_step(objects[j].key) < layout::manifest_step(objects[i].key));
        assert(layout::manifest_step(objects[i].key) <= layout::manifest_step(objects[j].key));
    }
    if j < i {
        assert(layout::manifest_step(objects[i].key) < layout::manifest_step(objects[j].key));
        assert(layout::manifest_step(objects[j].key) <= layout::manifest_step(objects[i].key));
    }
}

proof fn lemma_newest_exists(objects: Seq<MetaView>)
    requires
        objects.len() > 0,
    ensures
        is_newest(objects, newest(objects)),
    decreases objects.len(),
{
    if objects.len() == 1 {
        assert(is_newest(objects, 0));
    } else {
        let fewer = objects.drop_last();
        lemma_newest_exists(fewer);
        let i = newest(fewer);
        let last = objects.len() - 1;
        assert forall|j: int| 0 <= j < last implies #[trigger] objects[j].key == fewer[j].key by {
            assert(objects[j] == fewer[j]);
        }
        if layout::manifest_step(objects[last].key) >= layout::manifest_step(objects[i].key) {
            assert forall|j: int| 0 <= j < objects.len() implies layout::manifest_step(
                #[trigger] objects[j].key,
            ) <= layout::manifest_step(objects[last].key) by {
                if j < last {
                    assert(layout::manifest_step(fewer[j].key) <= layout::manifest_step(
                        fewer[i].key,
                    ));
                }
            }
            assert(is_newest(objects, last));
        } else {
            assert forall|j: int| 0 <= j < objects.len() implies layout::manifest_step(
                #[trigger] objects[j].key,
            ) <= layout::manifest_step(objects[i].key) by {
                if j < last {
                    assert(layout::manifest_step(fewer[j].key) <= layout::manifest_step(
                        fewer[i].key,
                    ));
                }
            }
            assert forall|j: int| i < j < objects.len() implies layout::manifest_step(
                #[trigger] objects[j].key,
            ) < layout::manifest_step(objects[i].key) by {
                if j < last {
                    assert(layout::manifest_step(fewer[j].key) < layout::manifest_step(
                        fewer[i].key,
                    ));
                }
            }
            assert(is_newest(objects, i));
        }
    }
}

/// Where a recovery gets to against a storage that answers truthfully and lists
/// `objects` as the manifests.
pub open spec fn recovered(store: Store, prefix: Seq<char>, objects: Seq<MetaView>) -> PhaseView {
    let first = after_head_pointer(storage::looked_up(store, layout::latest_name(prefix)));
    let second = if first is GetPointer {
        after_get_pointer(storage::read_out(store, layout::latest_name(prefix)))
    } else {
        first
    };
    let third = match second {
        PhaseView::HeadManifest(key) => after_head_manifest(
            prefix,
            key,
            storage::looked_up(store, key),
        ),
        other => other,
    };
    let fourth = match third {
        PhaseView::List(named) => after_list(named, Ok(objects)),
        other => other,
    };
    match fourth {
        PhaseView::GetManifest(key) => after_get_manifest(storage::read_out(store, key)),
        other => other,
    }
}

/// The object that the pointer names, where there is one.
pub open spec fn pointed_to(store: Store, prefix: Seq<char>) -> Option<Seq<char>> {
    if store.contains_key(layout::latest_name(prefix)) {
        match outside::json_text_field(store[layout::latest_name(prefix)], "manifest_key"@) {
            Some(key) => if store.contains_key(key) {
                Some(key)
            } else {
                None
            },
            None => None,
        }
    } else {
        None
    }
}

/// The pointer does not lead away from the target's manifests: it is missing, or
/// names nothing that exists, or names one of them.
pub open spec fn stays_home(store: Store, prefix: Seq<char>) -> bool {
    pointed_to(store, prefix) matches Some(key) ==> is_manifest_of(prefix, key)
}

/// The list holds the target's manifests in storage: all of them and nothing
/// else.
pub open spec fn lists_manifests(store: Store, prefix: Seq<char>, objects: Seq<MetaView>) -> bool {
    &&& forall|i: int|
        0 <= i < objects.len() ==> is_manifest_of(prefix, (#[trigger] objects[i]).key)
            && store.contains_key(objects[i].key)
    &&& forall|step: u64| #[trigger]
        store.contains_key(layout::manifest_name(prefix, step)) ==> exists|i: int|
            0 <= i < objects.len() && (#[trigger] objects[i]).key == layout::manifest_name(
                prefix,
                step,
            )
}

proof fn lemma_recovered(store: Store, prefix: Seq<char>, objects: Seq<MetaView>)
    requires
        stays_home(store, prefix),
    ensures
        recovered(store, prefix, objects) == (match newest_key(
            pointed_to(store, prefix),
            objects,
        ) {
            None => PhaseView::Done(Ok(None)),
            Some(key) => after_get_manifest(storage::read_out(store, key)),
        }),
{
}

/// With a complete list the pointer makes no difference.
proof fn lemma_listed(store: Store, prefix: Seq<char>, objects: Seq<MetaView>)
    requires
        stays_home(store, prefix),
        lists_manifests(store, prefix, objects),
    ensures
        newest_key(pointed_to(store, prefix), objects) == newest_key(None, objects),
{
    if let Some(key) = pointed_to(store, prefix) {
        assert(store.contains_key(layout::manifest_name(prefix, layout::manifest_step(key))));
        let i = choose|i: int| 0 <= i < objects.len() && (#[trigger] objects[i]).key == key;
        lemma_newest_exists(objects);
        assert(layout::manifest_step(objects[i].key) <= layout::manifest_step(
            objects[newest(objects)].key,
        ));
    }
}

/// What a commit wrote is what a recovery reads: with the manifest and the
/// pointer in storage, and nothing newer, recovery ends up decoding that
/// manifest, even where the list does not show it yet.
pub proof fn recovery_finds_what_commit_published(
    store: Store,
    prefix: Seq<char>,
    step: u64,
    manifest: Seq<u8>,
    pointer: Seq<u8>,
    objects: Seq<MetaView>,
)
    requires
        outside::json_text_field(pointer, "manifest_key"@) == Some(
            layout::manifest_name(prefix, step),
        ),
        forall|i: int|
            0 <= i < objects.len() ==> (#[trigger] objects[i]).key == layout::manifest_name(
                prefix,
                step,
            ) || layout::manifest_step(objects[i].key) < step,
    ensures
        recovered(
            store.insert(layout::manifest_name(prefix, step), manifest).insert(
                layout::latest_name(prefix),
                pointer,
            ),
            prefix,
            objects,
        ) == PhaseView::Decode(manifest),
{
    let after = store.insert(layout::manifest_name(prefix, step), manifest).insert(
        layout::latest_name(prefix),
        pointer,
    );
    layout::areas_are_disjoint(prefix, step, 0, 0, step);
    layout::manifest_key_names_its_step(prefix, step);
    lemma_recovered(after, prefix, objects);
    if objects.len() > 0 {
        lemma_newest_exists(objects);
    }
}

/// The newest manifest is the one with the largest step, in whatever order the
/// commits came: recovery decodes it, whether there is a pointer or not and
/// whichever of the manifests it names.
pub proof fn the_largest_step_is_recovered(
    store: Store,
    prefix: Seq<char>,
    objects: Seq<MetaView>,
    last: u64,
)
    requires
        stays_home(store, prefix),
        lists_manifests(store, prefix, objects),
        store.contains_key(layout::manifest_name(prefix, last)),
        forall|step: u64| #[trigger]
            store.contains_key(layout::manifest_name(prefix, step)) ==> step <= last,
    ensures
        recovered(store, prefix, objects) == PhaseView::Decode(
            store[layout::manifest_name(prefix, last)],
        ),
{
    let at = choose|i: int|
        0 <= i < objects.len() && (#[trigger] objects[i]).key == layout::manifest_name(
            prefix,
            last,
        );
    lemma_recovered(store, prefix, objects);
    lemma_listed(store, prefix, objects);
    lemma_newest_exists(objects);
    let i = newest(objects);
    let step = layout::manifest_step(objects[i].key);
    assert(store.contains_key(layout::manifest_name(prefix, step)));
    layout::manifest_key_names_its_step(prefix, last);
    assert(layout::manifest_step(objects[at].key) <= step);
    assert(step == last);
}

/// Losing the pointer is harmless: recovery gives the same with it and without it,
/// unless it led away from the target's manifests.
pub proof fn losing_the_pointer_is_harmless(
    store: Store,
    prefix: Seq<char>,
    objects: Seq<MetaView>,
)
    requires
        stays_home(store, prefix),
        lists_manifests(store, prefix, objects),
    ensures
        recovered(store.remove(layout::latest_name(prefix)), prefix, objects) == recovered(
            store,
            prefix,
            objects,
        ),
{
    lemma_recovered(store, prefix, objects);
    lemma_recovered(store.remove(layout::latest_name(prefix)), prefix, objects);
    lemma_listed(store, prefix, objects);
    if objects.len() > 0 {
        lemma_newest_exists(objects);
        let key = objects[newest(objects)].key;
        layout::areas_are_disjoint(prefix, 0, 0, 0, layout::manifest_step(key));
    }
}

/// Without a manifest there is nothing to recover, and that is not an error, not
/// even where a pointer is left that names one.
pub proof fn nothing_committed_recovers_nothing(store: Store, prefix: Seq<char>)
    requires
        stays_home(store, prefix),
        forall|step: u64| !#[trigger] store.contains_key(layout::manifest_name(prefix, step)),
    ensures
        recovered(store, prefix, Seq::empty()) == PhaseView::Done(Ok(None)),
{
    lemma_recovered(store, prefix, Seq::empty());
    if let Some(key) = pointed_to(store, prefix) {
        assert(store.contains_key(layout::manifest_name(prefix, layout::manifest_step(key))));
    }
}

/// A pointer that leads elsewhere is followed: recovery decodes the object that it
/// names, whatever is listed.
pub proof fn a_pointer_that_leads_elsewhere_is_followed(
    store: Store,
    prefix: Seq<char>,
    objects: Seq<MetaView>,
)
    requires
        !stays_home(store, prefix),
    ensures
        recovered(store, prefix, objects) == PhaseView::Decode(
            store[pointed_to(store, prefix)->0],
        ),
{
}

/// What a recovery does with each reply, written out: it looks for the pointer,
/// then for the manifest that the pointer names, lists the manifests where the
/// pointer is missing or leads nowhere or to one of the target's own, and ends with
/// the manifest that was read. What goes wrong ends it, and is told.
pub proof fn a_recovery_follows_the_pointer(
    prefix: Seq<char>,
    key: Seq<char>,
    meta: MetaView,
    raw: Seq<u8>,
    found: ManifestView,
    message: Seq<char>,
    failure: ErrorView,
)
    ensures
        after_head_pointer(Ok(Some(meta))) == PhaseView::GetPointer,
        after_head_pointer(Ok(None)) == PhaseView::List(None),
        after_head_pointer(Err(failure)) == PhaseView::Done(Err(failure)),
        outside::json_text_field(raw, "manifest_key"@) == Some(key) ==> after_get_pointer(Ok(raw))
            == PhaseView::HeadManifest(key),
        outside::json_text_field(raw, "manifest_key"@) is None ==> after_get_pointer(Ok(raw))
            == PhaseView::List(None),
        after_get_pointer(Err(failure)) == PhaseView::Done(Err(failure)),
        key == text::trim(prefix, '/') + "/manifests/step-"@ + text::decimal(
            layout::manifest_step(key) as nat,
        ) + ".json"@ ==> after_head_manifest(prefix, key, Ok(Some(meta))) == PhaseView::List(
            Some(key),
        ),
        key != text::trim(prefix, '/') + "/manifests/step-"@ + text::decimal(
            layout::manifest_step(key) as nat,
        ) + ".json"@ ==> after_head_manifest(prefix, key, Ok(Some(meta)))
            == PhaseView::GetManifest(key),
        after_head_manifest(prefix, key, Ok(None)) == PhaseView::List(None),
        after_head_manifest(prefix, key, Err(failure)) == PhaseView::Done(Err(failure)),
        after_list(Some(key), Err(failure)) == PhaseView::GetManifest(key),
        after_list(None, Err(failure)) == PhaseView::Done(Err(failure)),
        after_list(Some(key), Ok(Seq::empty())) == PhaseView::GetManifest(key),
        after_list(None, Ok(Seq::empty())) == PhaseView::Done(Ok(None)),
        after_get_manifest(Ok(raw)) == PhaseView::Decode(raw),
        after_get_manifest(Err(failure)) == PhaseView::Done(Err(failure)),
        after_decode(Ok(found)) == PhaseView::Done(Ok(Some(found))),
        after_decode(Err(message)) == PhaseView::Done(
            Err(ErrorView::Internal("manifest deserialization: "@ + message)),
        ),
{
}

/// Of the manifests that are listed, and the one that the pointer names where it
/// names one, the one with the largest step is read.
pub proof fn the_largest_listed_step_is_read(
    named: Option<Seq<char>>,
    objects: Seq<MetaView>,
    j: int,
)
    requires
        0 <= j < objects.len(),
    ensures
        ({
            let next = after_list(named, Ok(objects));
            &&& next is GetManifest
            &&& layout::manifest_step(next->GetManifest_0) >= layout::manifest_step(objects[j].key)
            &&& named is Some ==> layout::manifest_step(next->GetManifest_0)
                >= layout::manifest_step(named->0)
            &&& named == Some(next->GetManifest_0) || exists|i: int|
                0 <= i < objects.len() && (#[trigger] objects[i]).key == next->GetManifest_0
            &&& (named is None || layout::manifest_step(named->0) <= layout::manifest_step(
                objects[j].key,
            )) && layout::manifest_step(objects[j].key) == layout::manifest_step(
                next->GetManifest_0,
            ) && (forall|k: int|
                j < k < objects.len() ==> layout::manifest_step((#[trigger] objects[k]).key)
                    < layout::manifest_step(objects[j].key)) ==> next->GetManifest_0
                == objects[j].key
            &&& named is Some && layout::manifest_step(objects[j].key) < layout::manifest_step(
                named->0,
            ) && (forall|k: int|
                0 <= k < objects.len() ==> layout::manifest_step((#[trigger] objects[k]).key)
                    < layout::manifest_step(named->0)) ==> next->GetManifest_0 == named->0
        }),
{
    lemma_newest_exists(objects);
    let at = newest(objects);
    assert(is_newest(objects, at));
    assert(objects[at].key == objects[at].key);
    assert(layout::manifest_step(objects[j].key) <= layout::manifest_step(objects[at].key));
}

/// What was listed or decoded is taken as it came.
pub proof fn listings_are_taken_as_they_came(
    list: Result<Vec<ObjectMeta>, DtrError>,
    decoded: Result<Manifest, String>,
    i: int,
)
    ensures
        list is Ok <==> list_reply(list) is Ok,
        list is Ok ==> list_reply(list)->Ok_0.len() == list->Ok_0@.len(),
        list is Ok && 0 <= i < list->Ok_0@.len() ==> list_reply(list)->Ok_0[i]
            == list->Ok_0@[i]@,
        list is Err ==> list_reply(list) == Err::<Seq<MetaView>, ErrorView>(list->Err_0@),
        match decoded {
            Ok(found) => decode_reply(decoded) == Ok::<ManifestView, Seq<char>>(found@),
            Err(m) => decode_reply(decoded) == Err::<ManifestView, Seq<char>>(m@),
        },
{
}

} // verus!
