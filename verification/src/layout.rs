//! Key helpers: the single source of truth for the on-store layout.
//!
//! ```text
//! <prefix>/
//! ├─ tmp/ckpt-step-<N>/rank-<r>.part-<i>     uploads in flight
//! ├─ manifests/step-<N>.json                 committed manifests
//! └─ latest.json                             pointer to newest manifest
//! ```

use crate::text;
use vstd::prelude::*;

verus! {

/// Where the uploads of a target are.
pub open spec fn tmp_root_name(target_prefix: Seq<char>) -> Seq<char> {
    text::trim(target_prefix, '/') + "/tmp"@
}

/// Where the uploads for one step are.
pub open spec fn tmp_name(target_prefix: Seq<char>, step: u64) -> Seq<char> {
    text::trim(target_prefix, '/') + "/tmp/ckpt-step-"@ + text::decimal(step as nat)
}

/// Where one chunk is.
pub open spec fn chunk_name(target_prefix: Seq<char>, step: u64, rank: u32, part: u32) -> Seq<
    char,
> {
    tmp_name(target_prefix, step) + "/rank-"@ + text::decimal(rank as nat) + ".part-"@
        + text::padded(part as nat, 4)
}

/// Where the manifests of a target are.
pub open spec fn manifests_name(target_prefix: Seq<char>) -> Seq<char> {
    text::trim(target_prefix, '/') + "/manifests"@
}

/// Where the manifest of one step is.
pub open spec fn manifest_name(target_prefix: Seq<char>, step: u64) -> Seq<char> {
    text::trim(target_prefix, '/') + "/manifests/step-"@ + text::decimal(step as nat) + ".json"@
}

/// Where the pointer to the newest manifest is.
pub open spec fn latest_name(target_prefix: Seq<char>) -> Seq<char> {
    text::trim(target_prefix, '/') + "/latest.json"@
}

/// The step that a key in the manifests area names: what stands behind the last
/// "step-", without the ".json" at its end. Other keys count as step zero.
pub open spec fn manifest_step(key: Seq<char>) -> u64 {
    match text::parse_u64(text::strip_suffixes(text::after_last(key, "step-"@), ".json"@)) {
        Some(step) => step,
        None => 0,
    }
}

/// What the keys in a target's upload area start with, up to the step.
pub open spec fn step_area(target_prefix: Seq<char>) -> Seq<char> {
    tmp_root_name(target_prefix) + "/ckpt-step-"@
}

/// The step that a key in a target's upload area belongs to: what stands behind
/// the area's own "ckpt-step-", up to the next slash. Stores drop empty path
/// segments, so these do not count.
pub open spec fn tmp_step(target_prefix: Seq<char>, key: Seq<char>) -> Option<u64> {
    let area = text::compact(step_area(target_prefix));
    let path = text::compact(key);
    if text::starts_with(path, area) {
        text::parse_u64(text::before_first(path.skip(area.len() as int), "/"@))
    } else {
        None
    }
}

/// Where the uploads of a target are.
pub fn tmp_root(target_prefix: &str) -> (out: String)
    ensures
        out@ == tmp_root_name(target_prefix@),
{
    text::join2(text::trim_matches(target_prefix, '/').as_str(), "/tmp")
}

/// Where the uploads for one step are.
pub fn tmp_prefix(target_prefix: &str, step: u64) -> (out: String)
    ensures
        out@ == tmp_name(target_prefix@, step),
{
    text::join3(
        text::trim_matches(target_prefix, '/').as_str(),
        "/tmp/ckpt-step-",
        text::decimal_string(step).as_str(),
    )
}

/// Where one chunk is.
pub fn chunk_key(target_prefix: &str, step: u64, rank: u32, part: u32) -> (out: String)
    ensures
        out@ == chunk_name(target_prefix@, step, rank, part),
{
    let mut out: String = tmp_prefix(target_prefix, step);
    out.append("/rank-");
    out.append(text::decimal_string(rank as u64).as_str());
    out.append(".part-");
    out.append(text::padded_string(part).as_str());
    out
}

/// Where the manifests of a target are.
pub fn manifests_prefix(target_prefix: &str) -> (out: String)
    ensures
        out@ == manifests_name(target_prefix@),
{
    text::join2(text::trim_matches(target_prefix, '/').as_str(), "/manifests")
}

/// Where the manifest of one step is.
pub fn manifest_key(target_prefix: &str, step: u64) -> (out: String)
    ensures
        out@ == manifest_name(target_prefix@, step),
{
    let mut out: String = text::trim_matches(target_prefix, '/');
    out.append("/manifests/step-");
    out.append(text::decimal_string(step).as_str());
    out.append(".json");
    out
}

/// Where the pointer to the newest manifest is.
pub fn latest_key(target_prefix: &str) -> (out: String)
    ensures
        out@ == latest_name(target_prefix@),
{
    text::join2(text::trim_matches(target_prefix, '/').as_str(), "/latest.json")
}

/// The step that a key in the manifests area names, zero if it names none.
pub fn manifest_step_of(key: &str) -> (out: u64)
    ensures
        out == manifest_step(key@),
{
    let chars: Vec<char> = text::chars_of(key);
    let word: Vec<char> = text::chars_of("step-");
    let end: usize = chars.len();
    let name: Vec<char> = match text::rfind(&chars, &word) {
        Some(at) => text::part(&chars, at + word.len(), end),
        None => text::part(&chars, 0, end),
    };
    assert(name@ =~= text::after_last(key@, "step-"@));
    match text::parse_number(&text::without_suffixes(name, &text::chars_of(".json"))) {
        Some(step) => step,
        None => 0,
    }
}

/// The step that a key in a target's upload area belongs to, if any.
pub fn tmp_step_of(target_prefix: &str, key: &str) -> (out: Option<u64>)
    ensures
        out == tmp_step(target_prefix@, key@),
{
    let root: String = tmp_root(target_prefix);
    let area: Vec<char> = text::compacted(
        &text::chars_of(text::join2(root.as_str(), "/ckpt-step-").as_str()),
    );
    let path: Vec<char> = text::compacted(&text::chars_of(key));
    if area.len() <= path.len() && text::matches_at(&path, &area, 0) {
        let end: usize = path.len();
        let rest: Vec<char> = text::part(&path, area.len(), end);
        assert(rest@ =~= path@.skip(area@.len() as int));
        text::parse_number(&text::up_to(&rest, &text::chars_of("/")))
    } else {
        None
    }
}

/// A manifest key names its step, whatever the prefix holds.
pub proof fn manifest_key_names_its_step(target_prefix: Seq<char>, step: u64)
    ensures
        manifest_step(manifest_name(target_prefix, step)) == step,
{
    reveal_strlit("/manifests/step-");
    reveal_strlit("step-");
    reveal_strlit(".json");
    let start = text::trim(target_prefix, '/');
    let number = text::decimal(step as nat);
    let key = manifest_name(target_prefix, step);
    let pat = "step-"@;
    let at: int = start.len() + 11int;
    text::lemma_decimal_digits(step as nat);
    text::decimal_round_trip(step);
    assert(key.subrange(at, at + 5) =~= pat);
    assert(text::occurs_at(key, pat, at));
    assert forall|j: int| at < j implies !text::occurs_at(key, pat, j) by {
        if text::occurs_at(key, pat, j) {
            assert(key.subrange(j, j + 5)[0] == 's' && key.subrange(j, j + 5)[1] == 't');
            assert(key[j] == 's' && key[j + 1] == 't');
            if j >= at + 5 && j < at + 5 + number.len() {
                assert(key[j] == number[j - at - 5]);
            }
        }
    }
    text::lemma_rfind_from(key, pat, key.len() - pat.len());
    let name = text::after_last(key, pat);
    assert(name =~= number + ".json"@);
    assert(name.subrange(name.len() - 5, name.len() as int) =~= ".json"@);
    assert(name.take(name.len() - 5) =~= number);
    assert(!text::ends_with(number, ".json"@)) by {
        if text::ends_with(number, ".json"@) {
            let tail = number.subrange(number.len() - 5, number.len() as int);
            assert(tail[0] == '.');
            assert(text::is_digit(number[number.len() - 5]));
        }
    }
    assert(text::strip_suffixes(number, ".json"@) == number);
    assert(text::strip_suffixes(name, ".json"@) == number);
}

/// Different steps have different manifests.
pub proof fn manifest_keys_are_distinct(target_prefix: Seq<char>, one: u64, other: u64)
    requires
        manifest_name(target_prefix, one) == manifest_name(target_prefix, other),
    ensures
        one == other,
{
    manifest_key_names_its_step(target_prefix, one);
    manifest_key_names_its_step(target_prefix, other);
}

/// A chunk key tells its step, whatever the prefix holds, also where the store
/// has dropped empty segments from it.
pub proof fn chunk_key_tells_its_step(target_prefix: Seq<char>, step: u64, rank: u32, part: u32)
    ensures
        tmp_step(target_prefix, chunk_name(target_prefix, step, rank, part)) == Some(step),
        tmp_step(target_prefix, text::compact(chunk_name(target_prefix, step, rank, part)))
            == Some(step),
{
    reveal_strlit("/tmp");
    reveal_strlit("/ckpt-step-");
    reveal_strlit("/tmp/ckpt-step-");
    reveal_strlit("/rank-");
    reveal_strlit(".part-");
    reveal_strlit("/");
    let number = text::decimal(step as nat);
    let whose = text::decimal(rank as nat);
    let which = text::padded(part as nat, 4);
    let key = chunk_name(target_prefix, step, rank, part);
    let area = text::compact(step_area(target_prefix));
    let tail = "/rank-"@ + whose + ".part-"@ + which;
    let rest = number + tail;
    text::lemma_decimal_digits(step as nat);
    text::lemma_decimal_digits(rank as nat);
    text::lemma_padded_digits(part as nat, 4);
    text::decimal_round_trip(step);
    assert("/tmp"@ + "/ckpt-step-"@ =~= "/tmp/ckpt-step-"@);
    assert(key =~= step_area(target_prefix) + rest);
    assert forall|j: int| 0 <= j < rest.len() && #[trigger] rest[j] == '/' implies j > 0 && rest[j
        - 1] != '/' by {
        if j < number.len() {
            assert(rest[j] == number[j]);
        } else {
            let k = j - number.len();
            assert(rest[j] == tail[k]);
            if k >= 6 && k < 6 + whose.len() {
                assert(tail[k] == whose[k - 6]);
            } else if k >= 6 + whose.len() + 6 {
                assert(tail[k] == which[k - 12 - whose.len()]);
            }
            assert(k == 0);
            assert(rest[j - 1] == number[j - 1]);
        }
    }
    text::lemma_compact_append(step_area(target_prefix), rest);
    text::lemma_compact(key);
    let path = text::compact(key);
    assert(path == area + rest);
    assert(path.subrange(0, area.len() as int) =~= area);
    assert(path.skip(area.len() as int) =~= rest);
    assert(rest.subrange(number.len() as int, number.len() + 1int) =~= "/"@);
    assert forall|j: int| 0 <= j < number.len() implies !text::occurs_at(rest, "/"@, j) by {
        assert(rest[j] == number[j]);
        if text::occurs_at(rest, "/"@, j) {
            assert(rest.subrange(j, j + 1)[0] == '/');
        }
    }
    text::lemma_find_from_is(rest, "/"@, 0, number.len() as int);
    assert(text::before_first(rest, "/"@) =~= number);
}

/// A step's area holds the chunks of that step and of no other.
pub proof fn steps_keep_to_their_areas(
    target_prefix: Seq<char>,
    step: u64,
    other: u64,
    rank: u32,
    part: u32,
)
    ensures
        text::starts_with(
            chunk_name(target_prefix, step, rank, part),
            tmp_name(target_prefix, other) + "/"@,
        ) <==> step == other,
{
    reveal_strlit("/tmp/ckpt-step-");
    reveal_strlit("/rank-");
    reveal_strlit("/");
    let start = text::trim(target_prefix, '/') + "/tmp/ckpt-step-"@;
    let key = chunk_name(target_prefix, step, rank, part);
    let area = tmp_name(target_prefix, other) + "/"@;
    let number = text::decimal(step as nat);
    let wanted = text::decimal(other as nat);
    let rest = "/rank-"@ + text::decimal(rank as nat) + ".part-"@ + text::padded(part as nat, 4);
    text::lemma_decimal_digits(step as nat);
    text::lemma_decimal_digits(other as nat);
    assert(key =~= start + (number + rest));
    assert(area =~= start + (wanted + "/"@));
    if step == other {
        assert(key.subrange(0, area.len() as int) =~= area);
    }
    if text::starts_with(key, area) {
        let seen = key.subrange(0, area.len() as int);
        assert(seen.skip(start.len() as int) =~= wanted + "/"@);
        let behind = key.skip(area.len() as int);
        assert(number + rest =~= wanted + ("/"@ + behind)) by {
            assert(key =~= seen + behind);
            assert(key.skip(start.len() as int) =~= number + rest);
            assert((seen + behind).skip(start.len() as int) =~= seen.skip(start.len() as int)
                + behind);
            assert((wanted + "/"@) + behind =~= wanted + ("/"@ + behind));
        }
        text::lemma_digits_end(number, rest, wanted, "/"@ + behind);
        text::decimal_injective(step as nat, other as nat);
    }
}

/// No two chunks of a target share a key.
pub proof fn chunk_keys_are_distinct(
    target_prefix: Seq<char>,
    one: (u64, u32, u32),
    other: (u64, u32, u32),
)
    requires
        chunk_name(target_prefix, one.0, one.1, one.2) == chunk_name(
            target_prefix,
            other.0,
            other.1,
            other.2,
        ),
    ensures
        one == other,
{
    reveal_strlit("/tmp/ckpt-step-");
    reveal_strlit("/rank-");
    reveal_strlit(".part-");
    let start = text::trim(target_prefix, '/') + "/tmp/ckpt-step-"@;
    let a = text::decimal(one.0 as nat);
    let b = text::decimal(other.0 as nat);
    let ra = text::decimal(one.1 as nat);
    let rb = text::decimal(other.1 as nat);
    let pa = text::padded(one.2 as nat, 4);
    let pb = text::padded(other.2 as nat, 4);
    text::lemma_decimal_digits(one.0 as nat);
    text::lemma_decimal_digits(other.0 as nat);
    text::lemma_decimal_digits(one.1 as nat);
    text::lemma_decimal_digits(other.1 as nat);
    text::lemma_padded_digits(one.2 as nat, 4);
    text::lemma_padded_digits(other.2 as nat, 4);
    let ta = "/rank-"@ + (ra + (".part-"@ + pa));
    let tb = "/rank-"@ + (rb + (".part-"@ + pb));
    let ka = chunk_name(target_prefix, one.0, one.1, one.2);
    let kb = chunk_name(target_prefix, other.0, other.1, other.2);
    assert(ka =~= start + (a + ta));
    assert(kb =~= start + (b + tb));
    assert(ka.skip(start.len() as int) =~= a + ta);
    assert(kb.skip(start.len() as int) =~= b + tb);
    text::lemma_digits_end(a, ta, b, tb);
    assert(ta.skip(6) =~= ra + (".part-"@ + pa));
    assert(tb.skip(6) =~= rb + (".part-"@ + pb));
    text::lemma_digits_end(ra, ".part-"@ + pa, rb, ".part-"@ + pb);
    assert((".part-"@ + pa).skip(6) =~= pa);
    assert((".part-"@ + pb).skip(6) =~= pb);
}

/// Chunks, manifests and the pointer of a target never share a key.
pub proof fn areas_are_disjoint(
    target_prefix: Seq<char>,
    step: u64,
    rank: u32,
    part: u32,
    committed: u64,
)
    ensures
        chunk_name(target_prefix, step, rank, part) != manifest_name(target_prefix, committed),
        chunk_name(target_prefix, step, rank, part) != latest_name(target_prefix),
        manifest_name(target_prefix, committed) != latest_name(target_prefix),
{
    reveal_strlit("/tmp/ckpt-step-");
    reveal_strlit("/manifests/step-");
    reveal_strlit("/latest.json");
    let at: int = text::trim(target_prefix, '/').len() + 1int;
    assert(chunk_name(target_prefix, step, rank, part)[at] == 't');
    assert(manifest_name(target_prefix, committed)[at] == 'm');
    assert(latest_name(target_prefix)[at] == 'l');
}

/// The keys of a target, written out: everything lies below its prefix without
/// slashes around it, chunks below the step and by rank and part, manifests by
/// step, and the pointer beside them.
pub proof fn keys_are_laid_out_by_step(target_prefix: Seq<char>, step: u64, rank: u32, part: u32)
    ensures
        ({
            let root = text::trim(target_prefix, '/');
            let number = text::decimal(step as nat);
            &&& tmp_root_name(target_prefix) == root + "/tmp"@
            &&& tmp_name(target_prefix, step) == root + "/tmp/ckpt-step-"@ + number
            &&& chunk_name(target_prefix, step, rank, part) == root + "/tmp/ckpt-step-"@ + number
                + "/rank-"@ + text::decimal(rank as nat) + ".part-"@ + text::padded(part as nat, 4)
            &&& manifests_name(target_prefix) == root + "/manifests"@
            &&& manifest_name(target_prefix, step) == root + "/manifests/step-"@ + number
                + ".json"@
            &&& latest_name(target_prefix) == root + "/latest.json"@
        }),
{
}

/// A key outside of a target's upload area belongs to none of its steps, and one
/// inside to the number that stands between the area's name and the next slash.
pub proof fn upload_keys_name_their_step(
    target_prefix: Seq<char>,
    key: Seq<char>,
    number: Seq<char>,
    rest: Seq<char>,
)
    ensures
        ({
            let area = text::compact(
                text::trim(target_prefix, '/') + "/tmp"@ + "/ckpt-step-"@,
            );
            let path = text::compact(key);
            &&& !(path.len() >= area.len() && path.subrange(0, area.len() as int) == area)
                ==> tmp_step(target_prefix, key) is None
            &&& path == area + number + "/"@ + rest && (forall|i: int|
                0 <= i < number.len() ==> #[trigger] number[i] != '/') ==> tmp_step(
                target_prefix,
                key,
            ) == text::parse_u64(number)
        }),
{
    reveal_strlit("/");
    let area = text::compact(text::trim(target_prefix, '/') + "/tmp"@ + "/ckpt-step-"@);
    let path = text::compact(key);
    assert(area == text::compact(step_area(target_prefix)));
    if path == area + number + "/"@ + rest && (forall|i: int|
        0 <= i < number.len() ==> #[trigger] number[i] != '/') {
        assert(path.subrange(0, area.len() as int) =~= area);
        let behind = path.skip(area.len() as int);
        assert(behind =~= number + "/"@ + rest);
        assert(behind.subrange(number.len() as int, number.len() + 1int) =~= "/"@);
        assert forall|j: int| 0 <= j < number.len() implies !text::occurs_at(behind, "/"@, j) by {
            assert(behind[j] == number[j]);
            if text::occurs_at(behind, "/"@, j) {
                assert(behind.subrange(j, j + 1)[0] == '/');
            }
        }
        text::lemma_find_from_is(behind, "/"@, 0, number.len() as int);
        assert(text::before_first(behind, "/"@) =~= number);
    }
}

/// A key in the manifests area names the number behind its last "step-", without
/// the ".json" at its end, and counts as step zero where that is no number.
pub proof fn manifest_keys_are_read_from_their_end(key: Seq<char>)
    ensures
        ({
            let name = text::strip_suffixes(text::after_last(key, "step-"@), ".json"@);
            &&& text::parse_u64(name) is Some ==> manifest_step(key) == text::parse_u64(name)->0
            &&& text::parse_u64(name) is None ==> manifest_step(key) == 0
        }),
{
}

} // verus!
