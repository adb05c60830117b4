//! Everything that is taken from outside crates without proof.
//!
//! Each item here states what the outside code does; the rest of the library
//! is verified against these statements.

use crate::text;
use sha2::Digest;
use vstd::prelude::*;

verus! {

/// The longest span that a `std::time::Duration` can hold, in nanoseconds.
pub const MAX_NANOS: u128 = 18446744073709551615999999999;

/// `bytes::Bytes`, a cheaply cloned buffer of bytes; see [`contents`].
#[verifier::external_type_specification]
#[verifier::external_body]
pub struct ExBytes(bytes::Bytes);

/// The bytes that a `bytes::Bytes` holds.
pub uninterp spec fn contents(b: bytes::Bytes) -> Seq<u8>;

/// `bytes::Bytes::len`: how many bytes the buffer holds.
#[verifier::external_body]
pub(crate) fn bytes_len(b: &bytes::Bytes) -> (out: usize)
    ensures
        out == contents(*b).len(),
{
    b.len()
}

/// `bytes::Bytes::slice`: the bytes from `from` up to, without, `to`. The call
/// panics unless `from <= to <= len`.
#[verifier::external_body]
pub(crate) fn bytes_slice(b: &bytes::Bytes, from: usize, to: usize) -> (out: bytes::Bytes)
    requires
        from <= to <= contents(*b).len(),
    ensures
        contents(out) == contents(*b).subrange(from as int, to as int),
{
    b.slice(from..to)
}

/// `<bytes::Bytes as Clone>::clone`: another handle to the same bytes.
#[verifier::external_body]
pub(crate) fn bytes_clone(b: &bytes::Bytes) -> (out: bytes::Bytes)
    ensures
        contents(out) == contents(*b),
{
    b.clone()
}

/// `<bytes::Bytes as From<Vec<u8>>>::from`: a buffer that holds the bytes of
/// the vector.
#[verifier::external_body]
pub(crate) fn bytes_from_vec(v: Vec<u8>) -> (out: bytes::Bytes)
    ensures
        contents(out) == v@,
{
    bytes::Bytes::from(v)
}

/// `<bytes::Bytes as Deref>::deref`: the held bytes as a slice.
#[verifier::external_body]
pub(crate) fn bytes_as_slice(b: &bytes::Bytes) -> (out: &[u8])
    ensures
        out@ == contents(*b),
{
    &b[..]
}

/// The SHA-256 digest of `data`.
pub uninterp spec fn sha256(data: Seq<u8>) -> Seq<u8>;

/// `sha2::Sha256::digest`: the digest of the whole slice, 32 bytes.
#[verifier::external_body]
pub(crate) fn sha256_digest(data: &[u8]) -> (out: Vec<u8>)
    ensures
        out@ == sha256(data@),
        out@.len() == 32,
{
    sha2::Sha256::digest(data).to_vec()
}

/// `hex::encode`: two lowercase hexadecimal digits for every byte, in order.
#[verifier::external_body]
pub(crate) fn hex_encode(data: &[u8]) -> (out: String)
    ensures
        out@ == text::hex_bytes(data@),
{
    hex::encode(data)
}

/// `tokio::time::Instant`, a reading of the monotonic clock.
#[verifier::external_type_specification]
#[verifier::external_body]
pub struct ExInstant(tokio::time::Instant);

/// `tokio::time::Instant::now`: the current reading. Nothing is claimed of it.
#[verifier::external_body]
pub(crate) fn instant_now() -> (out: tokio::time::Instant) {
    tokio::time::Instant::now()
}

/// `tokio::time::Instant::elapsed`: the time since `origin`, zero if `origin`
/// lies ahead, here in nanoseconds. A `Duration` bounds it; what it is depends
/// on the clock.
#[verifier::external_body]
pub(crate) fn nanos_since(origin: &tokio::time::Instant) -> (out: u128)
    ensures
        out <= MAX_NANOS,
{
    origin.elapsed().as_nanos()
}

/// The shape of a random UUID in its hyphenated form.
pub open spec fn is_uuid_v4(s: Seq<char>) -> bool {
    &&& s.len() == 36
    &&& forall|i: int|
        0 <= i < 36 ==> if i == 8 || i == 13 || i == 18 || i == 23 {
            #[trigger] s[i] == '-'
        } else {
            exists|d: nat| d < 16 && s[i] == #[trigger] text::hex_digit(d)
        }
    &&& s[14] == '4'
}

/// `uuid::Uuid::new_v4`, rendered by its `Display`: five groups of lowercase
/// hexadecimal digits joined by hyphens, the third group starting with the
/// version number 4. The other digits are random, so nothing is claimed of
/// them.
#[verifier::external_body]
pub(crate) fn random_uuid() -> (out: String)
    ensures
        is_uuid_v4(out@),
{
    uuid::Uuid::new_v4().to_string()
}

/// `chrono::Utc::now`, rendered by `to_rfc3339`: a date and time that ends in
/// the zero offset of UTC. The rest depends on the wall clock.
#[verifier::external_body]
pub(crate) fn utc_now_rfc3339() -> (out: String)
    ensures
        text::ends_with(out@, "+00:00"@),
{
    chrono::Utc::now().to_rfc3339()
}

/// The text under `field` in the JSON object that `raw` encodes; `None` when
/// `raw` is no JSON, no object, lacks the field, or holds no text under it.
pub uninterp spec fn json_text_field(raw: Seq<u8>, field: Seq<char>) -> Option<Seq<char>>;

/// `serde_json::from_slice` into a `serde_json::Value`, then
/// `serde_json::Value::get` and `serde_json::Value::as_str`: the text under one
/// field of a JSON object. The result is named by [`json_text_field`].
#[verifier::external_body]
pub(crate) fn json_read_text(raw: &[u8], field: &str) -> (out: Option<String>)
    ensures
        match out {
            Some(value) => json_text_field(raw@, field@) == Some(value@),
            None => json_text_field(raw@, field@) is None,
        },
{
    match serde_json::from_slice::<serde_json::Value>(raw) {
        Ok(value) => value.get(field).and_then(serde_json::Value::as_str).map(str::to_owned),
        Err(_) => None,
    }
}

/// The JSON text of an object with one number and two texts in it.
pub uninterp spec fn json_object(
    number_field: Seq<char>,
    number: u64,
    first_field: Seq<char>,
    first: Seq<char>,
    second_field: Seq<char>,
    second: Seq<char>,
) -> Seq<u8>;

/// The name does not begin with a dollar sign. `serde_json` keeps such names for
/// itself: an object that holds one may be read back as something else.
pub open spec fn plain_name(field: Seq<char>) -> bool {
    field.len() > 0 && field[0] != '$'
}

/// `serde_json::to_vec` of a `serde_json::Value::Object` with three fields of
/// different plain names. Writing an object of numbers and texts into memory
/// always succeeds. The result is named by [`json_object`]; each of the two
/// texts is found again by [`json_text_field`] under its field.
#[verifier::external_body]
pub(crate) fn json_write_object(
    number_field: &str,
    number: u64,
    first_field: &str,
    first: &str,
    second_field: &str,
    second: &str,
) -> (out: Result<Vec<u8>, String>)
    requires
        plain_name(number_field@),
        plain_name(first_field@),
        plain_name(second_field@),
        number_field@ != first_field@,
        number_field@ != second_field@,
        first_field@ != second_field@,
    ensures
        out is Ok,
        out->Ok_0@ == json_object(
            number_field@,
            number,
            first_field@,
            first@,
            second_field@,
            second@,
        ),
        json_text_field(out->Ok_0@, first_field@) == Some(first@),
        json_text_field(out->Ok_0@, second_field@) == Some(second@),
{
    let mut fields = serde_json::Map::new();
    fields.insert(number_field.to_owned(), serde_json::Value::from(number));
    fields.insert(first_field.to_owned(), serde_json::Value::from(first));
    fields.insert(second_field.to_owned(), serde_json::Value::from(second));
    serde_json::to_vec(&serde_json::Value::Object(fields)).map_err(|e| e.to_string())
}

} // verus!
