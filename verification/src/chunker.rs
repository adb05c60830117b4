//! Split a state blob into fixed-size chunks for parallel upload.

use crate::outside;
use bytes::Bytes;
use vstd::prelude::*;

verus! {

/// `data` cut into pieces of `size` bytes; the last piece may be shorter.
pub open spec fn pieces(data: Seq<u8>, size: nat) -> Seq<Seq<u8>>
    decreases data.len(),
{
    if data.len() == 0 || size == 0 {
        Seq::empty()
    } else if data.len() <= size {
        seq![data]
    } else {
        seq![data.take(size as int)] + pieces(data.skip(size as int), size)
    }
}

/// The piece size that a request means; zero means one.
pub open spec fn piece_size(chunk_bytes: u64) -> nat {
    if chunk_bytes == 0 {
        1
    } else {
        chunk_bytes as nat
    }
}

/// What the buffers hold.
pub open spec fn held(chunks: Seq<Bytes>) -> Seq<Seq<u8>> {
    chunks.map_values(|b: Bytes| outside::contents(b))
}

/// Split `data` into chunks of `chunk_bytes` (last chunk may be shorter).
/// Zero-copy: each chunk is a ref-counted slice of the input.
pub fn split(data: Bytes, chunk_bytes: u64) -> (out: Vec<Bytes>)
    ensures
        held(out@) == pieces(outside::contents(data), piece_size(chunk_bytes)),
{
    let ghost all = outside::contents(data);
    let ghost size = piece_size(chunk_bytes);
    let wanted: u64 = if chunk_bytes == 0 {
        1
    } else {
        chunk_bytes
    };
    let len: usize = outside::bytes_len(&data);
    let mut chunks: Vec<Bytes> = Vec::new();
    let mut offset: usize = 0;
    assert(all.skip(0) =~= all);
    assert(held(chunks@) + pieces(all, size) =~= pieces(all, size));
    while offset < len
        invariant
            offset <= len,
            len == all.len(),
            all == outside::contents(data),
            size == piece_size(chunk_bytes),
            size == wanted,
            size > 0,
            held(chunks@) + pieces(all.skip(offset as int), size) == pieces(all, size),
        decreases len - offset,
    {
        let end: usize = if (len - offset) as u64 > wanted {
            offset + wanted as usize
        } else {
            len
        };
        let ghost rest = all.skip(offset as int);
        let ghost before = held(chunks@);
        let chunk: Bytes = outside::bytes_slice(&data, offset, end);
        chunks.push(chunk);
        proof {
            assert(held(chunks@) =~= before.push(outside::contents(chunk)));
            if rest.len() > size {
                assert(rest.take(size as int) =~= outside::contents(chunk));
                assert(rest.skip(size as int) =~= all.skip(end as int));
            } else {
                assert(rest =~= outside::contents(chunk));
                assert(pieces(all.skip(end as int), size) =~= Seq::<Seq<u8>>::empty());
            }
            assert(held(chunks@) + pieces(all.skip(end as int), size) =~= before + pieces(
                rest,
                size,
            ));
        }
        offset = end;
    }
    assert(held(chunks@) + pieces(all.skip(offset as int), size) =~= held(chunks@));
    chunks
}

/// Putting the pieces together again gives the data.
pub proof fn pieces_reassemble(data: Seq<u8>, size: nat)
    requires
        size > 0,
    ensures
        pieces(data, size).flatten() == data,
    decreases data.len(),
{
    let all = pieces(data, size);
    if data.len() == 0 {
        assert(all.flatten() =~= data);
    } else if data.len() <= size {
        assert(all.drop_first() =~= Seq::<Seq<u8>>::empty());
        assert(all.drop_first().flatten() =~= Seq::<u8>::empty());
        assert(all.flatten() =~= data);
    } else {
        pieces_reassemble(data.skip(size as int), size);
        assert(all.drop_first() =~= pieces(data.skip(size as int), size));
        assert(all.flatten() =~= data.take(size as int) + data.skip(size as int));
        assert(data.take(size as int) + data.skip(size as int) =~= data);
    }
}

/// Every piece has the full size but the last, which is no longer and not empty.
pub proof fn pieces_are_full(data: Seq<u8>, size: nat, i: int)
    requires
        size > 0,
        0 <= i < pieces(data, size).len(),
    ensures
        i + 1 < pieces(data, size).len() ==> pieces(data, size)[i].len() == size,
        0 < pieces(data, size)[i].len() <= size,
    decreases data.len(),
{
    if data.len() > size {
        let rest = pieces(data.skip(size as int), size);
        assert(pieces(data, size) =~= seq![data.take(size as int)] + rest);
        if i > 0 {
            pieces_are_full(data.skip(size as int), size, i - 1);
        }
    }
}

/// Only empty data yields no pieces.
pub proof fn only_empty_data_has_no_pieces(data: Seq<u8>, size: nat)
    requires
        size > 0,
    ensures
        pieces(data, size).len() == 0 <==> data.len() == 0,
{
}

/// A piece size of zero means one, every other one itself, and buffers are seen with
/// what they hold.
pub proof fn no_piece_size_means_one(chunk_bytes: u64, chunks: Seq<Bytes>, i: int)
    ensures
        chunk_bytes == 0 ==> piece_size(chunk_bytes) == 1,
        chunk_bytes > 0 ==> piece_size(chunk_bytes) == chunk_bytes,
        held(chunks).len() == chunks.len(),
        0 <= i < chunks.len() ==> held(chunks)[i] == outside::contents(chunks[i]),
{
}

} // verus!
