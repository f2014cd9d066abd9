//! Vectors as bytes: each component is a single-precision bit pattern,
//! written as four little-endian bytes, one after the other, with no header.

use vstd::bytes::{
    lemma_auto_spec_u32_to_from_le_bytes, spec_u32_from_le_bytes, spec_u32_to_le_bytes,
    u32_from_le_bytes, u32_to_le_bytes,
};
use vstd::prelude::*;
use vstd::slice::slice_subrange;

verus! {

/// The bytes of a vector.
pub open spec fn encode_embedding(v: Seq<u32>) -> Seq<u8>
    decreases v.len(),
{
    if v.len() == 0 {
        Seq::empty()
    } else {
        encode_embedding(v.drop_last()) + spec_u32_to_le_bytes(v.last())
    }
}

/// The vector that bytes hold: one component for each group of four bytes.
/// Bytes that do not fall into groups of four hold no vector, and stand for
/// the empty one.
pub open spec fn decode_embedding(data: Seq<u8>) -> Seq<u32> {
    if data.len() % 4 == 0 {
        Seq::new(data.len() / 4, |i: int| spec_u32_from_le_bytes(data.subrange(4 * i, 4 * i + 4)))
    } else {
        Seq::empty()
    }
}

/// A vector takes four bytes for each component.
pub proof fn lemma_encode_len(v: Seq<u32>)
    ensures
        encode_embedding(v).len() == 4 * v.len(),
    decreases v.len(),
{
    lemma_auto_spec_u32_to_from_le_bytes();
    if v.len() > 0 {
        lemma_encode_len(v.drop_last());
    }
}

/// Component `i` stands in bytes `4 i` to `4 i + 3`.
pub proof fn lemma_encode_chunk(v: Seq<u32>, i: int)
    requires
        0 <= i < v.len(),
    ensures
        encode_embedding(v).len() == 4 * v.len(),
        encode_embedding(v).subrange(4 * i, 4 * i + 4) == spec_u32_to_le_bytes(v[i]),
    decreases v.len(),
{
    lemma_auto_spec_u32_to_from_le_bytes();
    lemma_encode_len(v);
    lemma_encode_len(v.drop_last());
    if i == v.len() - 1 {
        assert(encode_embedding(v).subrange(4 * i, 4 * i + 4) =~= spec_u32_to_le_bytes(v.last()));
    } else {
        lemma_encode_chunk(v.drop_last(), i);
        assert(encode_embedding(v).subrange(4 * i, 4 * i + 4) =~= encode_embedding(
            v.drop_last(),
        ).subrange(4 * i, 4 * i + 4));
    }
}

/// What was written is read back unchanged.
pub proof fn lemma_decode_encode(v: Seq<u32>)
    ensures
        decode_embedding(encode_embedding(v)) == v,
{
    lemma_auto_spec_u32_to_from_le_bytes();
    lemma_encode_len(v);
    let d = decode_embedding(encode_embedding(v));
    assert(d.len() == v.len());
    assert forall|i: int| 0 <= i < v.len() implies d[i] == v[i] by {
        lemma_encode_chunk(v, i);
        assert(d[i] == spec_u32_from_le_bytes(encode_embedding(v).subrange(4 * i, 4 * i + 4)));
        assert(spec_u32_to_le_bytes(v[i]).len() == 4);
    }
    assert(d =~= v);
}

/// Writes a vector as bytes.
pub fn serialize_embedding(embedding: &[u32]) -> (data: Vec<u8>)
    ensures
        data@ == encode_embedding(embedding@),
{
    let mut data: Vec<u8> = Vec::new();
    let n = embedding.len();
    let mut i: usize = 0;
    assert(embedding@.take(0) == Seq::<u32>::empty());
    while i < n
        invariant
            i <= n,
            n == embedding@.len(),
            data@ == encode_embedding(embedding@.take(i as int)),
        decreases n - i,
    {
        let mut four = u32_to_le_bytes(embedding[i]);
        data.append(&mut four);
        assert(embedding@.take(i + 1).drop_last() == embedding@.take(i as int));
        i += 1;
    }
    assert(embedding@.take(n as int) == embedding@);
    data
}

/// Reads a vector from bytes.
pub fn deserialize_embedding(data: &[u8]) -> (v: Vec<u32>)
    ensures
        v@ == decode_embedding(data@),
{
    let mut v: Vec<u32> = Vec::new();
    if data.len() % 4 != 0 {
        return v;
    }
    let n = data.len() / 4;
    let mut i: usize = 0;
    while i < n
        invariant
            i <= n,
            n == data@.len() / 4,
            4 * n <= data@.len() <= usize::MAX,
            v@.len() == i,
            forall|k: int| 0 <= k < i ==> v@[k] == spec_u32_from_le_bytes(#[trigger] data@.subrange(4 * k, 4 * k + 4)),
        decreases n - i,
    {
        let x = u32_from_le_bytes(slice_subrange(data, 4 * i, 4 * i + 4));
        v.push(x);
        i += 1;
    }
    assert(v@ =~= decode_embedding(data@));
    v
}

} // verus!
