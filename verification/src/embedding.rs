//! The stored form of an embedding vector.
//!
//! An embedding is a vector of 32-bit floats. The library handles each float
//! by its IEEE-754 bit pattern (`f32::to_bits`), and the database stores the
//! vector as the concatenation of their little-endian bytes, which is what
//! `f32::to_le_bytes` writes for each float.
use vstd::bytes::{
    lemma_auto_spec_u32_to_from_le_bytes, spec_u32_from_le_bytes, spec_u32_to_le_bytes,
    u32_from_le_bytes, u32_to_le_bytes,
};
use vstd::prelude::*;
use vstd::slice::slice_subrange;

verus! {

/// The bytes stored for an embedding: four little-endian bytes per component.
pub open spec fn embedding_blob(bits: Seq<u32>) -> Seq<u8>
    decreases bits.len(),
{
    if bits.len() == 0 {
        seq![]
    } else {
        embedding_blob(bits.drop_last()) + spec_u32_to_le_bytes(bits.last())
    }
}

/// The embedding read back from stored bytes: one component for each whole
/// group of four bytes; trailing bytes that do not make a group are ignored.
pub open spec fn embedding_of_blob(blob: Seq<u8>) -> Seq<u32> {
    Seq::new(blob.len() / 4, |i: int| spec_u32_from_le_bytes(blob.subrange(4 * i, 4 * i + 4)))
}

/// The stored bytes are four per component, in order, each component as
/// its four little-endian bytes (`u32::to_le_bytes`).
pub proof fn lemma_blob_shape(bits: Seq<u32>)
    ensures
        embedding_blob(bits).len() == 4 * bits.len(),
        forall|i: int|
            0 <= i < bits.len() ==> #[trigger] embedding_blob(bits).subrange(4 * i, 4 * i + 4)
                == spec_u32_to_le_bytes(bits[i]),
    decreases bits.len(),
{
    lemma_auto_spec_u32_to_from_le_bytes();
    if bits.len() > 0 {
        let init = bits.drop_last();
        lemma_blob_shape(init);
        let blob = embedding_blob(bits);
        assert forall|i: int| 0 <= i < bits.len() implies #[trigger] blob.subrange(
            4 * i,
            4 * i + 4,
        ) == spec_u32_to_le_bytes(bits[i]) by {
            if i < init.len() {
                assert(blob.subrange(4 * i, 4 * i + 4) =~= embedding_blob(init).subrange(
                    4 * i,
                    4 * i + 4,
                ));
            } else {
                assert(blob.subrange(4 * i, 4 * i + 4) =~= spec_u32_to_le_bytes(bits.last()));
            }
        }
    }
}

/// Reading back what was stored gives the embedding that was stored.
pub proof fn lemma_embedding_round_trip(bits: Seq<u32>)
    ensures
        embedding_of_blob(embedding_blob(bits)) == bits,
        embedding_blob(bits).len() == 4 * bits.len(),
{
    lemma_blob_shape(bits);
    lemma_auto_spec_u32_to_from_le_bytes();
    let back = embedding_of_blob(embedding_blob(bits));
    assert forall|i: int| 0 <= i < bits.len() implies back[i] == bits[i] by {
        assert(embedding_blob(bits).subrange(4 * i, 4 * i + 4) == spec_u32_to_le_bytes(bits[i]));
    }
    assert(back =~= bits);
}

/// The bytes to store for an embedding given by the bit patterns of its
/// components.
pub fn embedding_to_blob(bits: &Vec<u32>) -> (blob: Vec<u8>)
    ensures
        blob@ == embedding_blob(bits@),
{
    let mut blob: Vec<u8> = Vec::new();
    let mut i: usize = 0;
    while i < bits.len()
        invariant
            i <= bits.len(),
            blob@ == embedding_blob(bits@.take(i as int)),
        decreases bits.len() - i,
    {
        let mut bytes = u32_to_le_bytes(bits[i]);
        assert(bits@.take(i + 1).drop_last() =~= bits@.take(i as int));
        blob.append(&mut bytes);
        i = i + 1;
    }
    assert(bits@.take(bits.len() as int) =~= bits@);
    blob
}

/// The bit patterns of the components of a stored embedding.
pub fn embedding_from_blob(blob: &Vec<u8>) -> (bits: Vec<u32>)
    ensures
        bits@ == embedding_of_blob(blob@),
{
    let count = blob.len() / 4;
    let mut bits: Vec<u32> = Vec::new();
    let mut i: usize = 0;
    while i < count
        invariant
            count == blob.len() / 4,
            i <= count,
            bits@ =~= embedding_of_blob(blob@).take(i as int),
        decreases count - i,
    {
        let chunk = slice_subrange(blob.as_slice(), 4 * i, 4 * i + 4);
        let value = u32_from_le_bytes(chunk);
        bits.push(value);
        i = i + 1;
    }
    bits
}

} // verus!
