//! The receiver side of the typed payload channel: reading the payload
//! bits a digest carries at the canonical bit positions.

use vstd::prelude::*;

verus! {

/// Bit `bit_index` of a digest under the affine-parity convention: bit
/// `bit_index % 8` (least significant first) of byte `bit_index / 8`;
/// `false` past the end of the digest.
pub open spec fn bit_spec(digest: Seq<u8>, bit_index: u32) -> bool {
    let byte_idx = (bit_index / 8) as int;
    byte_idx < digest.len() && (digest[byte_idx] >> ((bit_index % 8) as u8)) & 1u8 == 1u8
}

/// Calls `uor_foundation::pipeline::single_bit_value`. Its source reads
/// byte `bit_index / 8` of the digest (returning `false` past the end)
/// and tests bit `bit_index % 8` of it; the contract states exactly that.
#[verifier::external_body]
fn single_bit_value(digest: &[u8], bit_index: u32) -> (b: bool)
    ensures
        b == bit_spec(digest@, bit_index),
{
    uor_foundation::pipeline::single_bit_value(digest, bit_index)
}

/// Decode a `K`-bit payload from a κ-label digest: bit `i` of the payload
/// is the digest's bit at position `i`.
pub fn decode_payload<const K: usize>(digest: &[u8]) -> (out: [bool; K])
    ensures
        forall|i: int| 0 <= i < K ==> #[trigger] out[i] == bit_spec(digest@, i as u32),
{
    let mut out = [false; K];
    let mut i: usize = 0;
    while i < K
        invariant
            i <= K,
            forall|j: int| 0 <= j < i ==> #[trigger] out[j] == bit_spec(digest@, j as u32),
        decreases K - i,
    {
        let index = i as u32;
        out[i] = single_bit_value(digest, index);
        i = i + 1;
    }
    out
}

} // verus!
