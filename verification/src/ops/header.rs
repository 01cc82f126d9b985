//! The canonical 80-byte Bitcoin block-header wire layout.
//!
//! ```text
//! [0..4)   version     LE u32
//! [4..36)  prev_hash   32 bytes, internal byte order
//! [36..68) merkle_root 32 bytes, internal byte order
//! [68..72) timestamp   LE u32
//! [72..76) bits        LE u32
//! [76..80) nonce       LE u32
//! ```

use vstd::prelude::*;

use crate::domain::BlockHeader;

verus! {

/// Little-endian bytes of a `u32`.
pub open spec fn le32(x: u32) -> Seq<u8> {
    seq![x as u8, (x >> 8u32) as u8, (x >> 16u32) as u8, (x >> 24u32) as u8]
}

/// The `u32` whose little-endian bytes are `b[0..4)`.
pub open spec fn le32_value(b: Seq<u8>) -> u32 {
    (b[0] as u32) | ((b[1] as u32) << 8u32) | ((b[2] as u32) << 16u32) | ((b[3] as u32) << 24u32)
}

/// The 76-byte template prefix: version ‖ prev_hash ‖ merkle_root ‖
/// timestamp ‖ bits.
pub open spec fn prefix_spec(h: BlockHeader) -> Seq<u8> {
    le32(h.version.0) + h.prev_hash@ + h.merkle_root.0@ + le32(h.timestamp.0) + le32(h.bits.0)
}

/// The 80-byte wire-format header: the template prefix followed by the
/// little-endian nonce.
pub open spec fn header_spec(h: BlockHeader, nonce: u32) -> Seq<u8> {
    prefix_spec(h) + le32(nonce)
}

/// Decoding the little-endian bytes of `x` gives back `x`.
pub proof fn lemma_le32_round_trip(x: u32)
    ensures
        le32_value(le32(x)) == x,
{
    assert(((x as u8) as u32) | ((((x >> 8u32) as u8) as u32) << 8u32) | ((((x >> 16u32) as u8)
        as u32) << 16u32) | ((((x >> 24u32) as u8) as u32) << 24u32) == x) by (bit_vector);
}

/// Byte `k` of the little-endian encoding of `x`.
fn le_byte(x: u32, k: usize) -> (b: u8)
    requires
        k < 4,
    ensures
        b == le32(x)[k as int],
{
    if k == 0 {
        x as u8
    } else if k == 1 {
        (x >> 8u32) as u8
    } else if k == 2 {
        (x >> 16u32) as u8
    } else {
        (x >> 24u32) as u8
    }
}

/// Byte `i` of the template prefix.
fn prefix_byte(header: &BlockHeader, i: usize) -> (b: u8)
    requires
        i < 76,
    ensures
        b == prefix_spec(*header)[i as int],
{
    if i < 4 {
        le_byte(header.version.0, i)
    } else if i < 36 {
        header.prev_hash[i - 4]
    } else if i < 68 {
        header.merkle_root.0[i - 36]
    } else if i < 72 {
        le_byte(header.timestamp.0, i - 68)
    } else {
        le_byte(header.bits.0, i - 72)
    }
}

/// Serialise a header and a nonce to the canonical 80-byte wire layout.
pub fn serialize_header(header: &BlockHeader, nonce: u32) -> (buf: [u8; 80])
    ensures
        buf@ == header_spec(*header, nonce),
{
    let mut buf = [0u8; 80];
    for i in 0..80
        invariant
            forall|j: int| 0 <= j < i ==> buf[j] == header_spec(*header, nonce)[j],
    {
        if i < 76 {
            buf[i] = prefix_byte(header, i);
        } else {
            buf[i] = le_byte(nonce, i - 76);
        }
    }
    assert(buf@ =~= header_spec(*header, nonce));
    buf
}

/// Serialise the 76-byte template prefix (everything but the nonce) — the
/// bytes fixed for one (template, extranonce) pair.
pub fn serialize_prefix(header: &BlockHeader) -> (buf: [u8; 76])
    ensures
        buf@ == prefix_spec(*header),
{
    let mut buf = [0u8; 76];
    for i in 0..76
        invariant
            forall|j: int| 0 <= j < i ==> buf[j] == prefix_spec(*header)[j],
    {
        buf[i] = prefix_byte(header, i);
    }
    assert(buf@ =~= prefix_spec(*header));
    buf
}

/// Splice a nonce into bytes `[76..80)` after a 76-byte prefix.
pub fn splice_nonce(prefix: &[u8; 76], nonce: u32) -> (buf: [u8; 80])
    ensures
        buf@ == prefix@ + le32(nonce),
{
    let mut buf = [0u8; 80];
    for i in 0..80
        invariant
            forall|j: int| 0 <= j < i ==> buf[j] == (prefix@ + le32(nonce))[j],
    {
        if i < 76 {
            buf[i] = prefix[i];
        } else {
            buf[i] = le_byte(nonce, i - 76);
        }
    }
    assert(buf@ =~= prefix@ + le32(nonce));
    buf
}

/// The nonce stored little-endian in bytes `[76..80)` of a wire header.
pub fn wire_nonce(wire: &[u8; 80]) -> (n: u32)
    ensures
        n == le32_value(wire@.subrange(76, 80)),
{
    (wire[76] as u32) | ((wire[77] as u32) << 8u32) | ((wire[78] as u32) << 16u32) | ((
    wire[79] as u32) << 24u32)
}

/// Splicing a nonce after the serialized prefix gives the full serialized
/// header, and the nonce reads back from the spliced bytes.
pub proof fn law_prefix_splice_is_serialize(header: BlockHeader, nonce: u32)
    ensures
        prefix_spec(header) + le32(nonce) == header_spec(header, nonce),
        header_spec(header, nonce).len() == 80,
        header_spec(header, nonce).subrange(0, 76) == prefix_spec(header),
        le32_value(header_spec(header, nonce).subrange(76, 80)) == nonce,
{
    let w = header_spec(header, nonce);
    assert(w.subrange(0, 76) =~= prefix_spec(header));
    assert(w.subrange(76, 80) =~= le32(nonce));
    lemma_le32_round_trip(nonce);
}

} // verus!
