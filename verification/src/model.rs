//! The Bitcoin addressing realization's typed surface: the canonical-form
//! input handle over the 80-byte wire header, the κ-label width, and the
//! grounding certificate each realization's output shape carries.
//!
//! Every κ-label is grounded through a realization whose output shape is
//! identified by an IRI and constrained by one `Site` per κ-label byte.
//! The certificate's content fingerprint is the `sha256d` σ-axis folded
//! over that shape's canonical unit layout — Witt level, thermodynamic
//! budget, IRI, site count, the site constraints and the certificate kind
//! — so it depends on the realization only, never on the bytes addressed.

use vstd::prelude::*;

use crate::address::str_bytes;
use crate::ops::sha256::sha256d_display_spec;
use crate::shapes::hasher::Sha256dHasher;

verus! {

/// The serialized-header byte width (Bitcoin wire format).
pub const HEADER_BYTES: usize = 80;

/// The `sha256d` κ-label ASCII byte width: `len("sha256d") + 1 + 2 × 32`.
pub const BLOCK_ADDRESS_LABEL_BYTES: usize = 7 + 1 + 2 * 32;

/// Borrowed canonical-form Bitcoin block-header handle: a thin, `Copy`
/// borrow of the wire-format header bytes.
#[derive(Clone, Copy, Debug)]
pub struct BlockHeaderCarrier<'a>(&'a [u8]);

impl<'a> BlockHeaderCarrier<'a> {
    /// Wrap wire-format header bytes as an input handle.
    pub fn new(header_bytes: &'a [u8]) -> (c: Self)
        ensures
            c.bytes_view() == header_bytes@,
    {
        Self(header_bytes)
    }

    /// The bytes the handle borrows.
    pub closed spec fn bytes_view(self) -> Seq<u8> {
        self.0@
    }

    /// Borrow the wire-format header bytes.
    pub fn header_bytes(&self) -> (b: &'a [u8])
        ensures
            b@ == self.bytes_view(),
    {
        self.0
    }
}

// ─── Realizations and their grounding certificates ─────────────────────

/// The pipeline a κ-label is grounded through: the block-address model or
/// one of the composition models. Each has its own output-shape IRI.
#[derive(Clone, Copy, Debug, PartialEq, Eq)]
pub enum Realization {
    /// The Bitcoin block-address model (`BlockAddressLabel`).
    BlockAddress,
    /// CS-G2, the commutative binary product.
    G2Product,
    /// CS-F4, the ± involution quotient.
    F4Quotient,
    /// CS-E6, the degree-partition filtration.
    E6Filtration,
    /// CS-E7, the S₄-orbit augmentation.
    E7Augmentation,
    /// CS-E8, the direct embedding.
    E8Embedding,
    /// The ordered binary product (the merkle-node combiner).
    OrderedProduct,
}

/// The output-shape IRI of a realization.
pub open spec fn realization_iri_text(r: Realization) -> &'static str {
    match r {
        Realization::BlockAddress => "https://prism.btc/addr/BlockAddressLabel/sha256d",
        Realization::G2Product => "https://prism.btc/addr/composition/g2-product/sha256d",
        Realization::F4Quotient => "https://prism.btc/addr/composition/f4-quotient/sha256d",
        Realization::E6Filtration => "https://prism.btc/addr/composition/e6-filtration/sha256d",
        Realization::E7Augmentation => "https://prism.btc/addr/composition/e7-augmentation/sha256d",
        Realization::E8Embedding => "https://prism.btc/addr/composition/e8-embedding/sha256d",
        Realization::OrderedProduct => "https://prism.btc/addr/composition/ordered-product/sha256d",
    }
}

/// The UTF-8 bytes of a realization's output-shape IRI.
pub open spec fn realization_iri(r: Realization) -> Seq<u8> {
    str_bytes(realization_iri_text(r))
}

impl Realization {
    /// The output-shape IRI.
    pub fn iri(self) -> (s: &'static str)
        ensures
            s == realization_iri_text(self),
    {
        match self {
            Realization::BlockAddress => "https://prism.btc/addr/BlockAddressLabel/sha256d",
            Realization::G2Product => "https://prism.btc/addr/composition/g2-product/sha256d",
            Realization::F4Quotient => "https://prism.btc/addr/composition/f4-quotient/sha256d",
            Realization::E6Filtration => "https://prism.btc/addr/composition/e6-filtration/sha256d",
            Realization::E7Augmentation => "https://prism.btc/addr/composition/e7-augmentation/sha256d",
            Realization::E8Embedding => "https://prism.btc/addr/composition/e8-embedding/sha256d",
            Realization::OrderedProduct => "https://prism.btc/addr/composition/ordered-product/sha256d",
        }
    }
}

/// The Witt level (in bits) every realization's unit is grounded at.
pub const GROUNDING_WITT_BITS: u16 = 32;

/// The thermodynamic budget every realization's unit declares.
pub const GROUNDING_BUDGET: u64 = 1024;

/// The layout tag of a `Site` constraint.
pub const SITE_CONSTRAINT_TAG: u8 = 5;

/// The layout byte of the grounding certificate kind.
pub const GROUNDING_CERTIFICATE_KIND: u8 = 1;

/// Big-endian bytes of a `u16`.
pub open spec fn be16(x: u16) -> Seq<u8> {
    seq![(x >> 8u16) as u8, x as u8]
}

/// Big-endian bytes of a `u32`.
pub open spec fn be32(x: u32) -> Seq<u8> {
    seq![(x >> 24u32) as u8, (x >> 16u32) as u8, (x >> 8u32) as u8, x as u8]
}

/// Big-endian bytes of a `u64`.
pub open spec fn be64(x: u64) -> Seq<u8> {
    seq![
        (x >> 56u64) as u8,
        (x >> 48u64) as u8,
        (x >> 40u64) as u8,
        (x >> 32u64) as u8,
        (x >> 24u64) as u8,
        (x >> 16u64) as u8,
        (x >> 8u64) as u8,
        x as u8,
    ]
}

/// The layout of one `Site` constraint: its tag, then its position.
pub open spec fn site_constraint_bytes(position: u32) -> Seq<u8> {
    seq![SITE_CONSTRAINT_TAG] + be32(position)
}

/// The layouts of the `Site` constraints at positions `0..n`, in order.
pub open spec fn site_constraints_layout(n: nat) -> Seq<u8>
    decreases n,
{
    if n == 0 {
        Seq::empty()
    } else {
        site_constraints_layout((n - 1) as nat) + site_constraint_bytes((n - 1) as u32)
    }
}

/// The canonical unit layout of an output shape with IRI `iri`: Witt
/// level, budget, IRI, a `0` terminator, the site count, one `Site`
/// constraint per κ-label byte, and the certificate kind.
pub open spec fn grounding_unit_layout(iri: Seq<u8>) -> Seq<u8> {
    be16(GROUNDING_WITT_BITS) + be64(GROUNDING_BUDGET) + iri + seq![0u8] + be64(
        BLOCK_ADDRESS_LABEL_BYTES as u64,
    ) + site_constraints_layout(BLOCK_ADDRESS_LABEL_BYTES as nat) + seq![GROUNDING_CERTIFICATE_KIND]
}

/// The content fingerprint of a realization's grounding certificate: the
/// `sha256d` σ-axis (display order) over its canonical unit layout.
pub open spec fn grounding_fingerprint_spec(r: Realization) -> Seq<u8> {
    sha256d_display_spec(grounding_unit_layout(realization_iri(r)))
}

fn be16_bytes(x: u16) -> (b: [u8; 2])
    ensures
        b@ == be16(x),
{
    let b = [(x >> 8u16) as u8, x as u8];
    assert(b@ =~= be16(x));
    b
}

fn be32_bytes(x: u32) -> (b: [u8; 4])
    ensures
        b@ == be32(x),
{
    let b = [(x >> 24u32) as u8, (x >> 16u32) as u8, (x >> 8u32) as u8, x as u8];
    assert(b@ =~= be32(x));
    b
}

fn be64_bytes(x: u64) -> (b: [u8; 8])
    ensures
        b@ == be64(x),
{
    let b = [
        (x >> 56u64) as u8,
        (x >> 48u64) as u8,
        (x >> 40u64) as u8,
        (x >> 32u64) as u8,
        (x >> 24u64) as u8,
        (x >> 16u64) as u8,
        (x >> 8u64) as u8,
        x as u8,
    ];
    assert(b@ =~= be64(x));
    b
}

/// The content fingerprint of a realization's grounding certificate,
/// folded through the `sha256d` σ-axis.
pub fn grounding_fingerprint(r: Realization) -> (fp: [u8; 32])
    ensures
        fp@ == grounding_fingerprint_spec(r),
{
    let iri = r.iri().as_bytes();
    let level = be16_bytes(GROUNDING_WITT_BITS);
    let budget = be64_bytes(GROUNDING_BUDGET);
    let sites = be64_bytes(BLOCK_ADDRESS_LABEL_BYTES as u64);
    let mut h = Sha256dHasher::initial();
    h = h.fold_bytes(level.as_slice());
    h = h.fold_bytes(budget.as_slice());
    h = h.fold_bytes(iri);
    h = h.fold_byte(0);
    h = h.fold_bytes(sites.as_slice());
    let ghost head = h@;
    let mut position: u32 = 0;
    while position < 72
        invariant
            position <= 72,
            h@ == head + site_constraints_layout(position as nat),
        decreases 72 - position,
    {
        let at = be32_bytes(position);
        h = h.fold_byte(SITE_CONSTRAINT_TAG);
        h = h.fold_bytes(at.as_slice());
        assert(site_constraints_layout((position + 1) as nat) =~= site_constraints_layout(
            position as nat,
        ) + site_constraint_bytes(position));
        assert(h@ =~= head + site_constraints_layout((position + 1) as nat));
        position = position + 1;
    }
    h = h.fold_byte(GROUNDING_CERTIFICATE_KIND);
    assert(h@ =~= grounding_unit_layout(realization_iri(r)));
    h.finalize()
}

} // verus!
