//! The grounding-certificate fingerprint, checked against the foundation's
//! own canonical unit-layout fold.

use bitcoin::hashes::sha256d;
use prism_btc::{
    address_block, block_label_from_digest, compose_e6_filtration, compose_e7_augmentation,
    compose_e8_embedding, compose_f4_quotient, compose_g2_product, compose_ordered_product,
    grounding_fingerprint, mine_at, Bits, BlockHeader, MerkleRoot, Realization, Target,
    Timestamp, Version,
};
use uor_foundation::enforcement::{fold_unit_digest, CertificateKind, Hasher};

/// A foundation `Hasher` that collects the folded bytes and finalizes with
/// Bitcoin's double SHA-256 in display order (the `sha256d` σ-axis).
struct Sha256dAxis(Vec<u8>);

impl Hasher<32> for Sha256dAxis {
    const OUTPUT_BYTES: usize = 32;

    fn initial() -> Self {
        Sha256dAxis(Vec::new())
    }

    fn fold_byte(mut self, b: u8) -> Self {
        self.0.push(b);
        self
    }

    fn finalize(self) -> [u8; 32] {
        let digest = <sha256d::Hash as bitcoin::hashes::Hash>::hash(&self.0);
        let mut out = <sha256d::Hash as bitcoin::hashes::Hash>::to_byte_array(digest);
        out.reverse();
        out
    }
}

fn foundation_fingerprint(iri: &str) -> [u8; 32] {
    let sites = uor_addr::label::site_constraints::<72>();
    fold_unit_digest(
        Sha256dAxis::initial(),
        32,
        1024,
        iri,
        72,
        &sites,
        CertificateKind::Grounding,
    )
    .finalize()
}

const ALL: [(Realization, &str); 7] = [
    (Realization::BlockAddress, "https://prism.btc/addr/BlockAddressLabel/sha256d"),
    (Realization::G2Product, "https://prism.btc/addr/composition/g2-product/sha256d"),
    (Realization::F4Quotient, "https://prism.btc/addr/composition/f4-quotient/sha256d"),
    (Realization::E6Filtration, "https://prism.btc/addr/composition/e6-filtration/sha256d"),
    (Realization::E7Augmentation, "https://prism.btc/addr/composition/e7-augmentation/sha256d"),
    (Realization::E8Embedding, "https://prism.btc/addr/composition/e8-embedding/sha256d"),
    (Realization::OrderedProduct, "https://prism.btc/addr/composition/ordered-product/sha256d"),
];

fn header(timestamp: u32) -> BlockHeader {
    BlockHeader {
        version: Version(1),
        prev_hash: [0u8; 32],
        merkle_root: MerkleRoot::from_bytes([0x5a; 32]),
        timestamp: Timestamp(timestamp),
        bits: Bits(0x207fffff),
    }
}

#[test]
fn grounding_fingerprint_is_the_foundation_unit_digest() {
    for (realization, iri) in ALL {
        assert_eq!(realization.iri(), iri);
        assert_eq!(grounding_fingerprint(realization), foundation_fingerprint(iri));
    }
}

#[test]
fn grounding_fingerprints_differ_between_realizations() {
    for (i, (a, _)) in ALL.iter().enumerate() {
        for (b, _) in ALL.iter().skip(i + 1) {
            assert_ne!(grounding_fingerprint(*a), grounding_fingerprint(*b));
        }
    }
}

#[test]
fn block_witness_fingerprint_does_not_depend_on_the_header() {
    let expected = foundation_fingerprint("https://prism.btc/addr/BlockAddressLabel/sha256d");
    let a = address_block(&[0u8; 80]);
    let b = address_block(&[0xffu8; 80]);
    assert_ne!(a.address, b.address);
    assert_eq!(a.witness.content_fingerprint(), &expected);
    assert_eq!(b.witness.content_fingerprint(), &expected);
    let target = Target::new(0x207fffff);
    let mined = (0u32..)
        .find_map(|n| mine_at(&header(1_700_000_123), target, n).ok())
        .expect("permissive target admits");
    assert_eq!(mined.witness.content_fingerprint(), &expected);
    assert_eq!(mined.witness.realization(), Realization::BlockAddress);
    assert_eq!(mined.witness.verify().expect("verifies"), mined.address());
}

#[test]
fn composition_witnesses_carry_their_realization_fingerprint() {
    let a = block_label_from_digest(&[0x11; 32]);
    let b = block_label_from_digest(&[0x22; 32]);
    let outcomes = [
        (compose_g2_product(&a, &b).unwrap(), Realization::G2Product),
        (compose_f4_quotient(&a).unwrap(), Realization::F4Quotient),
        (compose_e6_filtration(&a).unwrap(), Realization::E6Filtration),
        (compose_e7_augmentation(&a).unwrap(), Realization::E7Augmentation),
        (compose_e8_embedding(&a).unwrap(), Realization::E8Embedding),
        (compose_ordered_product(&a, &b).unwrap(), Realization::OrderedProduct),
    ];
    for (out, realization) in outcomes {
        assert_eq!(out.witness.realization(), realization);
        assert_eq!(out.witness.content_fingerprint(), &foundation_fingerprint(realization.iri()));
        assert_eq!(out.witness.verify().expect("verifies"), out.address);
    }
}
