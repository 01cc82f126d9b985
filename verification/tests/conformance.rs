use uor_foundation::pipeline::{EmptyCommitment, TypedCommitment};

use prism_btc::{
    address_block, p_adic_valuation, serialize_header, sha256d_display, Bits, BlockHeader,
    KappaObservables, MerkleRoot, Target, Timestamp, TriadicCoords, Version, CANONICAL_PRIMES,
};

const REGTEST_NBITS: u32 = 0x207fffff;

fn permissive_header(timestamp: u32) -> BlockHeader {
    BlockHeader {
        version: Version(1),
        prev_hash: [0u8; 32],
        merkle_root: MerkleRoot::from_bytes([0xaa; 32]),
        timestamp: Timestamp(timestamp),
        bits: Bits(REGTEST_NBITS),
    }
}

#[test]
fn cs4_observables_are_pure_digest_projection() {
    let digest = [0xa5u8; 32];
    let a = KappaObservables::from_digest(&digest);
    let b = KappaObservables::from_digest(&digest);
    assert_eq!(a, b);
    assert!(a.coords.stratum <= 256);
    assert_eq!(a.p_adic.len(), CANONICAL_PRIMES.len());
}

#[test]
fn cd1_host_side_admission_holds_iff_digest_satisfies_target() {
    let target = Target::new(REGTEST_NBITS);
    let mut admitted = 0;
    for ts in 0u32..32 {
        let header = permissive_header(1_700_000_000_u32.wrapping_add(ts));
        for nonce in 0..256u32 {
            let wire = serialize_header(&header, nonce);
            let _ = address_block(&wire);
            let digest = sha256d_display(&wire);
            if target.is_satisfied_by_bytes(&digest) {
                admitted += 1;
                break;
            }
        }
    }
    assert!(admitted > 0, "permissive target admits at least once");
}

#[test]
fn cd3_observables_agree_with_per_primitive_computation() {
    for ts in 0u32..16 {
        let header = permissive_header(1_700_000_000_u32.wrapping_add(ts));
        let wire = serialize_header(&header, 0);
        let digest = sha256d_display(&wire);
        let observables = KappaObservables::from_digest(&digest);
        let canonical = TriadicCoords::from_hash(&digest);
        assert_eq!(observables.coords, canonical);
        for (i, &p) in CANONICAL_PRIMES.iter().enumerate() {
            assert_eq!(observables.p_adic[i], p_adic_valuation(&digest, p));
        }
    }
}

#[test]
fn cn1_address_block_is_well_formed_at_every_network_bits() {
    let bits_set: &[u32] = &[0x207fffff, 0x1d00ffff, 0x1cffff00, 0x1c0001b3];
    for &bits in bits_set {
        let header = BlockHeader {
            version: Version(1),
            prev_hash: [0u8; 32],
            merkle_root: MerkleRoot::from_bytes([0xaa; 32]),
            timestamp: Timestamp(1_700_000_000),
            bits: Bits(bits),
        };
        let wire = serialize_header(&header, 0);
        let outcome = address_block(&wire);
        assert!(outcome.address.starts_with("sha256d:"));
        assert_eq!(outcome.address.len(), 72);
        let target = Target::new(bits);
        let _admits = target.is_satisfied_by_bytes(&sha256d_display(&wire));
    }
}

#[test]
fn cp3_empty_commitment_is_the_composition_identity() {
    assert!((EmptyCommitment.bandwidth_bits() - 0.0).abs() < 1e-9);
    assert_eq!(EmptyCommitment.predicate_count(), 0);
    assert!(EmptyCommitment.evaluate(&[0u8; 32]));
    assert!(EmptyCommitment.evaluate(&[0xff; 32]));
}
