use prism_btc::{
    block_label_from_digest, compose_e6_filtration, compose_e7_augmentation, compose_e8_embedding,
    compose_f4_quotient, compose_g2_product, compose_ordered_product, merkle_root, sha256d_display,
    CompositionFailure, KappaLabel,
};

fn leaf(byte: u8) -> KappaLabel {
    block_label_from_digest(&[byte; 32])
}

#[test]
fn g2_is_commutative() {
    let a = leaf(0x11);
    let b = leaf(0x22);
    let ab = compose_g2_product(&a, &b).expect("g2");
    let ba = compose_g2_product(&b, &a).expect("g2");
    assert_eq!(ab.address, ba.address, "CS-G2 is commutative");
    assert!(ab.address.starts_with("sha256d:"));
    assert_eq!(ab.witness.verify().expect("replays"), ab.address);
}

#[test]
fn ordered_product_is_not_commutative() {
    let a = leaf(0x11);
    let b = leaf(0x22);
    let ab = compose_ordered_product(&a, &b).expect("ordered");
    let ba = compose_ordered_product(&b, &a).expect("ordered");
    assert_ne!(
        ab.address, ba.address,
        "the ordered product is order-sensitive (Bitcoin merkle node)"
    );
}

#[test]
fn e8_embedding_grounds_to_well_formed_label() {
    let a = leaf(0x00);
    let out = compose_e8_embedding(&a).expect("e8");
    assert!(out.address.starts_with("sha256d:"));
    assert_eq!(out.witness.verify().expect("replays"), out.address);
}

#[test]
fn merkle_single_leaf_is_grounded_leaf() {
    let a = leaf(0x42);
    let root = merkle_root(&[a]).expect("merkle");
    assert_eq!(root, a);
}

#[test]
fn composition_merkle_three_leaves_duplicates_last() {
    let leaves = [leaf(1), leaf(2), leaf(3)];
    let root = merkle_root(&leaves).expect("merkle");
    let n12 = compose_ordered_product(&leaves[0], &leaves[1])
        .unwrap()
        .address;
    let n33 = compose_ordered_product(&leaves[2], &leaves[2])
        .unwrap()
        .address;
    let expected = compose_ordered_product(&n12, &n33).unwrap().address;
    assert_eq!(root, expected);
}

#[test]
fn rejects_non_sha256d_axis() {
    let foreign = KappaLabel::from_bytes(
        b"sha2566:0000000000000000000000000000000000000000000000000000000000000000",
    );
    if let Ok(lbl) = foreign {
        assert!(matches!(
            compose_e8_embedding(&lbl),
            Err(CompositionFailure::MalformedOperand)
                | Err(CompositionFailure::OperandSigmaAxisMismatch { .. })
        ));
    }
}

// ─── Further cases ─────────────────────────────────────────────────────

fn label_from_str(s: &str) -> KappaLabel {
    KappaLabel::from_bytes(s.as_bytes()).expect("72 ASCII bytes")
}

#[test]
fn label_of_a_digest_is_its_lowercase_hex() {
    let mut d = [0u8; 32];
    d[0] = 0xab;
    d[31] = 0x0f;
    let l = block_label_from_digest(&d);
    assert_eq!(l.len(), 72);
    assert_eq!(
        l.as_str(),
        "sha256d:ab0000000000000000000000000000000000000000000000000000000000000f"
    );
    assert_eq!(l.sigma_axis(), Some("sha256d"));
    assert_eq!(
        l.sigma_axis_digest_hex(),
        Some("ab0000000000000000000000000000000000000000000000000000000000000f")
    );
}

#[test]
fn label_parsing_rejects_wrong_length_and_non_ascii() {
    assert_eq!(
        KappaLabel::from_bytes(b"sha256d:00"),
        Err(prism_btc::LabelDecodeError::WrongLength)
    );
    let mut bytes = *block_label_from_digest(&[0u8; 32]).as_array();
    bytes[10] = 0xc3;
    assert_eq!(
        KappaLabel::from_bytes(&bytes),
        Err(prism_btc::LabelDecodeError::NonAscii)
    );
}

#[test]
fn known_foreign_axis_is_a_mismatch() {
    let lbl = label_from_str(
        "sha256:00000000000000000000000000000000000000000000000000000000000000000",
    );
    assert_eq!(
        compose_e8_embedding(&lbl).unwrap_err(),
        CompositionFailure::OperandSigmaAxisMismatch {
            expected_axis: "sha256d",
            operand_axis: "sha256"
        }
    );
    let lbl = label_from_str(
        "blake3:00000000000000000000000000000000000000000000000000000000000000000",
    );
    assert_eq!(
        compose_f4_quotient(&lbl).unwrap_err(),
        CompositionFailure::OperandSigmaAxisMismatch {
            expected_axis: "sha256d",
            operand_axis: "blake3"
        }
    );
}

#[test]
fn missing_separator_or_bad_hex_is_malformed() {
    let no_colon = label_from_str(
        "sha256d-0000000000000000000000000000000000000000000000000000000000000000",
    );
    assert_eq!(
        compose_e8_embedding(&no_colon).unwrap_err(),
        CompositionFailure::MalformedOperand
    );
    let upper = label_from_str(
        "sha256d:000000000000000000000000000000000000000000000000000000000000000A",
    );
    // The σ-axis is fine, so the products that only check the axis accept
    // it, while those that decode the digest reject it.
    assert!(compose_e8_embedding(&upper).is_ok());
    assert!(compose_g2_product(&upper, &leaf(1)).is_ok());
    assert_eq!(
        compose_ordered_product(&leaf(1), &upper).unwrap_err(),
        CompositionFailure::MalformedOperand
    );
    assert_eq!(
        compose_e6_filtration(&upper).unwrap_err(),
        CompositionFailure::MalformedOperand
    );
}

#[test]
fn merkle_of_no_leaves_is_malformed() {
    assert_eq!(merkle_root(&[]), Err(CompositionFailure::MalformedOperand));
}

#[test]
fn ordered_product_grounds_the_concatenated_digests() {
    let a = [0x11u8; 32];
    let b = [0x22u8; 32];
    let mut canon = [0u8; 64];
    canon[..32].copy_from_slice(&a);
    canon[32..].copy_from_slice(&b);
    let out = compose_ordered_product(&block_label_from_digest(&a), &block_label_from_digest(&b))
        .unwrap();
    assert_eq!(out.address, block_label_from_digest(&sha256d_display(&canon)));
}

#[test]
fn f4_identifies_a_digest_with_its_complement() {
    let mut d = [0u8; 32];
    d[0] = 0x10;
    d[5] = 0x33;
    let c: [u8; 32] = core::array::from_fn(|i| !d[i]);
    let x = compose_f4_quotient(&block_label_from_digest(&d)).unwrap();
    let y = compose_f4_quotient(&block_label_from_digest(&c)).unwrap();
    assert_eq!(x.address, y.address);
    // The representative is the smaller of the two: here `d` itself.
    assert_eq!(
        x.address,
        block_label_from_digest(&sha256d_display(block_label_from_digest(&d).as_bytes()))
    );
}

#[test]
fn e6_tags_by_first_byte_mod_nine() {
    let mut d = [0u8; 32];
    d[0] = 8; // 8 mod 9 = 8 → degree 6
    let op = block_label_from_digest(&d);
    let mut canon = vec![0x06u8];
    canon.extend_from_slice(op.as_bytes());
    assert_eq!(
        compose_e6_filtration(&op).unwrap().address,
        block_label_from_digest(&sha256d_display(&canon))
    );
    d[0] = 9; // 9 mod 9 = 0 → degree 5
    let op = block_label_from_digest(&d);
    let mut canon = vec![0x05u8];
    canon.extend_from_slice(op.as_bytes());
    assert_eq!(
        compose_e6_filtration(&op).unwrap().address,
        block_label_from_digest(&sha256d_display(&canon))
    );
}

#[test]
fn e7_is_invariant_under_quarter_permutation() {
    let mut d = [0u8; 32];
    for (i, b) in d.iter_mut().enumerate() {
        *b = (i as u8).wrapping_mul(37).wrapping_add(5);
    }
    // Swap the first and last quarters.
    let mut p = d;
    p[..8].copy_from_slice(&d[24..]);
    p[24..].copy_from_slice(&d[..8]);
    let x = compose_e7_augmentation(&block_label_from_digest(&d)).unwrap();
    let y = compose_e7_augmentation(&block_label_from_digest(&p)).unwrap();
    assert_eq!(x.address, y.address);
}

#[test]
fn decode_payload_reads_low_bits_first() {
    let mut digest = [0u8; 32];
    digest[0] = 0b1010_1101;
    let decoded: [bool; 8] = prism_btc::decode_payload(&digest);
    assert_eq!(decoded, [true, false, true, true, false, true, false, true]);
    let mut two = [0u8; 32];
    two[0] = 0b0000_0001;
    let d2: [bool; 2] = prism_btc::decode_payload(&two);
    assert_eq!(d2, [true, false]);
    // Past the end of the digest every bit reads as false.
    let short: [bool; 12] = prism_btc::decode_payload(&[0xff]);
    assert_eq!(&short[..8], &[true; 8]);
    assert_eq!(&short[8..], &[false; 4]);
}
