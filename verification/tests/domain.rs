use prism_btc::{
    p_adic_valuation, ultrametric_valuation, walsh_hadamard_parity_at, BlockHash, Target,
    TriadicCoords,
};

#[test]
fn target_genesis_leading_zeros() {
    let t = Target::new(Target::GENESIS_NBITS);
    assert_eq!(t.leading_zero_bytes(), 3);
}

#[test]
fn target_satisfaction_at_genesis() {
    let t = Target::new(Target::GENESIS_NBITS);
    let genesis_hash: [u8; 32] = [
        0x00, 0x00, 0x00, 0x00, 0x00, 0x19, 0xd6, 0x68, 0x9c, 0x08, 0x5a, 0xe1, 0x65, 0x83, 0x1e,
        0x93, 0x4f, 0xf7, 0x63, 0xae, 0x46, 0xa2, 0xa6, 0xc1, 0x72, 0xb3, 0xf1, 0xb6, 0x0a, 0x8c,
        0xe2, 0x6f,
    ];
    assert!(t.is_satisfied_by_bytes(&genesis_hash));
}

#[test]
fn triadic_coords_all_zero() {
    let coords = TriadicCoords::from_hash(&[0u8; 32]);
    assert_eq!(coords.stratum, 256);
    assert_eq!(coords.spectrum, 0);
}

#[test]
fn triadic_coords_low_bit_set() {
    let mut h = [0u8; 32];
    h[31] = 0x01;
    let coords = TriadicCoords::from_hash(&h);
    assert_eq!(coords.stratum, 0);
    assert_eq!(coords.spectrum, 1);
}

#[test]
fn ultrametric_valuation_zero_on_equal_addresses() {
    let a = [0xa5u8; 32];
    assert_eq!(ultrametric_valuation(&a, &a), 256);
}

#[test]
fn ultrametric_valuation_low_bit_differs() {
    let mut a = [0u8; 32];
    let mut b = [0u8; 32];
    a[31] = 0x00;
    b[31] = 0x01;
    assert_eq!(ultrametric_valuation(&a, &b), 0);
}

#[test]
fn ultrametric_valuation_high_bit_differs() {
    let mut a = [0u8; 32];
    let mut b = [0u8; 32];
    a[0] = 0x00;
    b[0] = 0x80;
    assert_eq!(ultrametric_valuation(&a, &b), 255);
}

#[test]
fn walsh_hadamard_at_all_ones_matches_spectrum() {
    let mut d = [0u8; 32];
    d[0] = 0xa5;
    d[15] = 0x07;
    let omega = [0xffu8; 32];
    let p = walsh_hadamard_parity_at(&d, &omega);
    let s = TriadicCoords::from_hash(&d).spectrum;
    assert_eq!(p, s);
    assert_eq!(p, 1);
}

#[test]
fn p_adic_valuation_p2_matches_stratum() {
    let mut d = [0u8; 32];
    d[31] = 0b1000;
    assert_eq!(p_adic_valuation(&d, 2), 3);
    assert_eq!(TriadicCoords::from_hash(&d).stratum, 3);
}

#[test]
fn p_adic_valuation_p3_basic() {
    let mut d = [0u8; 32];
    d[31] = 9;
    assert_eq!(p_adic_valuation(&d, 3), 2);
}

#[test]
fn p_adic_valuation_not_divisible() {
    let mut d = [0u8; 32];
    d[31] = 7;
    assert_eq!(p_adic_valuation(&d, 3), 0);
    assert_eq!(p_adic_valuation(&d, 5), 0);
}

#[test]
fn p_adic_valuation_zero_digest_caps_at_u128_limit() {
    let d = [0u8; 32];
    let v = p_adic_valuation(&d, 3);
    assert!(v >= 80);
}

#[test]
fn walsh_hadamard_at_disjoint_mask_is_zero() {
    let mut d = [0u8; 32];
    d[0] = 0xff;
    let mut omega = [0u8; 32];
    omega[31] = 0xff;
    assert_eq!(walsh_hadamard_parity_at(&d, &omega), 0);
}

// ─── Further cases ─────────────────────────────────────────────────────

#[test]
fn p_adic_valuation_zero_digest_cap_is_the_largest_fitting_power() {
    // 3^80 < 2^128 ≤ 3^81, 2^127 < 2^128: the caps are 80 and 127.
    assert_eq!(p_adic_valuation(&[0u8; 32], 3), 80);
    assert_eq!(p_adic_valuation(&[0u8; 32], 2), 127);
}

#[test]
fn p_adic_valuation_multi_byte_value() {
    // 0x0100 = 256 = 2^8; 0x7e9 = 2025 = 3^4 · 5^2.
    let mut d = [0u8; 32];
    d[30] = 0x01;
    assert_eq!(p_adic_valuation(&d, 2), 8);
    let mut e = [0u8; 32];
    e[30] = 0x07;
    e[31] = 0xe9;
    assert_eq!(p_adic_valuation(&e, 3), 4);
    assert_eq!(p_adic_valuation(&e, 5), 2);
    assert_eq!(p_adic_valuation(&e, 7), 0);
}

#[test]
fn target_decodes_genesis_bits() {
    let bytes = Target::new(0x1d00ffff).to_bytes();
    let mut expected = [0u8; 32];
    expected[4] = 0xff;
    expected[5] = 0xff;
    assert_eq!(bytes, expected);
}

#[test]
fn target_with_out_of_range_exponent_is_zero() {
    assert_eq!(Target::new(0x0000ffff).to_bytes(), [0u8; 32]);
    assert_eq!(Target::new(0x21ffffff).to_bytes(), [0u8; 32]);
    assert_eq!(Target::new(0x21ffffff).leading_zero_bytes(), 0);
}

#[test]
fn target_exponent_near_the_top_drops_trailing_mantissa_bytes() {
    // Exponent 32 places the mantissa at bytes 0..3; exponent 33 is out
    // of range; exponent 1 keeps only the top mantissa byte at byte 31.
    let t = Target::new(0x20123456).to_bytes();
    assert_eq!(&t[0..3], &[0x12, 0x34, 0x56]);
    let low = Target::new(0x01123456).to_bytes();
    let mut expected = [0u8; 32];
    expected[31] = 0x12;
    assert_eq!(low, expected);
}

#[test]
fn target_rejects_hash_above_it() {
    let t = Target::new(Target::GENESIS_NBITS);
    let mut above = [0u8; 32];
    above[3] = 0x01;
    assert!(!t.is_satisfied_by_bytes(&above));
    assert!(t.is_satisfied_by(&BlockHash::from_bytes([0u8; 32])));
    assert!(t.is_satisfied_by_bytes(&t.to_bytes()));
}

#[test]
fn ultrametric_is_symmetric_on_examples() {
    let mut a = [0u8; 32];
    let mut b = [0u8; 32];
    a[29] = 0x10;
    b[29] = 0x30;
    assert_eq!(ultrametric_valuation(&a, &b), ultrametric_valuation(&b, &a));
    assert_eq!(ultrametric_valuation(&a, &b), 21);
}

#[test]
fn triadic_coords_keep_the_datum() {
    let d = [0x5au8; 32];
    let c = TriadicCoords::from_hash(&d);
    assert_eq!(c.datum, d);
    assert_eq!(c.stratum, 1);
    assert_eq!(c.spectrum, 0);
}

#[test]
fn target_comparison_is_numeric() {
    // Compare as 256-bit integers split into two u128 halves.
    fn value(d: &[u8; 32]) -> (u128, u128) {
        let mut hi = [0u8; 16];
        let mut lo = [0u8; 16];
        hi.copy_from_slice(&d[..16]);
        lo.copy_from_slice(&d[16..]);
        (u128::from_be_bytes(hi), u128::from_be_bytes(lo))
    }
    let t = Target::new(0x1b0404cb);
    let tb = t.to_bytes();
    for k in 0u32..64 {
        let mut h = tb;
        let i = (k % 32) as usize;
        if k < 32 {
            h[i] = h[i].wrapping_add(1);
        } else {
            h[i] = h[i].wrapping_sub(1);
        }
        assert_eq!(t.is_satisfied_by_bytes(&h), value(&h) <= value(&tb));
    }
}

#[test]
fn walsh_parity_is_linear_in_the_frequency_and_symmetric() {
    let mut d = [0u8; 32];
    let mut o1 = [0u8; 32];
    let mut o2 = [0u8; 32];
    for i in 0..32 {
        d[i] = (i as u8).wrapping_mul(37).wrapping_add(11);
        o1[i] = (i as u8).wrapping_mul(91) ^ 0x5a;
        o2[i] = (i as u8).wrapping_mul(13).wrapping_add(200);
    }
    let mut o12 = [0u8; 32];
    for i in 0..32 {
        o12[i] = o1[i] ^ o2[i];
    }
    let (p1, p2, p12) = (
        walsh_hadamard_parity_at(&d, &o1),
        walsh_hadamard_parity_at(&d, &o2),
        walsh_hadamard_parity_at(&d, &o12),
    );
    assert_eq!(p12, p1 ^ p2);
    assert_eq!(walsh_hadamard_parity_at(&d, &o1), walsh_hadamard_parity_at(&o1, &d));
    assert_eq!(walsh_hadamard_parity_at(&o2, &d), p2);
    // A single shared set bit flips the parity to one.
    let mut x = [0u8; 32];
    x[31] = 1;
    assert_eq!(walsh_hadamard_parity_at(&x, &x), 1);
    assert_eq!(walsh_hadamard_parity_at(&x, &[0u8; 32]), 0);
}
