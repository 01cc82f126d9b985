//! The κ-label surface agrees with uor-addr's `KappaLabel` on the same
//! bytes.

use prism_btc::{block_label_from_digest, KappaLabel, LabelDecodeError};

#[test]
fn label_surface_agrees_with_uor_addr() {
    let mut d = [0u8; 32];
    for (i, b) in d.iter_mut().enumerate() {
        *b = (i as u8).wrapping_mul(29) ^ 0x5c;
    }
    let ours = block_label_from_digest(&d);
    let theirs = uor_addr::KappaLabel::<72>::from_bytes(ours.as_bytes()).expect("72 ASCII bytes");
    assert_eq!(theirs.as_str(), ours.as_str());
    assert_eq!(theirs.sigma_axis(), ours.sigma_axis());
    assert_eq!(theirs.sigma_axis_digest_hex(), ours.sigma_axis_digest_hex());
}

#[test]
fn label_parsing_agrees_with_uor_addr() {
    let cases: [&[u8]; 4] = [
        b"sha256d:00",
        &[0xc3; 72],
        b"no separator at all, but exactly seventy-two bytes of ASCII text .......",
        b"sha256d:0123456789abcdef0123456789abcdef0123456789abcdef0123456789abcdef",
    ];
    for bytes in cases {
        let ours = KappaLabel::from_bytes(bytes);
        let theirs = uor_addr::KappaLabel::<72>::from_bytes(bytes);
        match (ours, theirs) {
            (Ok(a), Ok(b)) => {
                assert_eq!(a.as_str(), b.as_str());
                assert_eq!(a.sigma_axis(), b.sigma_axis());
            }
            (Err(LabelDecodeError::WrongLength), Err(uor_addr::label::LabelDecodeError::WrongLength)) => {}
            (Err(LabelDecodeError::NonAscii), Err(uor_addr::label::LabelDecodeError::NonAscii)) => {}
            (a, b) => panic!("disagreement: {a:?} vs {b:?}"),
        }
    }
}

#[test]
fn label_order_is_digest_order() {
    let mut digests = Vec::new();
    for s in 0u32..40 {
        let mut d = [0u8; 32];
        for (i, b) in d.iter_mut().enumerate() {
            let mask: u8 = if i < 3 { 0x1f } else { 0xff };
            *b = ((s.wrapping_mul(2654435761) >> (i % 24)) as u8) & mask;
        }
        digests.push(d);
    }
    for a in &digests {
        for b in &digests {
            let (la, lb) = (block_label_from_digest(a), block_label_from_digest(b));
            assert_eq!(la.as_str() <= lb.as_str(), a <= b);
            assert_eq!(la == lb, a == b);
        }
    }
}
