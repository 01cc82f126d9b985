use prism_btc::{
    merkle_root_internal, serialize_header, serialize_prefix, sha256, sha256d_display,
    sha256d_internal, splice_nonce, Bits, BlockHeader, MerkleRoot, Sha256dHasher, Timestamp,
    Version,
};

fn genesis_header() -> BlockHeader {
    let merkle: [u8; 32] = [
        0x3b, 0xa3, 0xed, 0xfd, 0x7a, 0x7b, 0x12, 0xb2, 0x7a, 0xc7, 0x2c, 0x3e, 0x67, 0x76, 0x8f,
        0x61, 0x7f, 0xc8, 0x1b, 0xc3, 0x88, 0x8a, 0x51, 0x32, 0x3a, 0x9f, 0xb8, 0xaa, 0x4b, 0x1e,
        0x5e, 0x4a,
    ];
    BlockHeader {
        version: Version(1),
        prev_hash: [0u8; 32],
        merkle_root: MerkleRoot::from_bytes(merkle),
        timestamp: Timestamp(1231006505),
        bits: Bits(0x1d00ffff),
    }
}

#[test]
fn header_layout_matches_protocol() {
    let h = genesis_header();
    let buf = serialize_header(&h, 2083236893);
    assert_eq!(&buf[0..4], &[0x01, 0x00, 0x00, 0x00]);
    assert_eq!(&buf[4..36], &[0u8; 32]);
    assert_eq!(&buf[68..72], &1231006505u32.to_le_bytes());
    assert_eq!(&buf[72..76], &0x1d00ffffu32.to_le_bytes());
    assert_eq!(&buf[76..80], &2083236893u32.to_le_bytes());
}

#[test]
fn prefix_then_splice_equals_full_serialize() {
    let h = genesis_header();
    let prefix = serialize_prefix(&h);
    let full = serialize_header(&h, 0xdeadbeef);
    let spliced = splice_nonce(&prefix, 0xdeadbeef);
    assert_eq!(full, spliced);
}

#[test]
fn genesis_header_hashes_to_the_genesis_block_hash() {
    let wire = serialize_header(&genesis_header(), 2083236893);
    let expected: [u8; 32] = [
        0x00, 0x00, 0x00, 0x00, 0x00, 0x19, 0xd6, 0x68, 0x9c, 0x08, 0x5a, 0xe1, 0x65, 0x83, 0x1e,
        0x93, 0x4f, 0xf7, 0x63, 0xae, 0x46, 0xa2, 0xa6, 0xc1, 0x72, 0xb3, 0xf1, 0xb6, 0x0a, 0x8c,
        0xe2, 0x6f,
    ];
    assert_eq!(sha256d_display(&wire), expected);
}

#[test]
fn merkle_of_single_coinbase_is_the_coinbase_txid() {
    let coinbase: [u8; 32] = [0x42; 32];
    let root = merkle_root_internal(&coinbase, &[]);
    assert_eq!(root, coinbase);
}

#[test]
fn merkle_pair_matches_manual_sha256d() {
    let cb: [u8; 32] = [0xaa; 32];
    let other: [u8; 32] = [0xbb; 32];
    let mut concat = [0u8; 64];
    concat[..32].copy_from_slice(&cb);
    concat[32..].copy_from_slice(&other);
    let expected = sha256d_internal(&concat);
    let root = merkle_root_internal(&cb, &[other]);
    assert_eq!(root, expected);
}

#[test]
fn merkle_merkle_three_leaves_duplicates_last() {
    let a: [u8; 32] = [0x01; 32];
    let b: [u8; 32] = [0x02; 32];
    let c: [u8; 32] = [0x03; 32];
    let mut ab = [0u8; 64];
    ab[..32].copy_from_slice(&a);
    ab[32..].copy_from_slice(&b);
    let l1_0 = sha256d_internal(&ab);
    let mut cc = [0u8; 64];
    cc[..32].copy_from_slice(&c);
    cc[32..].copy_from_slice(&c);
    let l1_1 = sha256d_internal(&cc);
    let mut top = [0u8; 64];
    top[..32].copy_from_slice(&l1_0);
    top[32..].copy_from_slice(&l1_1);
    let expected = sha256d_internal(&top);

    let root = merkle_root_internal(&a, &[b, c]);
    assert_eq!(root, expected);
}

#[test]
fn sha256_empty() {
    let got = sha256(b"");
    let expected: [u8; 32] = [
        0xe3, 0xb0, 0xc4, 0x42, 0x98, 0xfc, 0x1c, 0x14, 0x9a, 0xfb, 0xf4, 0xc8, 0x99, 0x6f, 0xb9,
        0x24, 0x27, 0xae, 0x41, 0xe4, 0x64, 0x9b, 0x93, 0x4c, 0xa4, 0x95, 0x99, 0x1b, 0x78, 0x52,
        0xb8, 0x55,
    ];
    assert_eq!(got, expected);
}

#[test]
fn sha256_abc() {
    let got = sha256(b"abc");
    let expected: [u8; 32] = [
        0xba, 0x78, 0x16, 0xbf, 0x8f, 0x01, 0xcf, 0xea, 0x41, 0x41, 0x40, 0xde, 0x5d, 0xae, 0x22,
        0x23, 0xb0, 0x03, 0x61, 0xa3, 0x96, 0x17, 0x7a, 0x9c, 0xb4, 0x10, 0xff, 0x61, 0xf2, 0x00,
        0x15, 0xad,
    ];
    assert_eq!(got, expected);
}

#[test]
fn sha256_long_message_crosses_two_blocks() {
    let msg = b"abcdbcdecdefdefgefghfghighijhijkijkljklmklmnlmnomnopnopq";
    let got = sha256(msg);
    let expected: [u8; 32] = [
        0x24, 0x8d, 0x6a, 0x61, 0xd2, 0x06, 0x38, 0xb8, 0xe5, 0xc0, 0x26, 0x93, 0x0c, 0x3e, 0x60,
        0x39, 0xa3, 0x3c, 0xe4, 0x59, 0x64, 0xff, 0x21, 0x67, 0xf6, 0xec, 0xed, 0xd4, 0x19, 0xdb,
        0x06, 0xc1,
    ];
    assert_eq!(got, expected);
}

#[test]
fn sha256d_empty_display_order() {
    let got = sha256d_display(b"");
    let expected: [u8; 32] = [
        0x56, 0x94, 0x4c, 0x5d, 0x3f, 0x98, 0x41, 0x3e, 0xf4, 0x5c, 0xf5, 0x45, 0x45, 0x53, 0x81,
        0x03, 0xcc, 0x9f, 0x29, 0x8e, 0x05, 0x75, 0x82, 0x0a, 0xd3, 0x59, 0x13, 0x76, 0xe2, 0xe0,
        0xf6, 0x5d,
    ];
    assert_eq!(got, expected);
}

#[test]
fn sha256_at_padding_edges_is_deterministic_and_distinct() {
    // Messages of 55, 56, 63, 64 and 65 bytes straddle the padding edges;
    // hashing them twice in a row is deterministic and distinct.
    let mut seen = Vec::new();
    for len in [55usize, 56, 63, 64, 65, 119, 120, 128] {
        let msg = vec![b'a'; len];
        let d = sha256(&msg);
        assert_eq!(d, sha256(&msg));
        assert!(!seen.contains(&d));
        seen.push(d);
    }
}

#[test]
fn sha256_of_64_a_bytes() {
    // SHA-256("a" × 64) = ffe054fe7ae0cb6dc65c3af9b61d5209f439851db43d0ba5997337df154668eb
    let expected: [u8; 32] = [
        0xff, 0xe0, 0x54, 0xfe, 0x7a, 0xe0, 0xcb, 0x6d, 0xc6, 0x5c, 0x3a, 0xf9, 0xb6, 0x1d, 0x52,
        0x09, 0xf4, 0x39, 0x85, 0x1d, 0xb4, 0x3d, 0x0b, 0xa5, 0x99, 0x73, 0x37, 0xdf, 0x15, 0x46,
        0x68, 0xeb,
    ];
    assert_eq!(sha256(&[b'a'; 64]), expected);
}

#[test]
fn sha256d_hasher_empty_is_display_order() {
    let out = Sha256dHasher::initial().finalize();
    let expected: [u8; 32] = [
        0x56, 0x94, 0x4c, 0x5d, 0x3f, 0x98, 0x41, 0x3e, 0xf4, 0x5c, 0xf5, 0x45, 0x45, 0x53, 0x81,
        0x03, 0xcc, 0x9f, 0x29, 0x8e, 0x05, 0x75, 0x82, 0x0a, 0xd3, 0x59, 0x13, 0x76, 0xe2, 0xe0,
        0xf6, 0x5d,
    ];
    assert_eq!(out, expected);
}

#[test]
fn sha256d_hasher_matches_display_one_shot() {
    let bytes = b"prism-btc test vector for streaming";
    let from_hasher = Sha256dHasher::initial().fold_bytes(bytes).finalize();
    assert_eq!(from_hasher, sha256d_display(bytes));
}

#[test]
fn streaming_equals_one_shot() {
    let bytes = b"abc";
    let one_shot = Sha256dHasher::initial().fold_bytes(bytes).finalize();
    let mut streaming = Sha256dHasher::initial();
    for &b in bytes.iter() {
        streaming = streaming.fold_byte(b);
    }
    assert_eq!(one_shot, streaming.finalize());
}

#[test]
fn streaming_in_uneven_chunks_across_block_edges_equals_one_shot() {
    let data: Vec<u8> = (0..200u32).map(|i| (i * 7 + 3) as u8).collect();
    let mut h = Sha256dHasher::default();
    for chunk in data.chunks(37) {
        h = h.fold_bytes(chunk);
    }
    assert_eq!(h.finalize(), sha256d_display(&data));
    let mut h2 = Sha256dHasher::initial().fold_bytes(&data[..64]);
    for &b in &data[64..] {
        h2 = h2.fold_byte(b);
    }
    assert_eq!(h2.finalize(), sha256d_display(&data));
}
