use bitcoin::absolute::LockTime;
use bitcoin::blockdata::transaction::{OutPoint, TxIn, TxOut};
use bitcoin::script::{Builder as ScriptBuilder, ScriptBuf};
use bitcoin::{Amount, Network, Sequence, Transaction, Witness};
use prism_btc::shapes::primitives::{Nonce, PrevHash};
use prism_btc::template::TemplateError;
use prism_btc::{
    build_coinbase_tx, job_header, merkle_root_internal, signet_gate, BlockTemplate, CoinbaseTx,
    JobError, MiningJob, SignetError,
};

/// Regtest payout script (a valid bech32 P2WPKH derived from a fixed
/// all-zero key for deterministic test fixtures).
fn regtest_payout() -> Vec<u8> {
    "bcrt1q6rhpng9evdsfnn833a4f4vej0asu6dk5srld6x"
        .parse::<bitcoin::Address<bitcoin::address::NetworkUnchecked>>()
        .expect("parse fixture address")
        .require_network(Network::Regtest)
        .expect("regtest address")
        .script_pubkey()
        .to_bytes()
}

fn fixture_components(extranonce: u64) -> Result<MiningJob, TemplateError> {
    MiningJob::from_components(
        [0u8; 32],        // previous block hash
        1,                // height
        0x207fffff,       // regtest bits
        1_700_000_000,    // timestamp
        0x20000000,       // version (BIP9 base)
        50 * 100_000_000, // coinbase value (50 BTC)
        &[],              // no witness commitment (no SegWit txs)
        &[],              // no other transactions
        &regtest_payout(),
        extranonce,
    )
}

/// The rust-bitcoin transaction of a coinbase, built independently.
fn btc_coinbase(cb: &CoinbaseTx) -> Transaction {
    let mut witness = Witness::new();
    witness.push(cb.witness_reserved);
    Transaction {
        version: bitcoin::transaction::Version(cb.version),
        lock_time: LockTime::from_consensus(cb.lock_time),
        input: vec![TxIn {
            previous_output: OutPoint::null(),
            script_sig: ScriptBuf::from_bytes(cb.script_sig.clone()),
            sequence: Sequence(cb.sequence),
            witness,
        }],
        output: cb
            .outputs
            .iter()
            .map(|o| TxOut {
                value: Amount::from_sat(o.value_sat),
                script_pubkey: ScriptBuf::from_bytes(o.script_pubkey.clone()),
            })
            .collect(),
    }
}

fn txid_bytes(tx: &Transaction) -> [u8; 32] {
    <bitcoin::Txid as bitcoin::hashes::Hash>::to_byte_array(tx.compute_txid())
}

fn some_tx(tag: u8) -> Transaction {
    Transaction {
        version: bitcoin::transaction::Version(2),
        lock_time: LockTime::ZERO,
        input: vec![TxIn {
            previous_output: OutPoint::null(),
            script_sig: ScriptBuf::from_bytes(vec![tag]),
            sequence: Sequence::MAX,
            witness: Witness::new(),
        }],
        output: vec![TxOut { value: Amount::from_sat(tag as u64), script_pubkey: ScriptBuf::new() }],
    }
}

#[test]
fn extranonce_roll_produces_distinct_merkle_roots() {
    let job0 = fixture_components(0).expect("build job 0");
    let job1 = fixture_components(1).expect("build job 1");
    let job2 = fixture_components(0xDEAD_BEEF).expect("build job 2");

    assert_ne!(
        job0.header.merkle_root.as_bytes(),
        job1.header.merkle_root.as_bytes(),
        "extranonce 0 vs 1 must produce distinct merkle roots"
    );
    assert_ne!(
        job0.header.merkle_root.as_bytes(),
        job2.header.merkle_root.as_bytes(),
        "extranonce 0 vs DEADBEEF must produce distinct merkle roots"
    );
    assert_ne!(
        job1.header.merkle_root.as_bytes(),
        job2.header.merkle_root.as_bytes(),
        "extranonce 1 vs DEADBEEF must produce distinct merkle roots"
    );

    let job0_again = fixture_components(0).expect("rebuild job 0");
    assert_eq!(
        job0.header.merkle_root.as_bytes(),
        job0_again.header.merkle_root.as_bytes(),
        "same extranonce → same merkle root (host loop reproducibility)"
    );
}

#[test]
fn extranonce_roll_holds_non_merkle_header_fields_constant() {
    let job0 = fixture_components(0).expect("build job 0");
    let job1 = fixture_components(0xCAFEBABE).expect("build job 1");
    assert_eq!(job0.header.version, job1.header.version);
    assert_eq!(job0.header.prev_hash, job1.header.prev_hash);
    assert_eq!(job0.header.timestamp, job1.header.timestamp);
    assert_eq!(job0.header.bits, job1.header.bits);
}

#[test]
fn from_components_accepts_witness_commitment() {
    let mut commitment_bytes = vec![0x6a, 0x24, 0xaa, 0x21, 0xa9, 0xed];
    commitment_bytes.extend_from_slice(&[0u8; 32]);

    let job = MiningJob::from_components(
        [0u8; 32],
        1,
        0x207fffff,
        1_700_000_000,
        0x20000000,
        50 * 100_000_000,
        &commitment_bytes,
        &[],
        &regtest_payout(),
        0,
    )
    .expect("build job with witness commitment");

    assert_eq!(job.coinbase.outputs.len(), 2);
    assert_eq!(job.coinbase.outputs[1].value_sat, 0);
    assert!(job.coinbase.outputs[1]
        .script_pubkey
        .starts_with(&[0x6a, 0x24, 0xaa, 0x21, 0xa9, 0xed]));
}

#[test]
fn coinbase_matches_rust_bitcoin_construction() {
    let payout = regtest_payout();
    let cb = build_coinbase_tx(840_000, 312_500_000, &[], &payout, 0x0102_0304_0506_0708)
        .expect("height fits");
    let expected_sig = ScriptBuilder::new()
        .push_int(840_000)
        .push_slice(0x0102_0304_0506_0708u64.to_le_bytes())
        .push_slice(b"prism-btc")
        .into_script();
    assert_eq!(cb.script_sig, expected_sig.to_bytes());
    assert!(cb.script_sig.ends_with(b"\x08\x08\x07\x06\x05\x04\x03\x02\x01\x09prism-btc"));
    assert_eq!((cb.version, cb.lock_time, cb.sequence), (2, 0, 0xffff_ffff));
    assert_eq!(cb.witness_reserved, [0u8; 32]);
    assert_eq!(cb.outputs.len(), 1);
    assert_eq!(cb.outputs[0].value_sat, 312_500_000);
    assert_eq!(cb.outputs[0].script_pubkey, payout);
}

#[test]
fn coinbase_rejects_height_beyond_i64() {
    let big = i64::MAX as u64 + 1;
    assert_eq!(
        build_coinbase_tx(big, 0, &[], &[], 0),
        Err(TemplateError::HeightOutOfRange(big))
    );
    assert_eq!(
        MiningJob::from_components([0; 32], big, 0, 0, 1, 0, &[], &[], &[], 0).unwrap_err(),
        TemplateError::HeightOutOfRange(big)
    );
}

#[test]
fn from_components_rejects_version_beyond_i32() {
    assert_eq!(
        MiningJob::from_components([0; 32], 1, 0, 0, 0x8000_0000, 0, &[], &[], &[], 0).unwrap_err(),
        TemplateError::VersionOutOfRange(0x8000_0000)
    );
}

#[test]
fn job_txids_and_merkle_root_match_rust_bitcoin() {
    let others = [some_tx(1), some_tx(2)];
    let other_txids: Vec<[u8; 32]> = others.iter().map(txid_bytes).collect();
    let job = MiningJob::from_components(
        [7u8; 32],
        100,
        0x1d00ffff,
        1_231_006_505,
        4,
        5_000_000_000,
        &[],
        &other_txids,
        &regtest_payout(),
        9,
    )
    .expect("job");
    assert_eq!(job.coinbase_txid, txid_bytes(&btc_coinbase(&job.coinbase)));
    assert_eq!(job.other_txids, other_txids);
    let leaves = [job.coinbase_txid, other_txids[0], other_txids[1]].map(|t| {
        <bitcoin::hashes::sha256d::Hash as bitcoin::hashes::Hash>::from_byte_array(t)
    });
    let root = bitcoin::merkle_tree::calculate_root(leaves.into_iter()).expect("non-empty");
    assert_eq!(
        job.header.merkle_root.0,
        <bitcoin::hashes::sha256d::Hash as bitcoin::hashes::Hash>::to_byte_array(root)
    );
    assert_eq!(job.header.prev_hash, [7u8; 32]);
    assert_eq!(job.header.version.0, 4);
    assert_eq!(job.header.timestamp.0, 1_231_006_505);
    assert_eq!(job.header.bits.0, 0x1d00ffff);
    assert_eq!(job.target.nbits, 0x1d00ffff);
}

#[test]
fn job_header_uses_the_protocol_merkle_root() {
    let cb = [0x11u8; 32];
    let others = [[0x22u8; 32], [0x33u8; 32]];
    let h = job_header([1; 32], 2, 3, 4, &cb, &others);
    assert_eq!(h.merkle_root.0, merkle_root_internal(&cb, &others));
    assert_eq!((h.version.0, h.timestamp.0, h.bits.0), (2, 3, 4));
    assert_eq!(h.prev_hash, [1; 32]);
}

fn template(transactions: Vec<Vec<u8>>) -> BlockTemplate {
    BlockTemplate {
        previous_block_hash: [3u8; 32],
        height: 10,
        bits: vec![0x20, 0x7f, 0xff, 0xff],
        current_time: 1_700_000_000,
        version: 0x2000_0000,
        coinbase_value_sat: 5_000_000_000,
        default_witness_commitment: Vec::new(),
        transactions,
    }
}

#[test]
fn from_template_decodes_transactions_and_builds_the_job() {
    let txs = [some_tx(5), some_tx(6)];
    let raws: Vec<Vec<u8>> = txs.iter().map(bitcoin::consensus::serialize).collect();
    let job = MiningJob::from_template_with_extranonce(&template(raws), &regtest_payout(), 3)
        .expect("template builds");
    let direct = MiningJob::from_components(
        [3u8; 32],
        10,
        0x207fffff,
        1_700_000_000,
        0x2000_0000,
        5_000_000_000,
        &[],
        &txs.iter().map(txid_bytes).collect::<Vec<_>>(),
        &regtest_payout(),
        3,
    )
    .unwrap();
    assert_eq!(job.header, direct.header);
    assert_eq!(job.other_txids, direct.other_txids);
}

#[test]
fn from_template_reports_the_first_undecodable_transaction() {
    let good = bitcoin::consensus::serialize(&some_tx(1));
    let r = MiningJob::from_template_with_extranonce(
        &template(vec![good.clone(), vec![0xde, 0xad], vec![]]),
        &regtest_payout(),
        0,
    );
    assert_eq!(r.unwrap_err(), JobError::UndecodableTransaction(1));
    let mut trailing = good;
    trailing.push(0);
    let r = MiningJob::from_template_with_extranonce(&template(vec![trailing]), &[], 0);
    assert_eq!(r.unwrap_err(), JobError::UndecodableTransaction(0));
}

#[test]
fn from_template_reports_field_errors_after_decoding() {
    let mut t = template(Vec::new());
    t.bits = vec![1, 2, 3];
    assert_eq!(
        MiningJob::from_template_with_extranonce(&t, &[], 0).unwrap_err(),
        JobError::Template(TemplateError::BitsLength(3))
    );
    let mut t = template(vec![vec![0xff]]);
    t.bits = vec![1, 2, 3];
    assert_eq!(
        MiningJob::from_template_with_extranonce(&t, &[], 0).unwrap_err(),
        JobError::UndecodableTransaction(0)
    );
    let mut t = template(Vec::new());
    t.current_time = u32::MAX as u64 + 1;
    assert_eq!(
        MiningJob::from_template_with_extranonce(&t, &[], 0).unwrap_err(),
        JobError::Template(TemplateError::TimeOutOfRange(u32::MAX as u64 + 1))
    );
}

#[test]
fn signet_gate_refuses_only_challenge_signets() {
    assert_eq!(signet_gate(false, &[]), Ok(()));
    assert_eq!(signet_gate(false, &[0x51]), Ok(()));
    assert_eq!(signet_gate(true, &[]), Ok(()));
    assert_eq!(
        signet_gate(true, &[0x51, 0x21]),
        Err(SignetError::ChallengeRequiresSigning(2))
    );
}

#[test]
fn feature_primitives_carry_their_shapes() {
    assert_eq!(PrevHash::iri(), "https://prism.btc/shape/PrevHash");
    assert_eq!(PrevHash::site_count(), 32);
    assert_eq!(PrevHash::cycle_size(), u64::MAX);
    assert_eq!(Nonce::iri(), "https://prism.btc/shape/Nonce");
    assert_eq!(Nonce::site_count(), 4);
    assert_eq!(Nonce::cycle_size(), 1u64 << 32);
}
