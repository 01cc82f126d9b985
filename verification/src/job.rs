//! The mining job: the coinbase transaction, the transaction ids, the
//! merkle root and the header template a nonce scan runs over.
//!
//! A job is built from a block template's plain values. The coinbase is a
//! version-2, lock-time-0 transaction spending the null outpoint; its
//! scriptSig pushes the block height (BIP34), the little-endian
//! extranonce and the tag `prism-btc`; its witness is the 32-byte zero
//! reserved value (BIP141); it pays the template's coinbase value to the
//! payout script and, when the template carries one, adds a zero-value
//! witness-commitment output. The header's merkle root is the protocol
//! merkle root of the coinbase txid followed by the template's txids.
//!
//! Rolling the extranonce changes the coinbase scriptSig, hence its txid
//! and the merkle root; every other header field stays the template's.

use vstd::prelude::*;

use bitcoin::{Amount, OutPoint, ScriptBuf, Sequence, Transaction, TxIn, TxOut, Txid, Witness};

use crate::domain::{Bits, BlockHeader, MerkleRoot, Target, Timestamp, Version};
use crate::ops::merkle::{digest_seqs, merkle_root_internal, merkle_spec};
use crate::template::{template_fields, template_fields_spec, TemplateError};

verus! {

// ─── Plain-value model of the coinbase ─────────────────────────────────

/// One transaction output: its value in satoshis and its locking script.
#[derive(Debug, Clone, PartialEq, Eq)]
pub struct TxOutput {
    /// The value in satoshis.
    pub value_sat: u64,
    /// The locking script bytes.
    pub script_pubkey: Vec<u8>,
}

/// The outputs as `(value, script)` pairs.
pub open spec fn outputs_view(outputs: Seq<TxOutput>) -> Seq<(u64, Seq<u8>)> {
    Seq::new(outputs.len(), |i: int| (outputs[i].value_sat, outputs[i].script_pubkey@))
}

/// A coinbase transaction: one input spending the null outpoint, with the
/// given scriptSig, sequence and single witness item.
#[derive(Debug, Clone, PartialEq, Eq)]
pub struct CoinbaseTx {
    /// The transaction version.
    pub version: i32,
    /// The lock time.
    pub lock_time: u32,
    /// The input's scriptSig.
    pub script_sig: Vec<u8>,
    /// The input's sequence number.
    pub sequence: u32,
    /// The input's single witness item.
    pub witness_reserved: [u8; 32],
    /// The outputs, in order.
    pub outputs: Vec<TxOutput>,
}

// ─── Calls into rust-bitcoin ───────────────────────────────────────────

/// What `bitcoin::script::Builder::push_int` appends for `n`: the minimal
/// script-number push.
pub uninterp spec fn script_int_push_of(n: i64) -> Seq<u8>;

/// The txid of the coinbase with these fields (the txid does not cover
/// the witness).
pub uninterp spec fn coinbase_txid_of(
    version: i32,
    lock_time: u32,
    script_sig: Seq<u8>,
    sequence: u32,
    outputs: Seq<(u64, Seq<u8>)>,
) -> Seq<u8>;

/// The txid of the transaction that `raw` consensus-decodes to, or `None`
/// when `raw` is not exactly one encoded transaction.
pub uninterp spec fn txid_of(raw: Seq<u8>) -> Option<Seq<u8>>;

/// The scriptSig `push_int(height) ‖ push_slice(extranonce) ‖
/// push_slice(tag)`, built with `bitcoin::script::Builder`.
///
/// The integer push is named; each slice push, for slices shorter than
/// `OP_PUSHDATA1` (76) as these are, is the length byte followed by the
/// bytes (`ScriptBuf::push_slice_no_opt`). `push_int` does not panic
/// for a non-negative integer.
#[verifier::external_body]
fn script_sig_bytes(height: i64, extranonce_le: [u8; 8], tag: [u8; 9]) -> (s: Vec<u8>)
    requires
        height >= 0,
    ensures
        s@ == script_int_push_of(height) + seq![8u8] + extranonce_le@ + seq![9u8] + tag@,
{
    bitcoin::script::Builder::new().push_int(height).push_slice(extranonce_le).push_slice(
        tag,
    ).into_bytes()
}

/// `bitcoin::Transaction::compute_txid` of the coinbase with these
/// fields, spending `OutPoint::null()`. The txid hashes the version,
/// inputs, outputs and lock time but no witness, so the input is built
/// with an empty one.
#[verifier::external_body]
fn coinbase_txid(
    version: i32,
    lock_time: u32,
    script_sig: &[u8],
    sequence: u32,
    outputs: &[TxOutput],
) -> (t: [u8; 32])
    ensures
        t@ == coinbase_txid_of(version, lock_time, script_sig@, sequence, outputs_view(outputs@)),
{
    let input = TxIn {
        previous_output: OutPoint::null(),
        script_sig: ScriptBuf::from_bytes(script_sig.to_vec()),
        sequence: Sequence(sequence),
        witness: Witness::new(),
    };
    let output = outputs.iter().map(
        |o| TxOut { value: Amount::from_sat(o.value_sat), script_pubkey: ScriptBuf::from_bytes(o.script_pubkey.clone()) },
    ).collect();
    let version = bitcoin::transaction::Version(version);
    let lock_time = bitcoin::absolute::LockTime::from_consensus(lock_time);
    let tx = Transaction { version, lock_time, input: vec![input], output };
    <Txid as bitcoin::hashes::Hash>::to_byte_array(tx.compute_txid())
}

/// `bitcoin::consensus::deserialize::<Transaction>` of `raw_tx`, then
/// `compute_txid` of the result; `None` when decoding fails.
#[verifier::external_body]
fn raw_txid(raw_tx: &[u8]) -> (t: Option<[u8; 32]>)
    ensures
        match txid_of(raw_tx@) {
            Some(x) => t matches Some(y) && y@ == x,
            None => t is None,
        },
{
    match bitcoin::consensus::deserialize::<Transaction>(raw_tx) {
        Ok(tx) => Some(<Txid as bitcoin::hashes::Hash>::to_byte_array(tx.compute_txid())),
        Err(_) => None,
    }
}

// ─── The coinbase ──────────────────────────────────────────────────────

/// The coinbase scriptSig tag, `prism-btc`.
pub open spec fn prism_tag() -> Seq<u8> {
    seq![112u8, 114u8, 105u8, 115u8, 109u8, 45u8, 98u8, 116u8, 99u8]
}

/// Little-endian bytes of a `u64`.
pub open spec fn le64(x: u64) -> Seq<u8> {
    seq![
        x as u8,
        (x >> 8u64) as u8,
        (x >> 16u64) as u8,
        (x >> 24u64) as u8,
        (x >> 32u64) as u8,
        (x >> 40u64) as u8,
        (x >> 48u64) as u8,
        (x >> 56u64) as u8,
    ]
}

/// The coinbase scriptSig for a height and an extranonce.
pub open spec fn coinbase_script_sig(height: i64, extranonce: u64) -> Seq<u8> {
    script_int_push_of(height) + seq![8u8] + le64(extranonce) + seq![9u8] + prism_tag()
}

/// The coinbase outputs: the payout, then the witness commitment when
/// there is one.
pub open spec fn coinbase_outputs(value_sat: u64, witness_commitment: Seq<u8>, payout_script: Seq<u8>) -> Seq<(u64, Seq<u8>)> {
    if witness_commitment.len() == 0 {
        seq![(value_sat, payout_script)]
    } else {
        seq![(value_sat, payout_script), (0u64, witness_commitment)]
    }
}

/// `cb` is the coinbase for these template values and extranonce.
pub open spec fn is_coinbase_for(
    cb: CoinbaseTx,
    height: i64,
    value_sat: u64,
    witness_commitment: Seq<u8>,
    payout_script: Seq<u8>,
    extranonce: u64,
) -> bool {
    &&& cb.version == 2
    &&& cb.lock_time == 0
    &&& cb.sequence == 0xffff_ffff
    &&& cb.witness_reserved@ == Seq::new(32, |i: int| 0u8)
    &&& cb.script_sig@ == coinbase_script_sig(height, extranonce)
    &&& outputs_view(cb.outputs@) == coinbase_outputs(value_sat, witness_commitment, payout_script)
}

/// The txid of a coinbase.
pub open spec fn txid_of_coinbase(cb: CoinbaseTx) -> Seq<u8> {
    coinbase_txid_of(cb.version, cb.lock_time, cb.script_sig@, cb.sequence, outputs_view(cb.outputs@))
}

fn le64_bytes(x: u64) -> (b: [u8; 8])
    ensures
        b@ == le64(x),
{
    let b = [
        x as u8,
        (x >> 8u64) as u8,
        (x >> 16u64) as u8,
        (x >> 24u64) as u8,
        (x >> 32u64) as u8,
        (x >> 40u64) as u8,
        (x >> 48u64) as u8,
        (x >> 56u64) as u8,
    ];
    assert(b@ =~= le64(x));
    b
}

/// Build the BIP141 coinbase for a template: height push, extranonce and
/// tag in the scriptSig, the zero witness reserved value, the payout
/// output and the witness-commitment output when there is one. A height
/// beyond `i64` cannot be pushed and is refused.
pub fn build_coinbase_tx(
    height: u64,
    coinbase_value_sat: u64,
    witness_commitment_script: &[u8],
    payout_script: &[u8],
    extranonce: u64,
) -> (r: Result<CoinbaseTx, TemplateError>)
    ensures
        height > i64::MAX ==> r == Err::<CoinbaseTx, TemplateError>(
            TemplateError::HeightOutOfRange(height),
        ),
        height <= i64::MAX ==> (r matches Ok(cb) && is_coinbase_for(
            cb,
            height as i64,
            coinbase_value_sat,
            witness_commitment_script@,
            payout_script@,
            extranonce,
        )),
{
    if height > 0x7fff_ffff_ffff_ffff {
        return Err(TemplateError::HeightOutOfRange(height));
    }
    let tag: [u8; 9] = [112, 114, 105, 115, 109, 45, 98, 116, 99];
    assert(tag@ =~= prism_tag());
    let script_sig = script_sig_bytes(height as i64, le64_bytes(extranonce), tag);
    let mut outputs: Vec<TxOutput> = Vec::new();
    outputs.push(
        TxOutput { value_sat: coinbase_value_sat, script_pubkey: vstd::slice::slice_to_vec(payout_script) },
    );
    if witness_commitment_script.len() > 0 {
        outputs.push(
            TxOutput { value_sat: 0, script_pubkey: vstd::slice::slice_to_vec(witness_commitment_script) },
        );
    }
    let cb = CoinbaseTx {
        version: 2,
        lock_time: 0,
        script_sig,
        sequence: 0xffff_ffff,
        witness_reserved: [0u8; 32],
        outputs,
    };
    assert(cb.witness_reserved@ =~= Seq::new(32, |i: int| 0u8));
    assert(outputs_view(cb.outputs@) =~= coinbase_outputs(
        coinbase_value_sat,
        witness_commitment_script@,
        payout_script@,
    ));
    Ok(cb)
}

// ─── The job ───────────────────────────────────────────────────────────

/// The header template of a job: the template's version, previous hash,
/// time and bits, and the merkle root of the coinbase txid followed by
/// the other txids.
pub fn job_header(
    prev_hash: [u8; 32],
    version: u32,
    time: u32,
    bits: u32,
    coinbase_txid: &[u8; 32],
    other_txids: &[[u8; 32]],
) -> (h: BlockHeader)
    ensures
        h.version.0 == version,
        h.prev_hash == prev_hash,
        h.timestamp.0 == time,
        h.bits.0 == bits,
        h.merkle_root.0@ == merkle_spec(digest_seqs(seq![*coinbase_txid] + other_txids@)),
{
    let root = merkle_root_internal(coinbase_txid, other_txids);
    BlockHeader {
        version: Version(version),
        prev_hash,
        merkle_root: MerkleRoot::from_bytes(root),
        timestamp: Timestamp(time),
        bits: Bits(bits),
    }
}

/// Everything a nonce scan and the block assembly need for one
/// (template, extranonce).
#[derive(Debug, Clone)]
pub struct MiningJob {
    /// The header template (its nonce is chosen by the scan).
    pub header: BlockHeader,
    /// The template's target.
    pub target: Target,
    /// The coinbase transaction.
    pub coinbase: CoinbaseTx,
    /// The coinbase txid (internal byte order).
    pub coinbase_txid: [u8; 32],
    /// The txids of the template's other transactions, in order.
    pub other_txids: Vec<[u8; 32]>,
}

impl MiningJob {
    /// The job is the one built from these template values and extranonce.
    pub open spec fn built_from(
        self,
        prev_hash: [u8; 32],
        height: i64,
        bits: u32,
        time: u32,
        version: u32,
        coinbase_value_sat: u64,
        witness_commitment: Seq<u8>,
        other_txids: Seq<Seq<u8>>,
        payout_script: Seq<u8>,
        extranonce: u64,
    ) -> bool {
        &&& is_coinbase_for(
            self.coinbase,
            height,
            coinbase_value_sat,
            witness_commitment,
            payout_script,
            extranonce,
        )
        &&& self.coinbase_txid@ == txid_of_coinbase(self.coinbase)
        &&& digest_seqs(self.other_txids@) == other_txids
        &&& self.header.version.0 == version
        &&& self.header.prev_hash == prev_hash
        &&& self.header.timestamp.0 == time
        &&& self.header.bits.0 == bits
        &&& self.header.merkle_root.0@ == merkle_spec(seq![self.coinbase_txid@] + other_txids)
        &&& self.target.nbits == bits
    }

    /// Build the job from checked-width template values: the coinbase
    /// first (refused when the height exceeds `i64`), then the version
    /// (refused when it exceeds `i32`), then the txids, merkle root and
    /// header.
    pub fn from_components(
        prev_hash: [u8; 32],
        height: u64,
        bits: u32,
        time: u32,
        version: u32,
        coinbase_value_sat: u64,
        witness_commitment_script: &[u8],
        other_txids: &[[u8; 32]],
        payout_script: &[u8],
        extranonce: u64,
    ) -> (r: Result<MiningJob, TemplateError>)
        ensures
            height > i64::MAX ==> r == Err::<MiningJob, TemplateError>(
                TemplateError::HeightOutOfRange(height),
            ),
            height <= i64::MAX && version > i32::MAX ==> r == Err::<MiningJob, TemplateError>(
                TemplateError::VersionOutOfRange(version),
            ),
            height <= i64::MAX && version <= i32::MAX ==> (r matches Ok(job) && job.built_from(
                prev_hash,
                height as i64,
                bits,
                time,
                version,
                coinbase_value_sat,
                witness_commitment_script@,
                digest_seqs(other_txids@),
                payout_script@,
                extranonce,
            )),
    {
        let coinbase = match build_coinbase_tx(
            height,
            coinbase_value_sat,
            witness_commitment_script,
            payout_script,
            extranonce,
        ) {
            Ok(cb) => cb,
            Err(e) => return Err(e),
        };
        if version > 0x7fff_ffff {
            return Err(TemplateError::VersionOutOfRange(version));
        }
        let cb_txid = coinbase_txid(
            coinbase.version,
            coinbase.lock_time,
            coinbase.script_sig.as_slice(),
            coinbase.sequence,
            coinbase.outputs.as_slice(),
        );
        let header = job_header(prev_hash, version, time, bits, &cb_txid, other_txids);
        proof {
            assert(digest_seqs(seq![cb_txid] + other_txids@) =~= seq![cb_txid@] + digest_seqs(
                other_txids@,
            ));
        }
        let others = vstd::slice::slice_to_vec(other_txids);
        Ok(
            MiningJob {
                header,
                target: Target::new(bits),
                coinbase,
                coinbase_txid: cb_txid,
                other_txids: others,
            },
        )
    }

    /// Build the job for a block template and an extranonce: every
    /// template transaction must decode (the first that does not is
    /// reported), then the template's fields must pass
    /// [`template_fields`], then [`MiningJob::from_components`] builds the
    /// job.
    pub fn from_template_with_extranonce(
        template: &BlockTemplate,
        payout_script: &[u8],
        extranonce: u64,
    ) -> (r: Result<MiningJob, JobError>)
        ensures
            !all_decode(raws_view(template.transactions@)) ==> (r matches Err(
                JobError::UndecodableTransaction(i),
            ) && {
                &&& i < template.transactions@.len()
                &&& txid_of(template.transactions@[i as int]@) is None
                &&& forall|j: int|
                    0 <= j < i ==> txid_of(#[trigger] template.transactions@[j]@) is Some
            }),
            all_decode(raws_view(template.transactions@)) ==> match template_fields_spec(
                template.bits@,
                template.current_time,
                template.height,
                template.version,
            ) {
                Err(e) => r == Err::<MiningJob, JobError>(JobError::Template(e)),
                Ok(f) => r matches Ok(job) && job.built_from(
                    template.previous_block_hash,
                    f.height,
                    f.bits,
                    f.time,
                    template.version,
                    template.coinbase_value_sat,
                    template.default_witness_commitment@,
                    txids_spec(raws_view(template.transactions@)),
                    payout_script@,
                    extranonce,
                ),
            },
    {
        let ghost raws = raws_view(template.transactions@);
        let n = template.transactions.len();
        let mut txids: Vec<[u8; 32]> = Vec::new();
        let mut i: usize = 0;
        while i < n
            invariant
                n == template.transactions@.len(),
                raws == raws_view(template.transactions@),
                i <= n,
                txids@.len() == i,
                forall|j: int| 0 <= j < i ==> txid_of(#[trigger] raws[j]) == Some(txids@[j]@),
            decreases n - i,
        {
            match raw_txid(template.transactions[i].as_slice()) {
                Some(t) => txids.push(t),
                None => {
                    proof {
                        assert(raws[i as int] == template.transactions@[i as int]@);
                        assert(!all_decode(raws));
                        assert forall|j: int| 0 <= j < i implies txid_of(
                            #[trigger] template.transactions@[j]@,
                        ) is Some by {
                            assert(raws[j] == template.transactions@[j]@);
                        }
                    }
                    return Err(JobError::UndecodableTransaction(i));
                },
            }
            i = i + 1;
        }
        assert(all_decode(raws));
        assert(digest_seqs(txids@) =~= txids_spec(raws));
        let fields = match template_fields(
            template.bits.as_slice(),
            template.current_time,
            template.height,
            template.version,
        ) {
            Ok(f) => f,
            Err(e) => return Err(JobError::Template(e)),
        };
        match MiningJob::from_components(
            template.previous_block_hash,
            template.height,
            fields.bits,
            fields.time,
            template.version,
            template.coinbase_value_sat,
            template.default_witness_commitment.as_slice(),
            txids.as_slice(),
            payout_script,
            extranonce,
        ) {
            Ok(job) => Ok(job),
            Err(e) => Err(JobError::Template(e)),
        }
    }
}

// ─── The block template ────────────────────────────────────────────────

/// The plain values of a `getblocktemplate` result that a job is built
/// from.
#[derive(Debug, Clone, PartialEq, Eq)]
pub struct BlockTemplate {
    /// The previous block hash (internal byte order).
    pub previous_block_hash: [u8; 32],
    /// The height of the block being mined.
    pub height: u64,
    /// The compact target, big-endian bytes.
    pub bits: Vec<u8>,
    /// The template time.
    pub current_time: u64,
    /// The block version.
    pub version: u32,
    /// The coinbase value in satoshis.
    pub coinbase_value_sat: u64,
    /// The witness-commitment script (empty when there is none).
    pub default_witness_commitment: Vec<u8>,
    /// The raw consensus encodings of the template's transactions.
    pub transactions: Vec<Vec<u8>>,
}

/// Why a job cannot be built from a template.
#[derive(Debug, Clone, Copy, PartialEq, Eq)]
pub enum JobError {
    /// The template transaction at this index does not decode.
    UndecodableTransaction(usize),
    /// A template field is out of range.
    Template(TemplateError),
}

/// The byte strings of the raw transactions.
pub open spec fn raws_view(raws: Seq<Vec<u8>>) -> Seq<Seq<u8>> {
    Seq::new(raws.len(), |i: int| raws[i]@)
}

/// Every raw transaction decodes.
pub open spec fn all_decode(raws: Seq<Seq<u8>>) -> bool {
    forall|i: int| 0 <= i < raws.len() ==> txid_of(#[trigger] raws[i]) is Some
}

/// The txids of raw transactions that all decode.
pub open spec fn txids_spec(raws: Seq<Seq<u8>>) -> Seq<Seq<u8>> {
    Seq::new(
        raws.len(),
        |i: int|
            match txid_of(raws[i]) {
                Some(t) => t,
                None => Seq::empty(),
            },
    )
}

// ─── The signet gate ───────────────────────────────────────────────────

/// Why a network's templates cannot be mined.
#[derive(Debug, Clone, Copy, PartialEq, Eq)]
pub enum SignetError {
    /// The signet has a challenge of this many bytes; its blocks need a
    /// BIP325 signature, which this miner does not produce.
    ChallengeRequiresSigning(usize),
}

/// The BIP325 gate: mining is refused on a signet whose challenge is
/// non-empty (its blocks must be signed); every other network, and a
/// signet without a challenge, passes.
pub fn signet_gate(is_signet: bool, signet_challenge: &[u8]) -> (r: Result<(), SignetError>)
    ensures
        r == (if is_signet && signet_challenge@.len() > 0 {
            Err(SignetError::ChallengeRequiresSigning(signet_challenge@.len() as usize))
        } else {
            Ok::<(), SignetError>(())
        }),
{
    if is_signet && signet_challenge.len() > 0 {
        Err(SignetError::ChallengeRequiresSigning(signet_challenge.len()))
    } else {
        Ok(())
    }
}

// ─── Laws ──────────────────────────────────────────────────────────────

/// Rolling the extranonce moves only the merkle root: two jobs built from
/// the same template values agree on the version, previous hash, time,
/// bits and target whatever their extranonces, and jobs with the same
/// extranonce are the same header template.
pub proof fn law_extranonce_moves_only_the_merkle_root(
    job1: MiningJob,
    job2: MiningJob,
    prev_hash: [u8; 32],
    height: i64,
    bits: u32,
    time: u32,
    version: u32,
    coinbase_value_sat: u64,
    witness_commitment: Seq<u8>,
    other_txids: Seq<Seq<u8>>,
    payout_script: Seq<u8>,
    extranonce1: u64,
    extranonce2: u64,
)
    requires
        job1.built_from(
            prev_hash,
            height,
            bits,
            time,
            version,
            coinbase_value_sat,
            witness_commitment,
            other_txids,
            payout_script,
            extranonce1,
        ),
        job2.built_from(
            prev_hash,
            height,
            bits,
            time,
            version,
            coinbase_value_sat,
            witness_commitment,
            other_txids,
            payout_script,
            extranonce2,
        ),
    ensures
        job1.header.version == job2.header.version,
        job1.header.prev_hash == job2.header.prev_hash,
        job1.header.timestamp == job2.header.timestamp,
        job1.header.bits == job2.header.bits,
        job1.target == job2.target,
        extranonce1 == extranonce2 ==> job1.coinbase_txid@ == job2.coinbase_txid@
            && job1.header.merkle_root.0@ == job2.header.merkle_root.0@,
{
    if extranonce1 == extranonce2 {
        assert(job1.coinbase.script_sig@ == job2.coinbase.script_sig@);
        assert(outputs_view(job1.coinbase.outputs@) == outputs_view(job2.coinbase.outputs@));
    }
}

} // verus!
