//! prism-btc — Bitcoin proof-of-work as content addressing, verified.
//!
//! A block header is serialized to its canonical 80-byte wire form; the
//! `sha256d` σ-axis (double SHA-256, display byte order) content-addresses
//! it; and the κ-label `sha256d:<64hex>` is the conventional Bitcoin block
//! hash. Admission under a difficulty target is Bitcoin's relation
//! `block_hash ≤ target`, decided on κ-labels: lowercase-hex order of equal
//! length labels is big-endian order of their digests.
//!
//! - [`address_block`] mints the κ-label of canonical-form bytes,
//!   unconditionally, with a witness carrying the content fingerprint of
//!   the realization's grounding certificate.
//! - [`mine_at`] recognizes one `(header, nonce)` candidate against a
//!   target; [`first_admitting`] and [`scan_template_nonces`] walk the
//!   nonce space for the first admitting candidate.
//! - [`MiningJob`] builds the coinbase, the txids, the merkle root and the
//!   header template for a block template and an extranonce; rolling the
//!   extranonce moves only the merkle root. [`signet_gate`] refuses
//!   templates of a signet whose blocks must be signed.
//! - [`KappaObservables`] / [`ExtendedObservables`] are the receiver-side
//!   lens on a digest; [`CampaignStats`] aggregates it over a session.
//! - The composition operations ([`compose_g2_product`] …) mint κ-labels
//!   of composed objects; [`merkle_root`] is the ordered product iterated.

pub mod address;
pub mod campaign;
pub mod commitment;
pub mod composition;
pub mod domain;
pub mod job;
pub mod model;
pub mod observables;
pub mod ops;
pub mod pipeline;
pub mod shapes;
pub mod template;

pub use address::{AddressOutcome, AddressWitness, KappaLabel, LabelDecodeError, VerifyError};
pub use campaign::{CampaignStats, PADIC_BINS, STRATUM_BINS};
pub use commitment::decode_payload;
pub use composition::{
    block_label_from_digest, compose_e6_filtration, compose_e7_augmentation, compose_e8_embedding,
    compose_f4_quotient, compose_g2_product, compose_ordered_product, merkle_root,
    CompositionCarrier, CompositionFailure, CompositionOutcome,
};
pub use domain::{
    p_adic_valuation, ultrametric_valuation, walsh_hadamard_parity_at, Bits, BlockHash,
    BlockHeader, MerkleRoot, Target, Timestamp, TriadicCoords, Version,
};
pub use job::{
    build_coinbase_tx, job_header, signet_gate, BlockTemplate, CoinbaseTx, JobError, MiningJob,
    SignetError, TxOutput,
};
pub use model::{
    grounding_fingerprint, BlockHeaderCarrier, Realization, BLOCK_ADDRESS_LABEL_BYTES, HEADER_BYTES,
};
pub use observables::{ExtendedObservables, KappaObservables, CANONICAL_PRIMES};
pub use ops::header::{serialize_header, serialize_prefix, splice_nonce};
pub use ops::merkle::merkle_root_internal;
pub use ops::sha256::{sha256, sha256d_display, sha256d_internal};
pub use pipeline::{
    address_block, first_admitting, mine_at, next_extranonce, scan_template_nonces,
    MiningFailure, MiningOutcome, MiningWitness,
};
pub use shapes::hasher::Sha256dHasher;
pub use template::{template_fields, TemplateError, TemplateFields};
