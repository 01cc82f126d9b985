//! Addressing and admission.
//!
//! [`address_block`] mints the κ-label of canonical-form header bytes
//! unconditionally. [`mine_at`] recognizes one `(header, nonce)`
//! candidate: it serializes the candidate, mints its κ-label and admits it
//! iff the κ-label is at most the target's κ-label — which is exactly
//! Bitcoin's `block_hash ≤ target`. [`first_admitting`] and
//! [`scan_template_nonces`] walk the 32-bit nonce space for the first
//! admitting candidate.

use vstd::prelude::*;

use crate::address::{
    label_spec, law_label_order_is_digest_order, AddressOutcome, AddressWitness, KappaLabel,
};
use crate::campaign::{record_values, sat_inc, CampaignStats, CampaignView};
use crate::domain::{
    bytes_le, p_adic_spec, popcount, satisfies_spec, stratum_spec, target_bytes_spec,
    BlockHeader, Target,
};
use crate::model::{grounding_fingerprint_spec, Realization};
use crate::observables::{observes, KappaObservables};
use crate::ops::header::{
    header_spec, law_prefix_splice_is_serialize, le32_value, serialize_header, wire_nonce,
};
use crate::ops::sha256::{sha256d_display, sha256d_display_spec};

verus! {

/// The display-order digest of the candidate `(header, nonce)`.
pub open spec fn candidate_digest(header: BlockHeader, nonce: u32) -> Seq<u8> {
    sha256d_display_spec(header_spec(header, nonce))
}

/// Does the candidate `(header, nonce)` satisfy the target?
pub open spec fn admits(target: Target, header: BlockHeader, nonce: u32) -> bool {
    satisfies_spec(target.nbits, candidate_digest(header, nonce))
}

/// The nonce stored in a wire-format header.
pub open spec fn nonce_of(wire: Seq<u8>) -> u32 {
    le32_value(wire.subrange(76, 80))
}

/// Mint the κ-label of canonical-form header bytes through the
/// block-address realization, with the witness attesting it. Total: every
/// byte string has a κ-label.
pub fn address_block(header_bytes: &[u8]) -> (o: AddressOutcome)
    ensures
        o.address@ == label_spec(sha256d_display_spec(header_bytes@)),
        o.witness.attested() == o.address@,
        o.witness.realization_of() == Realization::BlockAddress,
        o.witness.fingerprint_view() == grounding_fingerprint_spec(Realization::BlockAddress),
{
    let digest = sha256d_display(header_bytes);
    AddressOutcome::from_digest(Realization::BlockAddress, &digest)
}

/// The proof-of-work witness: the witness of a block's κ-label, grounded
/// through the block-address realization.
pub type MiningWitness = AddressWitness;

/// An admitted candidate: the witness of its κ-label and the 80-byte
/// wire-format header it attests. Every other observable is derived from
/// these two.
#[derive(Debug)]
pub struct MiningOutcome {
    /// The witness of the admitted κ-label.
    pub witness: AddressWitness,
    /// The 80-byte wire-format header the witness attests.
    pub wire_format_header: [u8; 80],
}

impl MiningOutcome {
    /// The admitted `sha256d:<64hex>` κ-label.
    pub fn address(&self) -> (label: KappaLabel)
        ensures
            label@ == self.witness.attested(),
    {
        self.witness.kappa_label()
    }

    /// The admitted nonce (little-endian bytes `[76..80)` of the header).
    pub fn nonce(&self) -> (n: u32)
        ensures
            n == nonce_of(self.wire_format_header@),
    {
        wire_nonce(&self.wire_format_header)
    }

    /// The 32-byte block hash in display order, re-derived from the wire
    /// bytes.
    pub fn digest(&self) -> (d: [u8; 32])
        ensures
            d@ == sha256d_display_spec(self.wire_format_header@),
    {
        sha256d_display(&self.wire_format_header)
    }

    /// The UOR property landscape of the block hash.
    pub fn observables(&self) -> (obs: KappaObservables)
        ensures
            observes(obs, sha256d_display_spec(self.wire_format_header@)),
    {
        KappaObservables::from_digest(&self.digest())
    }
}

/// Why a candidate was not admitted.
#[derive(Debug, Clone, Copy, PartialEq, Eq)]
pub enum MiningFailure {
    /// The candidate's κ-label exceeds the target's: the block hash does
    /// not satisfy the target.
    DidNotAdmit {
        /// The 80-byte wire-format header that did not admit.
        wire_format_header: [u8; 80],
    },
    /// A shape violation before admission; no candidate produces it.
    PipelineFailure,
}

impl MiningFailure {
    /// On `DidNotAdmit`, the rejected candidate's nonce.
    pub fn nonce(&self) -> (r: Option<u32>)
        ensures
            r == (match *self {
                MiningFailure::DidNotAdmit { wire_format_header } => Some(
                    nonce_of(wire_format_header@),
                ),
                MiningFailure::PipelineFailure => None,
            }),
    {
        match self {
            MiningFailure::DidNotAdmit { wire_format_header } => Some(
                wire_nonce(wire_format_header),
            ),
            MiningFailure::PipelineFailure => None,
        }
    }

    /// On `DidNotAdmit`, the rejected candidate's display-order digest.
    pub fn digest(&self) -> (r: Option<[u8; 32]>)
        ensures
            match *self {
                MiningFailure::DidNotAdmit { wire_format_header } => r matches Some(d) && d@
                    == sha256d_display_spec(wire_format_header@),
                MiningFailure::PipelineFailure => r is None,
            },
    {
        match self {
            MiningFailure::DidNotAdmit { wire_format_header } => Some(
                sha256d_display(wire_format_header),
            ),
            MiningFailure::PipelineFailure => None,
        }
    }

    /// On `DidNotAdmit`, the rejected candidate's UOR property landscape.
    pub fn observables(&self) -> (r: Option<KappaObservables>)
        ensures
            match *self {
                MiningFailure::DidNotAdmit { wire_format_header } => r matches Some(obs)
                    && observes(obs, sha256d_display_spec(wire_format_header@)),
                MiningFailure::PipelineFailure => r is None,
            },
    {
        match self.digest() {
            Some(d) => Some(KappaObservables::from_digest(&d)),
            None => None,
        }
    }
}

/// One recognition of the candidate `(header, nonce)` against `target`:
/// admitted iff its κ-label is at most the target's κ-label, that is iff
/// its block hash satisfies the target.
pub fn mine_at(header: &BlockHeader, target: Target, nonce: u32) -> (r: Result<
    MiningOutcome,
    MiningFailure,
>)
    ensures
        r is Ok <==> admits(target, *header, nonce),
        r matches Ok(o) ==> {
            &&& o.wire_format_header@ == header_spec(*header, nonce)
            &&& o.witness.attested() == label_spec(candidate_digest(*header, nonce))
            &&& o.witness.realization_of() == Realization::BlockAddress
            &&& o.witness.fingerprint_view() == grounding_fingerprint_spec(Realization::BlockAddress)
        },
        r matches Err(e) ==> (e matches MiningFailure::DidNotAdmit { wire_format_header }
            && wire_format_header@ == header_spec(*header, nonce)),
{
    let wire = serialize_header(header, nonce);
    let digest = sha256d_display(&wire);
    let witness = AddressWitness::seal(Realization::BlockAddress, &digest);
    let label = witness.kappa_label();
    let threshold = KappaLabel::from_digest(&target.to_bytes());
    let admitted = bytes_le(label.as_bytes(), threshold.as_bytes());
    proof {
        law_label_order_is_digest_order(digest@, target_bytes_spec(target.nbits));
    }
    if admitted {
        Ok(MiningOutcome { witness, wire_format_header: wire })
    } else {
        Err(MiningFailure::DidNotAdmit { wire_format_header: wire })
    }
}

/// The first admitting nonce for `header` under `target`, recognized by
/// [`mine_at`]; `None` when no nonce in the 32-bit space admits.
pub fn first_admitting(header: &BlockHeader, target: Target) -> (r: Option<MiningOutcome>)
    ensures
        match r {
            Some(o) => {
                &&& admits(target, *header, nonce_of(o.wire_format_header@))
                &&& o.wire_format_header@ == header_spec(*header, nonce_of(o.wire_format_header@))
                &&& o.witness.attested() == label_spec(sha256d_display_spec(o.wire_format_header@))
                &&& o.witness.realization_of() == Realization::BlockAddress
                &&& o.witness.fingerprint_view() == grounding_fingerprint_spec(Realization::BlockAddress)
                &&& forall|m: u32| m < nonce_of(o.wire_format_header@) ==> !admits(target, *header, m)
            },
            None => forall|m: u32| !admits(target, *header, m),
        },
{
    let mut nonce: u32 = 0;
    loop
        invariant
            forall|m: u32| m < nonce ==> !admits(target, *header, m),
        decreases u32::MAX - nonce,
    {
        match mine_at(header, target, nonce) {
            Ok(o) => {
                proof {
                    law_prefix_splice_is_serialize(*header, nonce);
                }
                return Some(o);
            },
            Err(_) => {},
        }
        if nonce == u32::MAX {
            return None;
        }
        nonce = nonce + 1;
    }
}

/// The campaign after recording the candidate with display-order digest
/// `d` (its observables are those of `d`).
pub open spec fn record_candidate(v: CampaignView, d: Seq<u8>) -> CampaignView {
    record_values(
        v,
        stratum_spec(d),
        popcount(d) % 2,
        p_adic_spec(d, 3),
        p_adic_spec(d, 5),
        p_adic_spec(d, 7),
        d,
    )
}

/// The campaign after recording the admitted candidate with digest `d`.
pub open spec fn admit_candidate(v: CampaignView, d: Seq<u8>) -> CampaignView {
    CampaignView { admissions: sat_inc(v.admissions), ..record_candidate(v, d) }
}

/// The campaign after recording the candidates at nonces `0..k`.
pub open spec fn scan_spec(v: CampaignView, header: BlockHeader, k: nat) -> CampaignView
    decreases k,
{
    if k == 0 {
        v
    } else {
        record_candidate(scan_spec(v, header, (k - 1) as nat), candidate_digest(header, (k - 1) as u32))
    }
}

/// The nonce search over one template: walk the 32-bit nonce space, mint
/// each candidate's κ-label, fold its observables into `campaign`, and
/// stop at the first candidate whose block hash satisfies `target`.
/// Returns that nonce and the witness of its κ-label.
pub fn scan_template_nonces(header: &BlockHeader, target: Target, campaign: &mut CampaignStats) -> (r:
    Option<(u32, AddressWitness)>)
    ensures
        match r {
            Some((n, w)) => {
                &&& admits(target, *header, n)
                &&& forall|m: u32| m < n ==> !admits(target, *header, m)
                &&& w.attested() == label_spec(candidate_digest(*header, n))
                &&& w.realization_of() == Realization::BlockAddress
                &&& w.fingerprint_view() == grounding_fingerprint_spec(Realization::BlockAddress)
                &&& final(campaign)@ == admit_candidate(
                    scan_spec(old(campaign)@, *header, n as nat),
                    candidate_digest(*header, n),
                )
            },
            None => {
                &&& forall|m: u32| !admits(target, *header, m)
                &&& final(campaign)@ == scan_spec(old(campaign)@, *header, 0x1_0000_0000)
            },
        },
{
    let mut nonce: u32 = 0;
    loop
        invariant
            forall|m: u32| m < nonce ==> !admits(target, *header, m),
            campaign@ == scan_spec(old(campaign)@, *header, nonce as nat),
        decreases u32::MAX - nonce,
    {
        let wire = serialize_header(header, nonce);
        let digest = sha256d_display(&wire);
        let observables = KappaObservables::from_digest(&digest);
        if target.is_satisfied_by_bytes(&digest) {
            campaign.record_admission(&observables, &digest);
            return Some((nonce, AddressWitness::seal(Realization::BlockAddress, &digest)));
        }
        campaign.record_attempt(&observables, &digest);
        if nonce == u32::MAX {
            return None;
        }
        nonce = nonce + 1;
    }
}

/// The next extranonce to roll to after a template's nonce space is
/// exhausted; `None` once the 64-bit extranonce space is exhausted too.
pub fn next_extranonce(extranonce: u64) -> (r: Option<u64>)
    ensures
        r == (if extranonce == u64::MAX {
            None
        } else {
            Some((extranonce + 1) as u64)
        }),
{
    let next = extranonce.wrapping_add(1);
    if next == 0 {
        None
    } else {
        Some(next)
    }
}

} // verus!
