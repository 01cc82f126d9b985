//! The composition operations on `sha256d` κ-labels.
//!
//! Each operation takes one or two operand κ-labels and mints a new
//! `sha256d` κ-label for the composed object in two steps:
//!
//! 1. **canonicalize** — apply the operation's byte-level discipline to
//!    the operands;
//! 2. **ground** — address the canonical bytes through the operation's
//!    own realization: the composed κ-label is the `sha256d` κ-label of
//!    those bytes, and its witness carries that realization's
//!    grounding-certificate fingerprint.
//!
//! | op | algebraic structure | byte-level discipline |
//! |----|---------------------|-----------------------|
//! | [`compose_g2_product`] | commutative binary product | lex-min-first concatenation |
//! | [`compose_f4_quotient`] | ± involution quotient | bitwise-complement lex-min |
//! | [`compose_e6_filtration`] | 2-class degree partition (8:1) | `first_byte mod 9` degree tag |
//! | [`compose_e7_augmentation`] | S₄-orbit equivalence | quarter-permutation lex-min |
//! | [`compose_e8_embedding`] | identity relation | identity on canonical-form bytes |
//! | [`compose_ordered_product`] | non-commutative binary product | ordered `left ‖ right` |
//!
//! Bitcoin's merkle tree is the ordered product iterated: [`merkle_root`]
//! folds adjacent pairs level by level, pairing the last element with
//! itself on odd arity. It is the display-order κ-label algebra; the
//! protocol merkle root (internal byte order) is
//! [`crate::ops::merkle::merkle_root_internal`].

use vstd::prelude::*;

use crate::address::{
    find_colon, hex_encode, label_spec, lemma_find_colon_range, sha256d_axis,
    AddressOutcome, KappaLabel,
};
use crate::domain::{
    bytes_le, lemma_lex_le_antisymmetric, lemma_lex_le_reflexive, lemma_lex_le_total,
    lemma_lex_le_transitive, lex_le,
};
use crate::model::{grounding_fingerprint_spec, Realization};
use crate::ops::sha256::{sha256d_display, sha256d_display_spec};

verus! {

broadcast use crate::address::lemma_label_len;

/// The σ-axis token every operand must carry.
pub const SHA256D_AXIS: &'static str = "sha256d";

/// The composed-address result: the `sha256d` κ-label and its witness.
pub type CompositionOutcome = AddressOutcome;

/// Failure modes of the composition operations.
#[derive(Debug, Clone, Copy, PartialEq, Eq)]
pub enum CompositionFailure {
    /// An operand is not a well-formed κ-label (no `:` separator, an
    /// unknown σ-axis, or a digest body that is not 64 lowercase hex
    /// digits), or `merkle_root` was given no leaves.
    MalformedOperand,
    /// An operand carries a known σ-axis other than `sha256d`.
    OperandSigmaAxisMismatch {
        /// The σ-axis the operation expects (`sha256d`).
        expected_axis: &'static str,
        /// The σ-axis the offending operand carries.
        operand_axis: &'static str,
    },
    /// A shape violation while grounding; no operand produces it.
    PipelineFailure,
}

/// The composition input carrier — a borrow of canonical-form bytes.
#[derive(Clone, Copy, Debug)]
pub struct CompositionCarrier<'a>(&'a [u8]);

impl<'a> CompositionCarrier<'a> {
    /// Wrap canonical-form bytes as an input handle.
    pub fn new(canonical_bytes: &'a [u8]) -> (c: Self)
        ensures
            c.bytes_view() == canonical_bytes@,
    {
        Self(canonical_bytes)
    }

    /// The bytes the handle borrows.
    pub closed spec fn bytes_view(self) -> Seq<u8> {
        self.0@
    }

    /// Borrow the canonical-form bytes.
    pub fn canonical_bytes(&self) -> (b: &'a [u8])
        ensures
            b@ == self.bytes_view(),
    {
        self.0
    }
}

// ─── Decoding operands ─────────────────────────────────────────────────

/// The value of a lowercase hex digit.
pub open spec fn hex_value(c: u8) -> Option<u8> {
    if 48 <= c <= 57 {
        Some((c - 48) as u8)
    } else if 97 <= c <= 102 {
        Some((c - 87) as u8)
    } else {
        None
    }
}

/// Decode lowercase hex, two digits per byte.
pub open spec fn hex_decode(h: Seq<u8>) -> Seq<u8> {
    Seq::new(
        h.len() / 2,
        |i: int| (hex_value(h[2 * i])->0 * 16 + hex_value(h[2 * i + 1])->0) as u8,
    )
}

/// The σ-axis token `sha256`.
pub open spec fn axis_sha256() -> Seq<u8> {
    seq![115u8, 104u8, 97u8, 50u8, 53u8, 54u8]
}

/// The σ-axis token `blake3`.
pub open spec fn axis_blake3() -> Seq<u8> {
    seq![98u8, 108u8, 97u8, 107u8, 101u8, 51u8]
}

/// The σ-axis token `sha3-256`.
pub open spec fn axis_sha3_256() -> Seq<u8> {
    seq![115u8, 104u8, 97u8, 51u8, 45u8, 50u8, 53u8, 54u8]
}

/// The σ-axis token `keccak256`.
pub open spec fn axis_keccak256() -> Seq<u8> {
    seq![107u8, 101u8, 99u8, 99u8, 97u8, 107u8, 50u8, 53u8, 54u8]
}

/// The σ-axis token `sha512`.
pub open spec fn axis_sha512() -> Seq<u8> {
    seq![115u8, 104u8, 97u8, 53u8, 49u8, 50u8]
}

/// The verdict on a σ-axis token: `sha256d` passes, another known σ-axis
/// is a mismatch, anything else is malformed.
pub open spec fn axis_check(axis: Seq<u8>) -> Result<(), CompositionFailure> {
    if axis == sha256d_axis() {
        Ok(())
    } else if axis == axis_sha256() {
        Err(CompositionFailure::OperandSigmaAxisMismatch { expected_axis: "sha256d", operand_axis: "sha256" })
    } else if axis == axis_blake3() {
        Err(CompositionFailure::OperandSigmaAxisMismatch { expected_axis: "sha256d", operand_axis: "blake3" })
    } else if axis == axis_sha3_256() {
        Err(CompositionFailure::OperandSigmaAxisMismatch { expected_axis: "sha256d", operand_axis: "sha3-256" })
    } else if axis == axis_keccak256() {
        Err(CompositionFailure::OperandSigmaAxisMismatch { expected_axis: "sha256d", operand_axis: "keccak256" })
    } else if axis == axis_sha512() {
        Err(CompositionFailure::OperandSigmaAxisMismatch { expected_axis: "sha256d", operand_axis: "sha512" })
    } else {
        Err(CompositionFailure::MalformedOperand)
    }
}

/// The verdict on an operand's σ-axis (the text before its first `:`).
pub open spec fn operand_axis_check(label: Seq<u8>) -> Result<(), CompositionFailure> {
    match find_colon(label, 0) {
        None => Err(CompositionFailure::MalformedOperand),
        Some(i) => axis_check(label.subrange(0, i)),
    }
}

/// The raw 32-byte digest an operand κ-label carries, or why it carries
/// none.
pub open spec fn decode_spec(label: Seq<u8>) -> Result<Seq<u8>, CompositionFailure> {
    match find_colon(label, 0) {
        None => Err(CompositionFailure::MalformedOperand),
        Some(i) => match axis_check(label.subrange(0, i)) {
            Err(e) => Err(e),
            Ok(_) => {
                let h = label.subrange(i + 1, label.len() as int);
                if h.len() == 64 && forall|j: int| 0 <= j < 64 ==> (#[trigger] hex_value(h[j])) is Some {
                    Ok(hex_decode(h))
                } else {
                    Err(CompositionFailure::MalformedOperand)
                }
            },
        },
    }
}

/// The value of a lowercase hex digit.
fn hex_nibble(b: u8) -> (r: Option<u8>)
    ensures
        r == hex_value(b),
{
    if 48 <= b && b <= 57 {
        Some(b - 48)
    } else if 97 <= b && b <= 102 {
        Some(b - 87)
    } else {
        None
    }
}

/// Byte-for-byte equality of two slices.
pub(crate) fn same_bytes(a: &[u8], b: &[u8]) -> (r: bool)
    ensures
        r == (a@ == b@),
{
    if a.len() != b.len() {
        return false;
    }
    let mut i: usize = 0;
    while i < a.len()
        invariant
            a.len() == b.len(),
            i <= a.len(),
            forall|j: int| 0 <= j < i ==> a@[j] == b@[j],
        decreases a.len() - i,
    {
        if a[i] != b[i] {
            return false;
        }
        i = i + 1;
    }
    assert(a@ =~= b@);
    true
}

/// Require the σ-axis token to be `sha256d`.
fn require_sha256d(axis: &[u8]) -> (r: Result<(), CompositionFailure>)
    ensures
        r == axis_check(axis@),
{
    let sha256d: [u8; 7] = [115, 104, 97, 50, 53, 54, 100];
    let sha256: [u8; 6] = [115, 104, 97, 50, 53, 54];
    let blake3: [u8; 6] = [98, 108, 97, 107, 101, 51];
    let sha3_256: [u8; 8] = [115, 104, 97, 51, 45, 50, 53, 54];
    let keccak256: [u8; 9] = [107, 101, 99, 99, 97, 107, 50, 53, 54];
    let sha512: [u8; 6] = [115, 104, 97, 53, 49, 50];
    assert(sha256d@ =~= sha256d_axis());
    assert(sha256@ =~= axis_sha256());
    assert(blake3@ =~= axis_blake3());
    assert(sha3_256@ =~= axis_sha3_256());
    assert(keccak256@ =~= axis_keccak256());
    assert(sha512@ =~= axis_sha512());
    if same_bytes(axis, sha256d.as_slice()) {
        Ok(())
    } else if same_bytes(axis, sha256.as_slice()) {
        Err(CompositionFailure::OperandSigmaAxisMismatch { expected_axis: "sha256d", operand_axis: "sha256" })
    } else if same_bytes(axis, blake3.as_slice()) {
        Err(CompositionFailure::OperandSigmaAxisMismatch { expected_axis: "sha256d", operand_axis: "blake3" })
    } else if same_bytes(axis, sha3_256.as_slice()) {
        Err(CompositionFailure::OperandSigmaAxisMismatch { expected_axis: "sha256d", operand_axis: "sha3-256" })
    } else if same_bytes(axis, keccak256.as_slice()) {
        Err(CompositionFailure::OperandSigmaAxisMismatch { expected_axis: "sha256d", operand_axis: "keccak256" })
    } else if same_bytes(axis, sha512.as_slice()) {
        Err(CompositionFailure::OperandSigmaAxisMismatch { expected_axis: "sha256d", operand_axis: "sha512" })
    } else {
        Err(CompositionFailure::MalformedOperand)
    }
}

/// Check an operand's σ-axis.
fn check_operand_axis(operand: &KappaLabel) -> (r: Result<(), CompositionFailure>)
    ensures
        r == operand_axis_check(operand@),
{
    proof {
        lemma_find_colon_range(operand@, 0);
    }
    match operand.colon_index() {
        None => Err(CompositionFailure::MalformedOperand),
        Some(i) => {
            let all = operand.as_bytes();
            let axis = &all[0..i];
            require_sha256d(axis)
        },
    }
}

/// Decode an operand κ-label's raw 32-byte digest, validating that its
/// σ-axis is `sha256d` and its body is 64 lowercase hex digits.
fn decode_operand(operand: &KappaLabel) -> (r: Result<[u8; 32], CompositionFailure>)
    ensures
        match decode_spec(operand@) {
            Ok(d) => r matches Ok(raw) && raw@ == d,
            Err(e) => r == Err::<[u8; 32], CompositionFailure>(e),
        },
{
    proof {
        lemma_find_colon_range(operand@, 0);
    }
    let i = match operand.colon_index() {
        None => return Err(CompositionFailure::MalformedOperand),
        Some(i) => i,
    };
    let all = operand.as_bytes();
    let axis = &all[0..i];
    assert(axis@ == operand@.subrange(0, i as int));
    match require_sha256d(axis) {
        Err(e) => return Err(e),
        Ok(_) => {},
    }
    assert(axis@ == sha256d_axis());
    assert(i == 7);
    let ghost h = operand@.subrange(8, 72);
    let mut raw = [0u8; 32];
    let mut k: usize = 0;
    while k < 32
        invariant
            i == 7,
            find_colon(operand@, 0) == Some(7int),
            axis_check(operand@.subrange(0, 7)) == Ok::<(), CompositionFailure>(()),
            all@ == operand@,
            all@.len() == 72,
            h == operand@.subrange(8, 72),
            k <= 32,
            forall|j: int| 0 <= j < 2 * k ==> (#[trigger] hex_value(h[j])) is Some,
            forall|j: int| 0 <= j < k ==> raw[j] == hex_decode(h)[j],
        decreases 32 - k,
    {
        let hi = match hex_nibble(all[8 + 2 * k]) {
            Some(v) => v,
            None => {
                assert(hex_value(h[2 * k as int]) is None);
                return Err(CompositionFailure::MalformedOperand);
            },
        };
        let lo = match hex_nibble(all[8 + 2 * k + 1]) {
            Some(v) => v,
            None => {
                assert(hex_value(h[2 * k + 1]) is None);
                return Err(CompositionFailure::MalformedOperand);
            },
        };
        assert(hi < 16 && lo < 16);
        assert((hi << 4u8) | lo == hi * 16 + lo) by (bit_vector)
            requires
                hi < 16,
                lo < 16,
        ;
        raw[k] = (hi << 4u8) | lo;
        k = k + 1;
    }
    assert(raw@ =~= hex_decode(h));
    Ok(raw)
}

// ─── Grounding ─────────────────────────────────────────────────────────

/// `r` is the grounding of the canonical form `prep` computes, or the
/// failure it reports.
pub open spec fn grounds(
    r: Result<CompositionOutcome, CompositionFailure>,
    prep: Result<Seq<u8>, CompositionFailure>,
    realization: Realization,
) -> bool {
    match prep {
        Ok(c) => r matches Ok(o) && {
            &&& o.address@ == label_spec(sha256d_display_spec(c))
            &&& o.witness.attested() == o.address@
            &&& o.witness.realization_of() == realization
            &&& o.witness.fingerprint_view() == grounding_fingerprint_spec(realization)
        },
        Err(e) => r == Err::<CompositionOutcome, CompositionFailure>(e),
    }
}

/// Address canonical-form bytes through a composition realization.
fn ground(realization: Realization, canonical: &[u8]) -> (o: CompositionOutcome)
    ensures
        o.address@ == label_spec(sha256d_display_spec(canonical@)),
        o.witness.attested() == o.address@,
        o.witness.realization_of() == realization,
        o.witness.fingerprint_view() == grounding_fingerprint_spec(realization),
{
    let digest = sha256d_display(canonical);
    AddressOutcome::from_digest(realization, &digest)
}

/// The κ-label of a 32-byte display-order digest.
pub fn block_label_from_digest(display_digest: &[u8; 32]) -> (label: KappaLabel)
    ensures
        label@ == label_spec(display_digest@),
{
    KappaLabel::from_digest(display_digest)
}

/// The concatenation of two byte strings.
fn concat(a: &[u8], b: &[u8]) -> (c: Vec<u8>)
    requires
        a.len() + b.len() <= usize::MAX,
    ensures
        c@ == a@ + b@,
{
    let mut c: Vec<u8> = Vec::with_capacity(a.len() + b.len());
    for i in 0..a.len()
        invariant
            c@ == a@.subrange(0, i as int),
    {
        c.push(a[i]);
        assert(c@ =~= a@.subrange(0, i + 1));
    }
    for i in 0..b.len()
        invariant
            c@ == a@ + b@.subrange(0, i as int),
    {
        c.push(b[i]);
        assert(c@ =~= a@ + b@.subrange(0, i + 1));
    }
    assert(a@.subrange(0, a.len() as int) =~= a@);
    assert(b@.subrange(0, b.len() as int) =~= b@);
    c
}

// ─── The operations ────────────────────────────────────────────────────

/// The canonical form of the commutative product: the two κ-labels
/// concatenated, lexicographically smaller first.
pub open spec fn g2_canonical(l: Seq<u8>, r: Seq<u8>) -> Seq<u8> {
    if lex_le(l, r) {
        l + r
    } else {
        r + l
    }
}

/// The canonical form of CS-G2 on two operands, or the first operand's
/// σ-axis failure.
pub open spec fn g2_prep(l: Seq<u8>, r: Seq<u8>) -> Result<Seq<u8>, CompositionFailure> {
    match operand_axis_check(l) {
        Err(e) => Err(e),
        Ok(_) => match operand_axis_check(r) {
            Err(e) => Err(e),
            Ok(_) => Ok(g2_canonical(l, r)),
        },
    }
}

/// **CS-G2** — commutative binary product: the lex-min-first
/// concatenation of the two operand κ-labels, grounded.
pub fn compose_g2_product(left: &KappaLabel, right: &KappaLabel) -> (r: Result<CompositionOutcome, CompositionFailure>)
    ensures
        grounds(r, g2_prep(left@, right@), Realization::G2Product),
{
    match check_operand_axis(left) {
        Err(e) => return Err(e),
        Ok(_) => {},
    }
    match check_operand_axis(right) {
        Err(e) => return Err(e),
        Ok(_) => {},
    }
    let (l, r) = (left.as_bytes(), right.as_bytes());
    let canon = if bytes_le(l, r) {
        concat(l, r)
    } else {
        concat(r, l)
    };
    Ok(ground(Realization::G2Product, canon.as_slice()))
}

/// The bitwise complement of a byte string.
pub open spec fn complement(d: Seq<u8>) -> Seq<u8> {
    Seq::new(d.len(), |i: int| !d[i])
}

/// The ± quotient representative: the lexicographically smaller of a
/// digest and its complement.
pub open spec fn f4_min(d: Seq<u8>) -> Seq<u8> {
    if lex_le(d, complement(d)) {
        d
    } else {
        complement(d)
    }
}

/// The canonical form of CS-F4 on an operand, or why its digest cannot
/// be decoded.
pub open spec fn f4_prep(op: Seq<u8>) -> Result<Seq<u8>, CompositionFailure> {
    match decode_spec(op) {
        Err(e) => Err(e),
        Ok(raw) => Ok(label_spec(f4_min(raw))),
    }
}

/// **CS-F4** — ± involution quotient: the lex-min of the raw digest and
/// its complement, re-emitted as a `sha256d` κ-label, grounded.
pub fn compose_f4_quotient(operand: &KappaLabel) -> (r: Result<CompositionOutcome, CompositionFailure>)
    ensures
        grounds(r, f4_prep(operand@), Realization::F4Quotient),
{
    let raw = match decode_operand(operand) {
        Err(e) => return Err(e),
        Ok(raw) => raw,
    };
    let mut comp = [0u8; 32];
    for i in 0..32
        invariant
            forall|j: int| 0 <= j < i ==> comp[j] == !raw[j],
    {
        comp[i] = !raw[i];
    }
    assert(comp@ =~= complement(raw@));
    let canon_raw = if bytes_le(&raw, &comp) {
        raw
    } else {
        comp
    };
    let label = KappaLabel::from_digest(&canon_raw);
    Ok(ground(Realization::F4Quotient, label.as_bytes()))
}

/// The degree tag of a first raw byte: `0x05` when `b mod 9 ≤ 7`, else
/// `0x06`.
pub open spec fn e6_tag(b: u8) -> u8 {
    if b % 9 <= 7 {
        5
    } else {
        6
    }
}

/// The canonical form of CS-E6 on an operand, or why its digest cannot
/// be decoded.
pub open spec fn e6_prep(op: Seq<u8>) -> Result<Seq<u8>, CompositionFailure> {
    match decode_spec(op) {
        Err(e) => Err(e),
        Ok(raw) => Ok(seq![e6_tag(raw[0])] + op),
    }
}

/// **CS-E6** — degree-partition filtration: the operand κ-label prefixed
/// by the degree tag of its first raw byte, grounded.
pub fn compose_e6_filtration(operand: &KappaLabel) -> (r: Result<CompositionOutcome, CompositionFailure>)
    ensures
        grounds(r, e6_prep(operand@), Realization::E6Filtration),
{
    let raw = match decode_operand(operand) {
        Err(e) => return Err(e),
        Ok(raw) => raw,
    };
    let tag: [u8; 1] = [if raw[0] % 9 <= 7 {
        5
    } else {
        6
    }];
    assert(tag@ =~= seq![e6_tag(raw@[0])]);
    let canon = concat(tag.as_slice(), operand.as_bytes());
    Ok(ground(Realization::E6Filtration, canon.as_slice()))
}

/// The `k`-th permutation of the four quarters (the 24 elements of S₄ in
/// lexicographic order).
pub open spec fn s4_perm(k: int) -> Seq<int> {
    if k == 0 {
        seq![0int, 1, 2, 3]
    } else if k == 1 {
        seq![0int, 1, 3, 2]
    } else if k == 2 {
        seq![0int, 2, 1, 3]
    } else if k == 3 {
        seq![0int, 2, 3, 1]
    } else if k == 4 {
        seq![0int, 3, 1, 2]
    } else if k == 5 {
        seq![0int, 3, 2, 1]
    } else if k == 6 {
        seq![1int, 0, 2, 3]
    } else if k == 7 {
        seq![1int, 0, 3, 2]
    } else if k == 8 {
        seq![1int, 2, 0, 3]
    } else if k == 9 {
        seq![1int, 2, 3, 0]
    } else if k == 10 {
        seq![1int, 3, 0, 2]
    } else if k == 11 {
        seq![1int, 3, 2, 0]
    } else if k == 12 {
        seq![2int, 0, 1, 3]
    } else if k == 13 {
        seq![2int, 0, 3, 1]
    } else if k == 14 {
        seq![2int, 1, 0, 3]
    } else if k == 15 {
        seq![2int, 1, 3, 0]
    } else if k == 16 {
        seq![2int, 3, 0, 1]
    } else if k == 17 {
        seq![2int, 3, 1, 0]
    } else if k == 18 {
        seq![3int, 0, 1, 2]
    } else if k == 19 {
        seq![3int, 0, 2, 1]
    } else if k == 20 {
        seq![3int, 1, 0, 2]
    } else if k == 21 {
        seq![3int, 1, 2, 0]
    } else if k == 22 {
        seq![3int, 2, 0, 1]
    } else {
        seq![3int, 2, 1, 0]
    }
}

/// The digest with its four 8-byte quarters rearranged by `p`.
pub open spec fn permute_quarters(d: Seq<u8>, p: Seq<int>) -> Seq<u8> {
    d.subrange(8 * p[0], 8 * p[0] + 8) + d.subrange(8 * p[1], 8 * p[1] + 8) + d.subrange(
        8 * p[2],
        8 * p[2] + 8,
    ) + d.subrange(8 * p[3], 8 * p[3] + 8)
}

/// Strict lexicographic order.
pub open spec fn lex_lt(a: Seq<u8>, b: Seq<u8>) -> bool {
    lex_le(a, b) && a != b
}

/// The running minimum over the first `k + 1` quarter permutations,
/// replaced only by a strictly smaller candidate.
pub open spec fn s4_min_upto(d: Seq<u8>, k: nat) -> Seq<u8>
    decreases k,
{
    if k == 0 {
        permute_quarters(d, s4_perm(0))
    } else {
        let best = s4_min_upto(d, (k - 1) as nat);
        let cand = permute_quarters(d, s4_perm(k as int));
        if lex_lt(cand, best) {
            cand
        } else {
            best
        }
    }
}

/// The canonical form of CS-E7 on an operand, or why its digest cannot
/// be decoded.
pub open spec fn e7_prep(op: Seq<u8>) -> Result<Seq<u8>, CompositionFailure> {
    match decode_spec(op) {
        Err(e) => Err(e),
        Ok(raw) => Ok(label_spec(s4_min_upto(raw, 23))),
    }
}

/// The `k`-th quarter permutation.
fn s4_perm_exec(k: usize) -> (p: [usize; 4])
    requires
        k < 24,
    ensures
        forall|j: int| 0 <= j < 4 ==> p[j] == s4_perm(k as int)[j],
        forall|j: int| 0 <= j < 4 ==> p[j] < 4,
{
    if k == 0 {
        [0, 1, 2, 3]
    } else if k == 1 {
        [0, 1, 3, 2]
    } else if k == 2 {
        [0, 2, 1, 3]
    } else if k == 3 {
        [0, 2, 3, 1]
    } else if k == 4 {
        [0, 3, 1, 2]
    } else if k == 5 {
        [0, 3, 2, 1]
    } else if k == 6 {
        [1, 0, 2, 3]
    } else if k == 7 {
        [1, 0, 3, 2]
    } else if k == 8 {
        [1, 2, 0, 3]
    } else if k == 9 {
        [1, 2, 3, 0]
    } else if k == 10 {
        [1, 3, 0, 2]
    } else if k == 11 {
        [1, 3, 2, 0]
    } else if k == 12 {
        [2, 0, 1, 3]
    } else if k == 13 {
        [2, 0, 3, 1]
    } else if k == 14 {
        [2, 1, 0, 3]
    } else if k == 15 {
        [2, 1, 3, 0]
    } else if k == 16 {
        [2, 3, 0, 1]
    } else if k == 17 {
        [2, 3, 1, 0]
    } else if k == 18 {
        [3, 0, 1, 2]
    } else if k == 19 {
        [3, 0, 2, 1]
    } else if k == 20 {
        [3, 1, 0, 2]
    } else if k == 21 {
        [3, 1, 2, 0]
    } else if k == 22 {
        [3, 2, 0, 1]
    } else {
        [3, 2, 1, 0]
    }
}

/// The digest with its quarters rearranged by the `k`-th permutation.
fn permuted(raw: &[u8; 32], k: usize) -> (out: [u8; 32])
    requires
        k < 24,
    ensures
        out@ == permute_quarters(raw@, s4_perm(k as int)),
{
    let p = s4_perm_exec(k);
    let ghost target = permute_quarters(raw@, s4_perm(k as int));
    let mut out = [0u8; 32];
    for i in 0..32
        invariant
            forall|j: int| 0 <= j < 4 ==> p[j] == s4_perm(k as int)[j] && p[j] < 4,
            target == permute_quarters(raw@, s4_perm(k as int)),
            forall|j: int| 0 <= j < i ==> out[j] == target[j],
    {
        let q = p[i / 8];
        out[i] = raw[8 * q + i % 8];
    }
    assert(out@ =~= target);
    out
}

/// Strict lexicographic `<` on two 32-byte values.
fn bytes_lt(a: &[u8; 32], b: &[u8; 32]) -> (r: bool)
    ensures
        r == lex_lt(a@, b@),
{
    let le = bytes_le(a, b);
    if !le {
        return false;
    }
    let mut i: usize = 0;
    while i < 32
        invariant
            i <= 32,
            le == lex_le(a@, b@),
            le,
            forall|j: int| 0 <= j < i ==> a@[j] == b@[j],
        decreases 32 - i,
    {
        if a[i] != b[i] {
            assert(a@[i as int] != b@[i as int]);
            return true;
        }
        i = i + 1;
    }
    assert(a@ =~= b@);
    false
}

/// **CS-E7** — S₄-orbit augmentation: the lex-min over the 24
/// rearrangements of the raw digest's four quarters, re-emitted as a
/// `sha256d` κ-label, grounded.
pub fn compose_e7_augmentation(operand: &KappaLabel) -> (r: Result<CompositionOutcome, CompositionFailure>)
    ensures
        grounds(r, e7_prep(operand@), Realization::E7Augmentation),
{
    let raw = match decode_operand(operand) {
        Err(e) => return Err(e),
        Ok(raw) => raw,
    };
    let mut best = permuted(&raw, 0);
    for k in 1..24
        invariant
            best@ == s4_min_upto(raw@, (k - 1) as nat),
    {
        let cand = permuted(&raw, k);
        if bytes_lt(&cand, &best) {
            best = cand;
        }
    }
    let label = KappaLabel::from_digest(&best);
    Ok(ground(Realization::E7Augmentation, label.as_bytes()))
}

/// The canonical form of CS-E8 on an operand (the operand itself), or its
/// σ-axis failure.
pub open spec fn e8_prep(op: Seq<u8>) -> Result<Seq<u8>, CompositionFailure> {
    match operand_axis_check(op) {
        Err(e) => Err(e),
        Ok(_) => Ok(op),
    }
}

/// **CS-E8** — direct embedding: the operand κ-label itself, grounded.
pub fn compose_e8_embedding(operand: &KappaLabel) -> (r: Result<CompositionOutcome, CompositionFailure>)
    ensures
        grounds(r, e8_prep(operand@), Realization::E8Embedding),
{
    match check_operand_axis(operand) {
        Err(e) => return Err(e),
        Ok(_) => {},
    }
    Ok(ground(Realization::E8Embedding, operand.as_bytes()))
}

/// The canonical form of the ordered product (`left ‖ right` raw
/// digests), or the first operand's decoding failure.
pub open spec fn ordered_prep(l: Seq<u8>, r: Seq<u8>) -> Result<Seq<u8>, CompositionFailure> {
    match decode_spec(l) {
        Err(e) => Err(e),
        Ok(a) => match decode_spec(r) {
            Err(e) => Err(e),
            Ok(b) => Ok(a + b),
        },
    }
}

/// **Ordered binary product** — the two operands' raw digests
/// concatenated in order (`left ‖ right`), grounded. The Bitcoin
/// merkle-node combiner; order-sensitive.
pub fn compose_ordered_product(left: &KappaLabel, right: &KappaLabel) -> (r: Result<CompositionOutcome, CompositionFailure>)
    ensures
        grounds(r, ordered_prep(left@, right@), Realization::OrderedProduct),
{
    let l = match decode_operand(left) {
        Err(e) => return Err(e),
        Ok(raw) => raw,
    };
    let r = match decode_operand(right) {
        Err(e) => return Err(e),
        Ok(raw) => raw,
    };
    let canon = concat(l.as_slice(), r.as_slice());
    Ok(ground(Realization::OrderedProduct, canon.as_slice()))
}

// ─── Merkle root as iterated composition ───────────────────────────────

/// The κ-labels of a sequence of labels.
pub open spec fn labels_view(v: Seq<KappaLabel>) -> Seq<Seq<u8>> {
    Seq::new(v.len(), |i: int| v[i]@)
}

/// The κ-label of the ordered product of two operands, or its failure.
pub open spec fn ordered_address(l: Seq<u8>, r: Seq<u8>) -> Result<Seq<u8>, CompositionFailure> {
    match ordered_prep(l, r) {
        Err(e) => Err(e),
        Ok(c) => Ok(label_spec(sha256d_display_spec(c))),
    }
}

/// The first `k` nodes of the next level: node `i` combines leaves `2i`
/// and `2i + 1` (the last leaf with itself on odd arity); the first
/// failure, left to right, is the level's failure.
pub open spec fn level_upto(ls: Seq<Seq<u8>>, k: nat) -> Result<Seq<Seq<u8>>, CompositionFailure>
    decreases k,
{
    if k == 0 {
        Ok(Seq::empty())
    } else {
        match level_upto(ls, (k - 1) as nat) {
            Err(e) => Err(e),
            Ok(prev) => {
                let i = 2 * (k - 1);
                let right = if i + 1 < ls.len() {
                    ls[i + 1]
                } else {
                    ls[i]
                };
                match ordered_address(ls[i], right) {
                    Err(e) => Err(e),
                    Ok(node) => Ok(prev.push(node)),
                }
            },
        }
    }
}

/// The next level of the tree.
pub open spec fn level_spec(ls: Seq<Seq<u8>>) -> Result<Seq<Seq<u8>>, CompositionFailure> {
    level_upto(ls, ((ls.len() + 1) / 2) as nat)
}

/// A successful partial level has one node per pair.
proof fn lemma_level_upto_len(ls: Seq<Seq<u8>>, k: nat)
    ensures
        level_upto(ls, k) matches Ok(p) ==> p.len() == k,
    decreases k,
{
    if k > 0 {
        lemma_level_upto_len(ls, (k - 1) as nat);
    }
}

/// A failure in the first `a` nodes is the failure of the first `b ≥ a`.
proof fn lemma_level_upto_err(ls: Seq<Seq<u8>>, a: nat, b: nat)
    requires
        a <= b,
        level_upto(ls, a) is Err,
    ensures
        level_upto(ls, b) == level_upto(ls, a),
    decreases b - a,
{
    if b > a {
        lemma_level_upto_err(ls, a, (b - 1) as nat);
    }
}

/// The merkle root of a sequence of κ-labels: the leaf itself for one
/// leaf, the root of the next level otherwise; no leaves is malformed.
#[verifier::opaque]
pub open spec fn merkle_labels(ls: Seq<Seq<u8>>) -> Result<Seq<u8>, CompositionFailure>
    decreases ls.len(),
{
    if ls.len() == 0 {
        Err(CompositionFailure::MalformedOperand)
    } else if ls.len() == 1 {
        Ok(ls[0])
    } else {
        match level_spec(ls) {
            Err(e) => Err(e),
            Ok(next) => if next.len() < ls.len() {
                merkle_labels(next)
            } else {
                Err(CompositionFailure::MalformedOperand)
            },
        }
    }
}

/// One step of the merkle recurrence on two or more leaves.
proof fn lemma_merkle_step(ls: Seq<Seq<u8>>)
    requires
        ls.len() >= 2,
    ensures
        match level_spec(ls) {
            Ok(n) => n.len() < ls.len() && merkle_labels(ls) == merkle_labels(n),
            Err(e) => merkle_labels(ls) == Err::<Seq<u8>, CompositionFailure>(e),
        },
{
    reveal(merkle_labels);
    lemma_level_upto_len(ls, ((ls.len() + 1) / 2) as nat);
}

/// One level of the tree over κ-labels.
#[verifier::spinoff_prover]
#[verifier::rlimit(30)]
fn merkle_level(level: &Vec<KappaLabel>) -> (r: Result<Vec<KappaLabel>, CompositionFailure>)
    ensures
        match level_spec(labels_view(level@)) {
            Ok(n) => r matches Ok(v) && labels_view(v@) == n && v.len() == (level.len() + 1) / 2,
            Err(e) => r matches Err(e2) && e2 == e,
        },
{
    let ghost ls = labels_view(level@);
    let ghost pairs = ((level.len() + 1) / 2) as nat;
    let mut next: Vec<KappaLabel> = Vec::new();
    let mut i: usize = 0;
    assert(labels_view(next@) =~= Seq::<Seq<u8>>::empty());
    while i < level.len()
        invariant
            ls == labels_view(level@),
            pairs == (level.len() + 1) / 2,
            i <= level.len(),
            i % 2 == 0 || i == level.len(),
            next.len() == (i + 1) / 2,
            level_upto(ls, next.len() as nat) == Ok::<Seq<Seq<u8>>, CompositionFailure>(
                labels_view(next@),
            ),
        decreases level.len() - i,
    {
        let ghost k = next.len() as nat;
        assert(2 * k == i);
        let right = if i + 1 < level.len() {
            i + 1
        } else {
            i
        };
        match compose_ordered_product(&level[i], &level[right]) {
            Err(e) => {
                proof {
                    lemma_level_upto_err(ls, k + 1, pairs);
                }
                return Err(e);
            },
            Ok(o) => {
                let ghost before = next@;
                next.push(o.address);
                assert(labels_view(next@) =~= labels_view(before).push(o.address@));
            },
        }
        if i + 1 < level.len() {
            i = i + 2;
        } else {
            i = i + 1;
        }
    }
    Ok(next)
}

/// **Bitcoin merkle root as iterated composition**: `merkle_root([root])
/// = root`, `merkle_root(leaves) = merkle_root(pair_up(leaves))`, where
/// `pair_up` folds adjacent pairs with [`compose_ordered_product`] and
/// pairs the last leaf with itself on odd arity.
pub fn merkle_root(leaves: &[KappaLabel]) -> (r: Result<KappaLabel, CompositionFailure>)
    ensures
        match merkle_labels(labels_view(leaves@)) {
            Ok(root) => r matches Ok(l) && l@ == root,
            Err(e) => r == Err::<KappaLabel, CompositionFailure>(e),
        },
{
    proof {
        reveal(merkle_labels);
    }
    if leaves.len() == 0 {
        return Err(CompositionFailure::MalformedOperand);
    }
    let mut level: Vec<KappaLabel> = Vec::new();
    for k in 0..leaves.len()
        invariant
            level@ == leaves@.subrange(0, k as int),
    {
        level.push(leaves[k]);
        assert(level@ =~= leaves@.subrange(0, k + 1));
    }
    assert(leaves@.subrange(0, leaves@.len() as int) =~= leaves@);
    let ghost all = labels_view(leaves@);
    while level.len() > 1
        invariant
            level.len() >= 1,
            all == labels_view(leaves@),
            merkle_labels(labels_view(level@)) == merkle_labels(all),
        decreases level.len(),
    {
        proof {
            lemma_merkle_step(labels_view(level@));
        }
        let next = match merkle_level(&level) {
            Err(e) => return Err(e),
            Ok(n) => n,
        };
        assert(merkle_labels(labels_view(next@)) == merkle_labels(all));
        level = next;
    }
    let root = level[0];
    proof {
        reveal(merkle_labels);
    }
    assert(labels_view(level@)[0] == root@);
    Ok(root)
}

/// A one-leaf tree's merkle root is the leaf itself.
pub proof fn law_merkle_root_single_leaf(leaf: Seq<u8>)
    ensures
        merkle_labels(seq![leaf]) == Ok::<Seq<u8>, CompositionFailure>(leaf),
{
    reveal(merkle_labels);
}


// ─── Laws ──────────────────────────────────────────────────────────────

/// The digest a minted κ-label carries decodes back: decoding
/// `label(d)` gives `d` for every 32-byte digest `d`.
pub proof fn law_decode_inverts_label(d: Seq<u8>)
    requires
        d.len() == 32,
    ensures
        decode_spec(label_spec(d)) == Ok::<Seq<u8>, CompositionFailure>(d),
{
    let l = label_spec(d);
    assert(l.len() == 72);
    reveal_with_fuel(find_colon, 9);
    assert(l[0] == 115 && l[1] == 104 && l[2] == 97 && l[3] == 50 && l[4] == 53 && l[5] == 54
        && l[6] == 100 && l[7] == 58);
    assert(find_colon(l, 0) == Some(7int));
    assert(l.subrange(0, 7) =~= sha256d_axis());
    let h = l.subrange(8, 72);
    assert(h =~= hex_encode(d));
    assert forall|j: int| 0 <= j < 64 implies (#[trigger] hex_value(h[j])) is Some
        && hex_value(h[j])->0 == (if j % 2 == 0 {
        d[j / 2] >> 4u8
    } else {
        d[j / 2] & 0x0fu8
    }) by {
        let b = d[j / 2];
        assert(b >> 4u8 < 16 && b & 0x0fu8 < 16) by (bit_vector);
    }
    assert forall|i: int| 0 <= i < 32 implies hex_decode(h)[i] == d[i] by {
        let b = d[i];
        assert(hex_value(h[2 * i])->0 == b >> 4u8);
        assert(hex_value(h[2 * i + 1])->0 == b & 0x0fu8);
        assert(((b >> 4u8) * 16 + (b & 0x0fu8)) as u8 == b) by (bit_vector);
    }
    assert(hex_decode(h) =~= d);
}

/// **CS-G2 is commutative**: for two operands whose σ-axis is `sha256d`,
/// the product in either order has the same canonical form, hence the
/// same composed κ-label.
pub proof fn law_g2_commutative(l: Seq<u8>, r: Seq<u8>)
    requires
        l.len() == r.len(),
        g2_prep(l, r) is Ok,
    ensures
        g2_prep(r, l) == g2_prep(l, r),
{
    lemma_lex_le_total(l, r);
    if lex_le(l, r) && lex_le(r, l) {
        lemma_lex_le_antisymmetric(l, r);
    }
}

/// **The ordered product is order-sensitive on canonical forms**: two
/// operands carrying different digests give different canonical forms in
/// the two orders (their composed κ-labels then differ unless SHA-256d
/// collides).
pub proof fn law_ordered_product_order_sensitive(l: Seq<u8>, r: Seq<u8>)
    requires
        decode_spec(l) is Ok,
        decode_spec(r) is Ok,
        decode_spec(l) != decode_spec(r),
    ensures
        ordered_prep(l, r) != ordered_prep(r, l),
{
    let a = decode_spec(l)->Ok_0;
    let b = decode_spec(r)->Ok_0;
    assert(a.len() == b.len());
    if a + b == b + a {
        assert((a + b).subrange(0, a.len() as int) =~= a);
        assert((b + a).subrange(0, b.len() as int) =~= b);
    }
}

/// Complementing twice gives the digest back.
proof fn lemma_complement_involutive(d: Seq<u8>)
    ensures
        complement(complement(d)) == d,
{
    assert forall|i: int| 0 <= i < d.len() implies complement(complement(d))[i] == d[i] by {
        let b = d[i];
        assert(!(!b) == b) by (bit_vector);
    }
    assert(complement(complement(d)) =~= d);
}

/// **CS-F4 is a quotient by complement**: a digest and its bitwise
/// complement compose to the same canonical form, hence the same
/// composed κ-label.
pub proof fn law_f4_complement_invariant(d: Seq<u8>)
    requires
        d.len() == 32,
    ensures
        f4_prep(label_spec(d)) == f4_prep(label_spec(complement(d))),
        f4_prep(label_spec(d)) is Ok,
{
    let c = complement(d);
    law_decode_inverts_label(d);
    law_decode_inverts_label(c);
    lemma_complement_involutive(d);
    lemma_lex_le_total(d, c);
    if lex_le(d, c) && lex_le(c, d) {
        lemma_lex_le_antisymmetric(d, c);
    }
}

/// **CS-G2 puts the lexicographically smaller label first**: for two
/// `sha256d` operands of equal length, the canonical form is the two
/// labels concatenated, one after the other, and its first half is
/// lexicographically at most its second half.
pub proof fn law_g2_smaller_label_first(l: Seq<u8>, r: Seq<u8>)
    requires
        l.len() == r.len(),
        g2_prep(l, r) is Ok,
    ensures
        g2_prep(l, r) matches Ok(c) && {
            &&& c == l + r || c == r + l
            &&& c.len() == 2 * l.len()
            &&& lex_le(c.subrange(0, l.len() as int), c.subrange(l.len() as int, c.len() as int))
        },
{
    let n = l.len() as int;
    assert((l + r).subrange(0, n) =~= l);
    assert((l + r).subrange(n, 2 * n) =~= r);
    assert((r + l).subrange(0, n) =~= r);
    assert((r + l).subrange(n, 2 * n) =~= l);
    lemma_lex_le_total(l, r);
}

/// **CS-F4 takes the lexicographic minimum of a digest and its
/// complement**: whichever of `d` and `!d` is lexicographically at most
/// both is the digest whose κ-label is the canonical form.
pub proof fn law_f4_representative_is_lex_min(d: Seq<u8>, m: Seq<u8>)
    requires
        d.len() == 32,
        m == d || m == complement(d),
        lex_le(m, d),
        lex_le(m, complement(d)),
    ensures
        f4_prep(label_spec(d)) == Ok::<Seq<u8>, CompositionFailure>(label_spec(m)),
{
    let c = complement(d);
    law_decode_inverts_label(d);
    if m == c && lex_le(d, c) {
        lemma_lex_le_antisymmetric(d, c);
    }
}

/// **CS-E6 is an 8:1 degree partition**: the canonical form is the
/// operand κ-label behind one tag byte, and the tag is `0x06` exactly
/// when the first raw byte is 8 mod 9, `0x05` for the eight other
/// residues.
pub proof fn law_e6_degree_partition(d: Seq<u8>)
    requires
        d.len() == 32,
    ensures
        e6_prep(label_spec(d)) matches Ok(c) && {
            &&& c.len() == 73
            &&& c.subrange(1, 73) == label_spec(d)
            &&& (c[0] == 6u8 <==> d[0] % 9 == 8)
            &&& (c[0] == 5u8 <==> d[0] % 9 != 8)
        },
{
    law_decode_inverts_label(d);
    let c = seq![e6_tag(d[0])] + label_spec(d);
    assert(c.subrange(1, 73) =~= label_spec(d));
}

// ─── The S₄ orbit ──────────────────────────────────────────────────────

/// `p` is a permutation of the four quarters.
pub open spec fn is_perm4(p: Seq<int>) -> bool {
    &&& p.len() == 4
    &&& forall|i: int| 0 <= i < 4 ==> 0 <= #[trigger] p[i] < 4
    &&& forall|i: int, j: int| 0 <= i < j < 4 ==> p[i] != p[j]
}

/// Rearranging by `q` after rearranging by `p` is rearranging by `p ∘ q`.
pub open spec fn compose4(p: Seq<int>, q: Seq<int>) -> Seq<int> {
    Seq::new(4, |i: int| p[q[i]])
}

/// The inverse of a quarter permutation.
pub open spec fn inverse4(p: Seq<int>) -> Seq<int> {
    Seq::new(
        4,
        |v: int|
            if p[0] == v {
                0
            } else if p[1] == v {
                1
            } else if p[2] == v {
                2
            } else {
                3
            },
    )
}

/// Every table entry is a permutation.
proof fn lemma_table_perms()
    ensures
        forall|k: int| 0 <= k < 24 ==> is_perm4(#[trigger] s4_perm(k)),
{
    assert(is_perm4(s4_perm(0)));
    assert(is_perm4(s4_perm(1)));
    assert(is_perm4(s4_perm(2)));
    assert(is_perm4(s4_perm(3)));
    assert(is_perm4(s4_perm(4)));
    assert(is_perm4(s4_perm(5)));
    assert(is_perm4(s4_perm(6)));
    assert(is_perm4(s4_perm(7)));
    assert(is_perm4(s4_perm(8)));
    assert(is_perm4(s4_perm(9)));
    assert(is_perm4(s4_perm(10)));
    assert(is_perm4(s4_perm(11)));
    assert(is_perm4(s4_perm(12)));
    assert(is_perm4(s4_perm(13)));
    assert(is_perm4(s4_perm(14)));
    assert(is_perm4(s4_perm(15)));
    assert(is_perm4(s4_perm(16)));
    assert(is_perm4(s4_perm(17)));
    assert(is_perm4(s4_perm(18)));
    assert(is_perm4(s4_perm(19)));
    assert(is_perm4(s4_perm(20)));
    assert(is_perm4(s4_perm(21)));
    assert(is_perm4(s4_perm(22)));
    assert(is_perm4(s4_perm(23)));
    assert forall|k: int| 0 <= k < 24 implies is_perm4(#[trigger] s4_perm(k)) by {
        assert(0 <= k < 24);
    }
}

/// Every permutation of the four quarters is in the table.
proof fn lemma_perm_in_table(p: Seq<int>)
    requires
        is_perm4(p),
    ensures
        exists|k: int| 0 <= k < 24 && #[trigger] s4_perm(k) == p,
{
    assert(0 <= p[0] < 4 && 0 <= p[1] < 4 && 0 <= p[2] < 4 && 0 <= p[3] < 4);
    assert(p[0] != p[1] && p[0] != p[2] && p[0] != p[3] && p[1] != p[2] && p[1] != p[3] && p[2]
        != p[3]);
    if p[0] == 0 && p[1] == 1 && p[2] == 2 {
        assert(s4_perm(0) =~= p);
    } else if p[0] == 0 && p[1] == 1 && p[2] == 3 {
        assert(s4_perm(1) =~= p);
    } else if p[0] == 0 && p[1] == 2 && p[2] == 1 {
        assert(s4_perm(2) =~= p);
    } else if p[0] == 0 && p[1] == 2 && p[2] == 3 {
        assert(s4_perm(3) =~= p);
    } else if p[0] == 0 && p[1] == 3 && p[2] == 1 {
        assert(s4_perm(4) =~= p);
    } else if p[0] == 0 && p[1] == 3 && p[2] == 2 {
        assert(s4_perm(5) =~= p);
    } else if p[0] == 1 && p[1] == 0 && p[2] == 2 {
        assert(s4_perm(6) =~= p);
    } else if p[0] == 1 && p[1] == 0 && p[2] == 3 {
        assert(s4_perm(7) =~= p);
    } else if p[0] == 1 && p[1] == 2 && p[2] == 0 {
        assert(s4_perm(8) =~= p);
    } else if p[0] == 1 && p[1] == 2 && p[2] == 3 {
        assert(s4_perm(9) =~= p);
    } else if p[0] == 1 && p[1] == 3 && p[2] == 0 {
        assert(s4_perm(10) =~= p);
    } else if p[0] == 1 && p[1] == 3 && p[2] == 2 {
        assert(s4_perm(11) =~= p);
    } else if p[0] == 2 && p[1] == 0 && p[2] == 1 {
        assert(s4_perm(12) =~= p);
    } else if p[0] == 2 && p[1] == 0 && p[2] == 3 {
        assert(s4_perm(13) =~= p);
    } else if p[0] == 2 && p[1] == 1 && p[2] == 0 {
        assert(s4_perm(14) =~= p);
    } else if p[0] == 2 && p[1] == 1 && p[2] == 3 {
        assert(s4_perm(15) =~= p);
    } else if p[0] == 2 && p[1] == 3 && p[2] == 0 {
        assert(s4_perm(16) =~= p);
    } else if p[0] == 2 && p[1] == 3 && p[2] == 1 {
        assert(s4_perm(17) =~= p);
    } else if p[0] == 3 && p[1] == 0 && p[2] == 1 {
        assert(s4_perm(18) =~= p);
    } else if p[0] == 3 && p[1] == 0 && p[2] == 2 {
        assert(s4_perm(19) =~= p);
    } else if p[0] == 3 && p[1] == 1 && p[2] == 0 {
        assert(s4_perm(20) =~= p);
    } else if p[0] == 3 && p[1] == 1 && p[2] == 2 {
        assert(s4_perm(21) =~= p);
    } else if p[0] == 3 && p[1] == 2 && p[2] == 0 {
        assert(s4_perm(22) =~= p);
    } else if p[0] == 3 && p[1] == 2 && p[2] == 1 {
        assert(s4_perm(23) =~= p);
    }
}

/// Byte `i` of a quarter rearrangement.
proof fn lemma_permute_index(d: Seq<u8>, p: Seq<int>)
    requires
        d.len() == 32,
        is_perm4(p),
    ensures
        permute_quarters(d, p).len() == 32,
        forall|i: int|
            0 <= i < 32 ==> #[trigger] permute_quarters(d, p)[i] == d[8 * p[i / 8] + i % 8],
{
    let r = permute_quarters(d, p);
    assert(0 <= p[0] < 4 && 0 <= p[1] < 4 && 0 <= p[2] < 4 && 0 <= p[3] < 4);
    assert forall|i: int| 0 <= i < 32 implies #[trigger] r[i] == d[8 * p[i / 8] + i % 8] by {
        if i < 8 {
        } else if i < 16 {
        } else if i < 24 {
        } else {
        }
    }
}

/// Rearranging twice is rearranging by the composition.
proof fn lemma_permute_compose(d: Seq<u8>, p: Seq<int>, q: Seq<int>)
    requires
        d.len() == 32,
        is_perm4(p),
        is_perm4(q),
    ensures
        is_perm4(compose4(p, q)),
        permute_quarters(permute_quarters(d, p), q) == permute_quarters(d, compose4(p, q)),
{
    let c = compose4(p, q);
    assert(0 <= q[0] < 4 && 0 <= q[1] < 4 && 0 <= q[2] < 4 && 0 <= q[3] < 4);
    assert(is_perm4(c));
    let dp = permute_quarters(d, p);
    lemma_permute_index(d, p);
    lemma_permute_index(dp, q);
    lemma_permute_index(d, c);
    assert forall|i: int| 0 <= i < 32 implies permute_quarters(dp, q)[i] == permute_quarters(d, c)[i] by {
        let j = 8 * q[i / 8] + i % 8;
        assert(0 <= j < 32);
        assert(j / 8 == q[i / 8] && j % 8 == i % 8);
        assert(dp[j] == d[8 * p[j / 8] + j % 8]);
    }
    assert(permute_quarters(dp, q) =~= permute_quarters(d, c));
}

/// The inverse undoes a permutation.
proof fn lemma_inverse4(p: Seq<int>, q: Seq<int>)
    requires
        is_perm4(p),
        is_perm4(q),
    ensures
        is_perm4(compose4(inverse4(p), q)),
        compose4(p, compose4(inverse4(p), q)) == q,
{
    assert(0 <= p[0] < 4 && 0 <= p[1] < 4 && 0 <= p[2] < 4 && 0 <= p[3] < 4);
    assert(0 <= q[0] < 4 && 0 <= q[1] < 4 && 0 <= q[2] < 4 && 0 <= q[3] < 4);
    let t = compose4(inverse4(p), q);
    assert(is_perm4(t));
    assert(compose4(p, t) =~= q);
}

/// The running minimum is one of the first `k + 1` rearrangements and
/// at most each of them.
proof fn lemma_s4_min_upto(d: Seq<u8>, k: nat)
    requires
        d.len() == 32,
        k < 24,
    ensures
        exists|j: int| 0 <= j <= k && s4_min_upto(d, k) == #[trigger] permute_quarters(d, s4_perm(j)),
        forall|j: int|
            0 <= j <= k ==> lex_le(s4_min_upto(d, k), #[trigger] permute_quarters(d, s4_perm(j))),
        s4_min_upto(d, k).len() == 32,
    decreases k,
{
    lemma_table_perms();
    assert(is_perm4(s4_perm(k as int)));
    lemma_permute_index(d, s4_perm(k as int));
    if k == 0 {
        lemma_lex_le_reflexive(permute_quarters(d, s4_perm(0)));
    } else {
        lemma_s4_min_upto(d, (k - 1) as nat);
        let best = s4_min_upto(d, (k - 1) as nat);
        let cand = permute_quarters(d, s4_perm(k as int));
        lemma_lex_le_total(cand, best);
        lemma_lex_le_reflexive(cand);
        if lex_lt(cand, best) {
            assert forall|j: int| 0 <= j <= k implies lex_le(cand, #[trigger] permute_quarters(d, s4_perm(j))) by {
                if j < k {
                    assert(is_perm4(s4_perm(j)));
                    lemma_permute_index(d, s4_perm(j));
                    lemma_lex_le_transitive(cand, best, permute_quarters(d, s4_perm(j)));
                }
            }
        } else {
            assert(lex_le(best, cand));
        }
    }
}

/// The κ-label of the S₄ lex-min is the same for a digest and any
/// quarter rearrangement of it: the lex-min of an orbit does not depend
/// on the orbit point it is computed from.
proof fn lemma_s4_min_invariant(d: Seq<u8>, k: int)
    requires
        d.len() == 32,
        0 <= k < 24,
    ensures
        s4_min_upto(permute_quarters(d, s4_perm(k)), 23) == s4_min_upto(d, 23),
{
    lemma_table_perms();
    let sigma = s4_perm(k);
    assert(is_perm4(sigma));
    let e = permute_quarters(d, sigma);
    lemma_permute_index(d, sigma);
    lemma_s4_min_upto(d, 23);
    lemma_s4_min_upto(e, 23);
    let md = s4_min_upto(d, 23);
    let me = s4_min_upto(e, 23);
    // me is in d's orbit, so md ≤ me.
    let je = choose|j: int| 0 <= j <= 23 && me == #[trigger] permute_quarters(e, s4_perm(j));
    assert(is_perm4(s4_perm(je)));
    lemma_permute_compose(d, sigma, s4_perm(je));
    lemma_perm_in_table(compose4(sigma, s4_perm(je)));
    let ke = choose|k2: int| 0 <= k2 < 24 && #[trigger] s4_perm(k2) == compose4(sigma, s4_perm(je));
    assert(me == permute_quarters(d, s4_perm(ke)));
    assert(lex_le(md, me));
    // md is in e's orbit, so me ≤ md.
    let jd = choose|j: int| 0 <= j <= 23 && md == #[trigger] permute_quarters(d, s4_perm(j));
    assert(is_perm4(s4_perm(jd)));
    lemma_inverse4(sigma, s4_perm(jd));
    let t = compose4(inverse4(sigma), s4_perm(jd));
    lemma_permute_compose(d, sigma, t);
    lemma_perm_in_table(t);
    let kt = choose|k2: int| 0 <= k2 < 24 && #[trigger] s4_perm(k2) == t;
    assert(permute_quarters(e, s4_perm(kt)) == permute_quarters(d, s4_perm(jd)));
    assert(lex_le(me, permute_quarters(e, s4_perm(kt))));
    assert(lex_le(me, md));
    lemma_lex_le_antisymmetric(md, me);
}

/// **CS-E7 is invariant on S₄ orbits**: a digest and any rearrangement
/// of its four quarters compose to the same canonical form, hence the
/// same composed κ-label.
pub proof fn law_e7_orbit_invariant(d: Seq<u8>, k: int)
    requires
        d.len() == 32,
        0 <= k < 24,
    ensures
        e7_prep(label_spec(d)) == e7_prep(label_spec(permute_quarters(d, s4_perm(k)))),
        e7_prep(label_spec(d)) is Ok,
{
    lemma_table_perms();
    assert(is_perm4(s4_perm(k)));
    lemma_permute_index(d, s4_perm(k));
    law_decode_inverts_label(d);
    law_decode_inverts_label(permute_quarters(d, s4_perm(k)));
    lemma_s4_min_invariant(d, k);
}


/// **CS-E7 takes the least rearrangement of the quarters**: the canonical
/// form is the κ-label of a rearrangement of the digest's four 8-byte
/// quarters that is lexicographically at most every rearrangement.
pub proof fn law_e7_representative_is_orbit_min(d: Seq<u8>)
    requires
        d.len() == 32,
    ensures
        e7_prep(label_spec(d)) matches Ok(c) && exists|m: Seq<u8>|
            {
                &&& c == label_spec(m)
                &&& exists|p: Seq<int>| is_perm4(p) && m == permute_quarters(d, p)
                &&& forall|q: Seq<int>|
                    is_perm4(q) ==> lex_le(m, #[trigger] permute_quarters(d, q))
            },
{
    law_decode_inverts_label(d);
    lemma_table_perms();
    lemma_s4_min_upto(d, 23);
    let m = s4_min_upto(d, 23);
    let j = choose|j: int| 0 <= j <= 23 && m == #[trigger] permute_quarters(d, s4_perm(j));
    assert(is_perm4(s4_perm(j)));
    assert forall|q: Seq<int>| is_perm4(q) implies lex_le(m, #[trigger] permute_quarters(d, q)) by {
        lemma_perm_in_table(q);
        let k = choose|k: int| 0 <= k < 24 && #[trigger] s4_perm(k) == q;
        assert(lex_le(m, permute_quarters(d, s4_perm(k))));
    }
}

/// **CS-E8 embeds the operand itself**: the canonical form of a `sha256d`
/// κ-label is that κ-label.
pub proof fn law_e8_is_the_operand(d: Seq<u8>)
    requires
        d.len() == 32,
    ensures
        e8_prep(label_spec(d)) == Ok::<Seq<u8>, CompositionFailure>(label_spec(d)),
{
    law_decode_inverts_label(d);
    lemma_find_colon_range(label_spec(d), 0);
}

/// **The ordered product concatenates in order**: the canonical form of
/// `left · right` is the left operand's raw digest followed by the right
/// operand's.
pub proof fn law_ordered_product_left_then_right(a: Seq<u8>, b: Seq<u8>)
    requires
        a.len() == 32,
        b.len() == 32,
    ensures
        ordered_prep(label_spec(a), label_spec(b)) == Ok::<Seq<u8>, CompositionFailure>(a + b),
{
    law_decode_inverts_label(a);
    law_decode_inverts_label(b);
}

} // verus!
