//! The `sha256d` κ-label — `sha256d:<64 lowercase hex>`, 72 ASCII bytes —
//! and the witness that attests one.
//!
//! A κ-label is minted from a 32-byte display-order digest by writing the
//! σ-axis token `sha256d`, a `:` separator and the digest's lowercase-hex
//! form. Because both labels of a comparison share the prefix and the hex
//! digits are ordered like their values, the lexicographic order of two
//! labels is the big-endian order of their digests.

use vstd::prelude::*;

use crate::composition::same_bytes;
use crate::domain::lex_le;
use crate::model::{grounding_fingerprint, grounding_fingerprint_spec, Realization};

verus! {

/// The UTF-8 bytes of a string slice.
pub open spec fn str_bytes(s: &str) -> Seq<u8> {
    vstd::string::StringSliceAdditionalSpecFns::spec_bytes(s)
}

/// Every byte is ASCII (below `0x80`).
pub open spec fn is_ascii_bytes(b: Seq<u8>) -> bool {
    forall|i: int| 0 <= i < b.len() ==> b[i] < 128
}

/// The lowercase hex digit of a nibble.
pub open spec fn hex_digit(n: u8) -> u8 {
    if n < 10 {
        (n + 48) as u8
    } else {
        (n + 87) as u8
    }
}

/// Lowercase hex encoding, most-significant nibble first.
pub open spec fn hex_encode(d: Seq<u8>) -> Seq<u8> {
    Seq::new(
        2 * d.len(),
        |i: int|
            if i % 2 == 0 {
                hex_digit(d[i / 2] >> 4u8)
            } else {
                hex_digit(d[i / 2] & 0x0fu8)
            },
    )
}

/// The σ-axis token `sha256d`.
pub open spec fn sha256d_axis() -> Seq<u8> {
    seq![115u8, 104u8, 97u8, 50u8, 53u8, 54u8, 100u8]
}

/// The κ-label of a digest: `sha256d:` followed by its lowercase hex.
pub open spec fn label_spec(digest: Seq<u8>) -> Seq<u8> {
    sha256d_axis() + seq![58u8] + hex_encode(digest)
}

/// The index of the first `:` in `b` at or after `i`, if any.
pub open spec fn find_colon(b: Seq<u8>, i: int) -> Option<int>
    decreases b.len() - i,
{
    if i < 0 || i >= b.len() {
        None
    } else if b[i] == 58 {
        Some(i)
    } else {
        find_colon(b, i + 1)
    }
}

/// The first `:` at or after `i` lies in `[i, len)` and no `:` precedes
/// it from `i` on.
pub proof fn lemma_find_colon_range(b: Seq<u8>, i: int)
    ensures
        find_colon(b, i) matches Some(k) ==> {
            &&& 0 <= i <= k < b.len()
            &&& b[k] == 58
            &&& forall|j: int| i <= j < k ==> b[j] != 58
        },
    decreases b.len() - i,
{
    if 0 <= i < b.len() && b[i] != 58 {
        lemma_find_colon_range(b, i + 1);
    }
}

/// Why a byte string is not a κ-label.
#[derive(Clone, Copy, Debug, PartialEq, Eq)]
pub enum LabelDecodeError {
    /// The byte string is not exactly [`crate::model::BLOCK_ADDRESS_LABEL_BYTES`] long.
    WrongLength,
    /// The byte string holds a byte of `0x80` or above.
    NonAscii,
}

/// A 72-byte ASCII κ-label.
#[derive(Clone, Copy, Debug, PartialEq, Eq, Hash)]
pub struct KappaLabel {
    bytes: [u8; 72],
}

impl View for KappaLabel {
    type V = Seq<u8>;

    closed spec fn view(&self) -> Seq<u8> {
        self.bytes@
    }
}

impl KappaLabel {
    #[verifier::type_invariant]
    spec fn ascii(self) -> bool {
        is_ascii_bytes(self.bytes@)
    }
}

/// Every κ-label is [`crate::model::BLOCK_ADDRESS_LABEL_BYTES`] bytes long.
pub broadcast proof fn lemma_label_len(label: KappaLabel)
    ensures
        #[trigger] label@.len() == 72,
{
}

/// `s` read as a string slice; `s` is ASCII, hence valid UTF-8.
///
/// Calls `core::str::from_utf8`. Its documentation states that a slice of
/// valid UTF-8 (every ASCII slice is one) is returned as a `&str` over
/// exactly those bytes; the contract claims that.
#[verifier::external_body]
fn ascii_str(s: &[u8]) -> (r: &str)
    requires
        is_ascii_bytes(s@),
    ensures
        str_bytes(r) == s@,
{
    match core::str::from_utf8(s) {
        Ok(text) => text,
        Err(_) => "",
    }
}

/// The lowercase hex digit of a nibble `n < 16`.
pub(crate) fn hex_lo(n: u8) -> (c: u8)
    requires
        n < 16,
    ensures
        c == hex_digit(n),
        c < 128,
{
    if n < 10 {
        n + 48
    } else {
        n + 87
    }
}

impl KappaLabel {
    /// Build a κ-label from a 72-byte ASCII slice.
    pub fn from_bytes(bytes: &[u8]) -> (r: Result<KappaLabel, LabelDecodeError>)
        ensures
            bytes@.len() != 72 ==> r == Err::<KappaLabel, LabelDecodeError>(
                LabelDecodeError::WrongLength,
            ),
            bytes@.len() == 72 && !is_ascii_bytes(bytes@) ==> r == Err::<
                KappaLabel,
                LabelDecodeError,
            >(LabelDecodeError::NonAscii),
            bytes@.len() == 72 && is_ascii_bytes(bytes@) ==> (r matches Ok(l) && l@ == bytes@),
    {
        if bytes.len() != 72 {
            return Err(LabelDecodeError::WrongLength);
        }
        let mut buf = [0u8; 72];
        for i in 0..72
            invariant
                bytes@.len() == 72,
                forall|j: int| 0 <= j < i ==> buf[j] == bytes@[j] && bytes@[j] < 128,
        {
            if bytes[i] >= 128 {
                return Err(LabelDecodeError::NonAscii);
            }
            buf[i] = bytes[i];
        }
        assert(buf@ =~= bytes@);
        Ok(KappaLabel { bytes: buf })
    }

    /// Mint the κ-label of a 32-byte display-order digest.
    pub fn from_digest(digest: &[u8; 32]) -> (label: KappaLabel)
        ensures
            label@ == label_spec(digest@),
    {
        let mut buf = [0u8; 72];
        let prefix: [u8; 8] = [115, 104, 97, 50, 53, 54, 100, 58];
        for i in 0..8
            invariant
                prefix@ == sha256d_axis() + seq![58u8],
                forall|j: int| 0 <= j < i ==> buf[j] == label_spec(digest@)[j] && buf[j] < 128,
        {
            buf[i] = prefix[i];
        }
        for k in 0..32
            invariant
                forall|j: int| 0 <= j < 8 + 2 * k ==> buf[j] == label_spec(digest@)[j] && buf[j]
                    < 128,
        {
            let b = digest[k];
            assert(b >> 4u8 < 16 && b & 0x0fu8 < 16) by (bit_vector);
            buf[8 + 2 * k] = hex_lo(b >> 4u8);
            buf[8 + 2 * k + 1] = hex_lo(b & 0x0fu8);
            assert(label_spec(digest@)[8 + 2 * k] == hex_encode(digest@)[2 * k]);
            assert(label_spec(digest@)[8 + 2 * k + 1] == hex_encode(digest@)[2 * k + 1]);
        }
        assert(buf@ =~= label_spec(digest@));
        KappaLabel { bytes: buf }
    }

    /// The κ-label as its 72-byte array.
    pub fn as_array(&self) -> (a: &[u8; 72])
        ensures
            a@ == self@,
    {
        &self.bytes
    }

    /// The κ-label as a byte slice.
    pub fn as_bytes(&self) -> (b: &[u8])
        ensures
            b@ == self@,
    {
        self.bytes.as_slice()
    }

    /// The κ-label as a string slice (it is ASCII by construction).
    pub fn as_str(&self) -> (s: &str)
        ensures
            str_bytes(s) == self@,
    {
        proof {
            use_type_invariant(self);
        }
        ascii_str(self.bytes.as_slice())
    }

    /// The byte length: always [`crate::model::BLOCK_ADDRESS_LABEL_BYTES`].
    pub fn len(&self) -> (n: usize)
        ensures
            n == self@.len(),
            n == 72,
    {
        72
    }

    /// Does the κ-label begin with `prefix`?
    pub fn starts_with(&self, prefix: &str) -> (r: bool)
        ensures
            r == (str_bytes(prefix).len() <= 72 && self@.subrange(
                0,
                str_bytes(prefix).len() as int,
            ) == str_bytes(prefix)),
    {
        let p = prefix.as_bytes();
        if p.len() > 72 {
            return false;
        }
        let mut i: usize = 0;
        while i < p.len()
            invariant
                p@ == str_bytes(prefix),
                p.len() <= 72,
                i <= p.len(),
                forall|j: int| 0 <= j < i ==> self@[j] == p@[j],
            decreases p.len() - i,
        {
            if self.bytes[i] != p[i] {
                assert(self@.subrange(0, p.len() as int)[i as int] != p@[i as int]);
                return false;
            }
            i = i + 1;
        }
        assert(self@.subrange(0, p.len() as int) =~= p@);
        true
    }

    /// The index of the first `:` separator, if any.
    pub fn colon_index(&self) -> (r: Option<usize>)
        ensures
            match find_colon(self@, 0) {
                Some(i) => r == Some(i as usize),
                None => r is None,
            },
            r matches Some(i) ==> i < 72,
    {
        proof {
            lemma_find_colon_range(self@, 0);
        }
        let mut i: usize = 0;
        while i < 72
            invariant
                i <= 72,
                self@.len() == 72,
                find_colon(self@, 0) == find_colon(self@, i as int),
            decreases 72 - i,
        {
            if self.bytes[i] == 58 {
                return Some(i);
            }
            i = i + 1;
        }
        None
    }

    /// The σ-axis token: the text before the first `:`; `None` without a
    /// separator.
    pub fn sigma_axis(&self) -> (r: Option<&str>)
        ensures
            match find_colon(self@, 0) {
                Some(i) => r matches Some(s) && str_bytes(s) == self@.subrange(0, i),
                None => r is None,
            },
    {
        proof {
            use_type_invariant(self);
        }
        proof {
            lemma_find_colon_range(self@, 0);
        }
        match self.colon_index() {
            Some(i) => {
                let all = self.bytes.as_slice();
                let head = &all[0..i];
                assert(head@ == self@.subrange(0, i as int));
                Some(ascii_str(head))
            },
            None => None,
        }
    }

    /// The hex digest body: the text after the first `:`; `None` without
    /// a separator.
    pub fn sigma_axis_digest_hex(&self) -> (r: Option<&str>)
        ensures
            match find_colon(self@, 0) {
                Some(i) => r matches Some(s) && str_bytes(s) == self@.subrange(i + 1, 72),
                None => r is None,
            },
    {
        proof {
            use_type_invariant(self);
        }
        proof {
            lemma_find_colon_range(self@, 0);
        }
        match self.colon_index() {
            Some(i) => {
                let all = self.bytes.as_slice();
                let tail = &all[i + 1..72];
                assert(tail@ == self@.subrange(i + 1, 72));
                Some(ascii_str(tail))
            },
            None => None,
        }
    }

    /// Byte-for-byte equality of two κ-labels.
    pub fn same_as(&self, other: &KappaLabel) -> (r: bool)
        ensures
            r == (self@ == other@),
    {
        let mut i: usize = 0;
        while i < 72
            invariant
                i <= 72,
                forall|j: int| 0 <= j < i ==> self@[j] == other@[j],
            decreases 72 - i,
        {
            if self.bytes[i] != other.bytes[i] {
                return false;
            }
            i = i + 1;
        }
        assert(self@ =~= other@);
        true
    }
}


// ─── Label order is digest order ───────────────────────────────────────

/// Comparing two sequences that begin with the same prefix compares what
/// follows the prefix.
proof fn lemma_lex_le_common_prefix(p: Seq<u8>, x: Seq<u8>, y: Seq<u8>)
    requires
        x.len() == y.len(),
    ensures
        lex_le(p + x, p + y) == lex_le(x, y),
    decreases p.len(),
{
    if p.len() > 0 {
        assert((p + x).drop_first() =~= p.drop_first() + x);
        assert((p + y).drop_first() =~= p.drop_first() + y);
        lemma_lex_le_common_prefix(p.drop_first(), x, y);
    } else {
        assert(p + x =~= x);
        assert(p + y =~= y);
    }
}

/// The hex digit of a nibble is strictly increasing in the nibble.
proof fn lemma_hex_digit_order(m: u8, n: u8)
    requires
        m < 16,
        n < 16,
    ensures
        m < n ==> hex_digit(m) < hex_digit(n),
        m == n <==> hex_digit(m) == hex_digit(n),
{
}

/// Hex-encoding a non-empty sequence writes the two digits of its first
/// byte, then the encoding of the rest.
proof fn lemma_hex_encode_first(d: Seq<u8>)
    requires
        d.len() > 0,
    ensures
        hex_encode(d) == seq![hex_digit(d[0] >> 4u8), hex_digit(d[0] & 0x0fu8)] + hex_encode(
            d.drop_first(),
        ),
{
    let rhs = seq![hex_digit(d[0] >> 4u8), hex_digit(d[0] & 0x0fu8)] + hex_encode(d.drop_first());
    assert forall|i: int| 0 <= i < hex_encode(d).len() implies hex_encode(d)[i] == rhs[i] by {
        if i >= 2 {
            assert(rhs[i] == hex_encode(d.drop_first())[i - 2]);
            assert((i - 2) / 2 == i / 2 - 1);
            assert((i - 2) % 2 == i % 2);
        }
    }
    assert(hex_encode(d) =~= rhs);
}

/// Hex encoding preserves the lexicographic order of equal-length byte
/// sequences.
proof fn lemma_hex_encode_order(a: Seq<u8>, b: Seq<u8>)
    requires
        a.len() == b.len(),
    ensures
        lex_le(hex_encode(a), hex_encode(b)) == lex_le(a, b),
    decreases a.len(),
{
    if a.len() == 0 {
        assert(hex_encode(a).len() == 0);
    } else {
        lemma_hex_encode_first(a);
        lemma_hex_encode_first(b);
        lemma_hex_encode_order(a.drop_first(), b.drop_first());
        let (x, y) = (a[0], b[0]);
        let (xh, xl, yh, yl) = (x >> 4u8, x & 0x0fu8, y >> 4u8, y & 0x0fu8);
        assert(xh < 16 && xl < 16 && yh < 16 && yl < 16) by (bit_vector)
            requires
                xh == x >> 4u8,
                xl == x & 0x0fu8,
                yh == y >> 4u8,
                yl == y & 0x0fu8,
        ;
        assert(x < y <==> (xh < yh || (xh == yh && xl < yl))) by (bit_vector)
            requires
                xh == x >> 4u8,
                xl == x & 0x0fu8,
                yh == y >> 4u8,
                yl == y & 0x0fu8,
        ;
        assert(x == y <==> (xh == yh && xl == yl)) by (bit_vector)
            requires
                xh == x >> 4u8,
                xl == x & 0x0fu8,
                yh == y >> 4u8,
                yl == y & 0x0fu8,
        ;
        lemma_hex_digit_order(xh, yh);
        lemma_hex_digit_order(yh, xh);
        lemma_hex_digit_order(xl, yl);
        lemma_hex_digit_order(yl, xl);
        let ha = hex_encode(a);
        let hb = hex_encode(b);
        assert(ha.drop_first().drop_first() =~= hex_encode(a.drop_first()));
        assert(hb.drop_first().drop_first() =~= hex_encode(b.drop_first()));
        assert(ha[0] == hex_digit(xh));
        assert(hb[0] == hex_digit(yh));
        assert(ha.drop_first()[0] == hex_digit(xl));
        assert(hb.drop_first()[0] == hex_digit(yl));
        assert(ha.len() >= 2 && hb.len() >= 2);
        let (ha1, hb1) = (ha.drop_first(), hb.drop_first());
        assert(lex_le(ha1, hb1) == (if ha1[0] < hb1[0] {
            true
        } else if ha1[0] > hb1[0] {
            false
        } else {
            lex_le(ha1.drop_first(), hb1.drop_first())
        }));
        assert(lex_le(ha, hb) == (if ha[0] < hb[0] {
            true
        } else if ha[0] > hb[0] {
            false
        } else {
            lex_le(ha1, hb1)
        }));
    }
}

/// The κ-labels of two digests compare lexicographically exactly as the
/// digests do: `label(a) ≤ label(b)` iff `a ≤ b` (big-endian).
pub proof fn law_label_order_is_digest_order(a: Seq<u8>, b: Seq<u8>)
    requires
        a.len() == b.len(),
    ensures
        lex_le(label_spec(a), label_spec(b)) == lex_le(a, b),
{
    let p = sha256d_axis() + seq![58u8];
    assert(hex_encode(a).len() == hex_encode(b).len());
    lemma_lex_le_common_prefix(p, hex_encode(a), hex_encode(b));
    lemma_hex_encode_order(a, b);
}

/// Hex encoding is injective on equal-length sequences.
proof fn lemma_hex_encode_injective(a: Seq<u8>, b: Seq<u8>)
    requires
        a.len() == b.len(),
        hex_encode(a) == hex_encode(b),
    ensures
        a == b,
    decreases a.len(),
{
    if a.len() > 0 {
        lemma_hex_encode_first(a);
        lemma_hex_encode_first(b);
        let (x, y) = (a[0], b[0]);
        let (xh, xl, yh, yl) = (x >> 4u8, x & 0x0fu8, y >> 4u8, y & 0x0fu8);
        assert(xh < 16 && xl < 16 && yh < 16 && yl < 16) by (bit_vector)
            requires
                xh == x >> 4u8,
                xl == x & 0x0fu8,
                yh == y >> 4u8,
                yl == y & 0x0fu8,
        ;
        assert(x == y <==> (xh == yh && xl == yl)) by (bit_vector)
            requires
                xh == x >> 4u8,
                xl == x & 0x0fu8,
                yh == y >> 4u8,
                yl == y & 0x0fu8,
        ;
        lemma_hex_digit_order(xh, yh);
        lemma_hex_digit_order(xl, yl);
        assert(hex_encode(a)[0] == hex_digit(xh) && hex_encode(b)[0] == hex_digit(yh));
        assert(hex_encode(a)[1] == hex_digit(xl) && hex_encode(b)[1] == hex_digit(yl));
        assert(xh == yh && xl == yl);
        assert(x == y);
        assert(hex_encode(a.drop_first()) =~= hex_encode(a).subrange(2, hex_encode(a).len() as int));
        assert(hex_encode(b.drop_first()) =~= hex_encode(b).subrange(2, hex_encode(b).len() as int));
        lemma_hex_encode_injective(a.drop_first(), b.drop_first());
        assert(a =~= seq![x] + a.drop_first());
        assert(b =~= seq![y] + b.drop_first());
    } else {
        assert(a =~= b);
    }
}

/// Distinct digests have distinct κ-labels: the label determines the
/// digest.
pub proof fn law_label_injective(a: Seq<u8>, b: Seq<u8>)
    requires
        a.len() == b.len(),
        label_spec(a) == label_spec(b),
    ensures
        a == b,
{
    assert(hex_encode(a) =~= label_spec(a).subrange(8, label_spec(a).len() as int));
    assert(hex_encode(b) =~= label_spec(b).subrange(8, label_spec(b).len() as int));
    lemma_hex_encode_injective(a, b);
}

// ─── The witness ───────────────────────────────────────────────────────

/// Why a witness failed to verify.
#[derive(Clone, Copy, Debug, PartialEq, Eq)]
pub enum VerifyError {
    /// The grounding-certificate fingerprint re-derived from the
    /// realization differs from the one the witness holds.
    FingerprintMismatch,
}

/// The witness of a grounded κ-label: the attested κ-label, the
/// realization it was grounded through, and the 32-byte content
/// fingerprint of that realization's grounding certificate. It holds no
/// derivation trace; [`AddressWitness::verify`] re-derives the
/// certificate fingerprint from the realization instead.
#[derive(Clone, Copy, Debug)]
pub struct AddressWitness {
    address: KappaLabel,
    realization: Realization,
    fingerprint: [u8; 32],
}

impl AddressWitness {
    #[verifier::type_invariant]
    spec fn certified(self) -> bool {
        self.fingerprint@ == grounding_fingerprint_spec(self.realization)
    }

    /// The κ-label this witness attests.
    pub closed spec fn attested(self) -> Seq<u8> {
        self.address@
    }

    /// The realization the κ-label was grounded through.
    pub closed spec fn realization_of(self) -> Realization {
        self.realization
    }

    /// The grounding-certificate content fingerprint.
    pub closed spec fn fingerprint_view(self) -> Seq<u8> {
        self.fingerprint@
    }

    /// Seal the witness of the κ-label of `digest`, grounded through
    /// `realization`.
    pub fn seal(realization: Realization, digest: &[u8; 32]) -> (w: AddressWitness)
        ensures
            w.attested() == label_spec(digest@),
            w.realization_of() == realization,
            w.fingerprint_view() == grounding_fingerprint_spec(realization),
    {
        AddressWitness {
            address: KappaLabel::from_digest(digest),
            realization,
            fingerprint: grounding_fingerprint(realization),
        }
    }

    /// The κ-label this witness attests.
    pub fn kappa_label(&self) -> (label: KappaLabel)
        ensures
            label@ == self.attested(),
    {
        self.address
    }

    /// The realization the κ-label was grounded through.
    pub fn realization(&self) -> (r: Realization)
        ensures
            r == self.realization_of(),
    {
        self.realization
    }

    /// The 32-byte grounding-certificate content fingerprint.
    pub fn content_fingerprint(&self) -> (fp: &[u8; 32])
        ensures
            fp@ == self.fingerprint_view(),
    {
        &self.fingerprint
    }

    /// Re-derive the grounding-certificate fingerprint from the
    /// realization and confirm it is the one held; returns the attested
    /// κ-label. Every witness verifies.
    pub fn verify(&self) -> (r: Result<KappaLabel, VerifyError>)
        ensures
            self.fingerprint_view() == grounding_fingerprint_spec(self.realization_of()),
            r matches Ok(label) && label@ == self.attested(),
    {
        proof {
            use_type_invariant(self);
        }
        let rederived = grounding_fingerprint(self.realization);
        if same_bytes(rederived.as_slice(), self.fingerprint.as_slice()) {
            Ok(self.address)
        } else {
            Err(VerifyError::FingerprintMismatch)
        }
    }
}

/// A κ-label together with the witness of its grounding.
#[derive(Clone, Copy, Debug)]
pub struct AddressOutcome {
    /// The witness of the κ-label's grounding.
    pub witness: AddressWitness,
    /// The `sha256d:<64hex>` κ-label.
    pub address: KappaLabel,
}

impl AddressOutcome {
    /// The outcome of addressing a digest through `realization`: its
    /// κ-label and the witness attesting it.
    pub fn from_digest(realization: Realization, digest: &[u8; 32]) -> (o: AddressOutcome)
        ensures
            o.address@ == label_spec(digest@),
            o.witness.attested() == o.address@,
            o.witness.realization_of() == realization,
            o.witness.fingerprint_view() == grounding_fingerprint_spec(realization),
    {
        let witness = AddressWitness::seal(realization, digest);
        AddressOutcome { witness, address: witness.kappa_label() }
    }
}

} // verus!
