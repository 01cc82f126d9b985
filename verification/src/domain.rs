//! Bitcoin domain types: the header fields, the compact-encoded target,
//! and the UOR observables of a 32-byte content address (triadic
//! coordinates, the 2-adic ultrametric, p-adic valuations and
//! Walsh–Hadamard parities).

use vstd::prelude::*;

verus! {

/// Block version.
#[derive(Copy, Clone, Debug, PartialEq, Eq)]
pub struct Version(pub u32);

/// Block timestamp (Unix epoch seconds).
#[derive(Copy, Clone, Debug, PartialEq, Eq)]
pub struct Timestamp(pub u32);

/// Compact nBits target encoding.
#[derive(Copy, Clone, Debug, PartialEq, Eq)]
pub struct Bits(pub u32);

/// A Bitcoin block hash — a 32-byte SHA-256d digest in display order.
#[derive(Debug, Clone, Default, PartialEq, Eq)]
pub struct BlockHash(pub [u8; 32]);

impl BlockHash {
    pub fn from_bytes(bytes: [u8; 32]) -> (h: Self)
        ensures
            h.0 == bytes,
    {
        Self(bytes)
    }

    pub fn as_bytes(&self) -> (b: &[u8; 32])
        ensures
            *b == self.0,
    {
        &self.0
    }
}

/// A Bitcoin merkle root — a 32-byte SHA-256d digest of the transaction tree.
#[derive(Debug, Clone, Default, PartialEq, Eq)]
pub struct MerkleRoot(pub [u8; 32]);

impl MerkleRoot {
    pub fn from_bytes(bytes: [u8; 32]) -> (r: Self)
        ensures
            r.0 == bytes,
    {
        Self(bytes)
    }

    pub fn as_bytes(&self) -> (b: &[u8; 32])
        ensures
            *b == self.0,
    {
        &self.0
    }
}

/// Bitcoin block header fields (without the nonce).
#[derive(Clone, Debug, PartialEq, Eq)]
pub struct BlockHeader {
    pub version: Version,
    pub prev_hash: [u8; 32],
    pub merkle_root: MerkleRoot,
    pub timestamp: Timestamp,
    pub bits: Bits,
}

/// Compact nBits encoding of the Bitcoin proof-of-work target.
#[derive(Debug, Clone, Copy, PartialEq, Eq)]
pub struct Target {
    pub nbits: u32,
}

// ─── Byte-sequence order and value ──────────────────────────────────────

/// Lexicographic `≤` on byte sequences of equal length.
pub open spec fn lex_le(a: Seq<u8>, b: Seq<u8>) -> bool
    decreases a.len(),
{
    if a.len() == 0 || b.len() == 0 {
        true
    } else if a[0] < b[0] {
        true
    } else if a[0] > b[0] {
        false
    } else {
        lex_le(a.drop_first(), b.drop_first())
    }
}

/// The value of a byte sequence read as a big-endian unsigned integer.
pub open spec fn be_value(s: Seq<u8>) -> nat
    decreases s.len(),
{
    if s.len() == 0 {
        0
    } else {
        be_value(s.drop_last()) * 256 + s.last() as nat
    }
}

/// The 32-byte display-order target that `nbits` decodes to: the three
/// mantissa bytes placed at offset `32 - exponent` (bytes past the end
/// are dropped); zero when the exponent is 0 or exceeds 32.
pub open spec fn target_bytes_spec(nbits: u32) -> Seq<u8> {
    let exp = nbits / 0x100_0000;
    let mantissa = nbits % 0x100_0000;
    let start = 32 - exp;
    Seq::new(
        32,
        |i: int|
            if exp == 0 || exp > 32 {
                0u8
            } else if i == start {
                (mantissa / 0x1_0000) as u8
            } else if i == start + 1 {
                (mantissa / 0x100 % 0x100) as u8
            } else if i == start + 2 {
                (mantissa % 0x100) as u8
            } else {
                0u8
            },
    )
}

/// Does the display-order digest `hash` satisfy the target `nbits`
/// (`hash ≤ target`, big-endian)?
pub open spec fn satisfies_spec(nbits: u32, hash: Seq<u8>) -> bool {
    lex_le(hash, target_bytes_spec(nbits))
}


/// Any two equal-length byte sequences are ordered one way or the other.
pub proof fn lemma_lex_le_total(a: Seq<u8>, b: Seq<u8>)
    requires
        a.len() == b.len(),
    ensures
        lex_le(a, b) || lex_le(b, a),
    decreases a.len(),
{
    if a.len() > 0 && a[0] == b[0] {
        lemma_lex_le_total(a.drop_first(), b.drop_first());
    }
}

/// Lexicographic `≤` is reflexive.
pub proof fn lemma_lex_le_reflexive(a: Seq<u8>)
    ensures
        lex_le(a, a),
    decreases a.len(),
{
    if a.len() > 0 {
        lemma_lex_le_reflexive(a.drop_first());
    }
}

/// Lexicographic `≤` is transitive on equal-length sequences.
pub proof fn lemma_lex_le_transitive(a: Seq<u8>, b: Seq<u8>, c: Seq<u8>)
    requires
        a.len() == b.len(),
        b.len() == c.len(),
        lex_le(a, b),
        lex_le(b, c),
    ensures
        lex_le(a, c),
    decreases a.len(),
{
    if a.len() > 0 && a[0] == b[0] && b[0] == c[0] {
        lemma_lex_le_transitive(a.drop_first(), b.drop_first(), c.drop_first());
    }
}

/// Equal-length byte sequences ordered both ways are equal.
pub proof fn lemma_lex_le_antisymmetric(a: Seq<u8>, b: Seq<u8>)
    requires
        a.len() == b.len(),
        lex_le(a, b),
        lex_le(b, a),
    ensures
        a == b,
    decreases a.len(),
{
    if a.len() == 0 {
        assert(a =~= b);
    } else {
        lemma_lex_le_antisymmetric(a.drop_first(), b.drop_first());
        assert(a =~= seq![a[0]] + a.drop_first());
        assert(b =~= seq![b[0]] + b.drop_first());
    }
}


/// Reading a non-empty sequence big-endian: its first byte times `256`
/// to the number of remaining bytes, plus the value of the rest.
proof fn lemma_be_value_front(s: Seq<u8>)
    requires
        s.len() > 0,
    ensures
        be_value(s) == s[0] * power(256, (s.len() - 1) as nat) + be_value(s.drop_first()),
    decreases s.len(),
{
    if s.len() == 1 {
        assert(be_value(s.drop_last()) == 0);
        assert(be_value(s.drop_first()) == 0);
        assert(power(256, 0) == 1);
        assert(s.last() == s[0]);
        assert(s[0] * 1 == s[0]);
    } else {
        let init = s.drop_last();
        lemma_be_value_front(init);
        let tail = s.drop_first();
        assert(init.drop_first() =~= tail.drop_last());
        assert(tail.last() == s.last());
        assert(init[0] == s[0]);
        assert(be_value(tail) == be_value(tail.drop_last()) * 256 + tail.last());
        assert(be_value(s) == be_value(init) * 256 + s.last());
        lemma_power_succ(256, (s.len() - 2) as nat);
        let p = power(256, (s.len() - 2) as nat);
        assert(power(256, (s.len() - 1) as nat) == p * 256);
        let (x0, r, l) = (s[0] as int, be_value(init.drop_first()) as int, s.last() as int);
        assert((x0 * p + r) * 256 + l == x0 * (p * 256) + (r * 256 + l)) by (nonlinear_arith);
    }
}

/// A sequence read big-endian is below `256` to its length.
proof fn lemma_be_value_bound(s: Seq<u8>)
    ensures
        be_value(s) < power(256, s.len()),
    decreases s.len(),
{
    if s.len() > 0 {
        lemma_be_value_bound(s.drop_last());
        lemma_power_succ(256, (s.len() - 1) as nat);
        let (v, p, l) = (be_value(s.drop_last()) as int, power(256, (s.len() - 1) as nat) as int, s.last() as int);
        assert(v * 256 + l < p * 256) by (nonlinear_arith)
            requires
                v < p,
                0 <= l < 256,
        ;
    }
}

/// **Display-order bytes compare as big-endian integers**: on
/// equal-length byte sequences, lexicographic `≤` is `≤` of their
/// big-endian values — so `hash ≤ target` is the numeric relation.
pub proof fn law_lex_order_is_numeric_order(a: Seq<u8>, b: Seq<u8>)
    requires
        a.len() == b.len(),
    ensures
        lex_le(a, b) <==> be_value(a) <= be_value(b),
    decreases a.len(),
{
    if a.len() > 0 {
        lemma_be_value_front(a);
        lemma_be_value_front(b);
        lemma_be_value_bound(a.drop_first());
        lemma_be_value_bound(b.drop_first());
        law_lex_order_is_numeric_order(a.drop_first(), b.drop_first());
        let p = power(256, (a.len() - 1) as nat) as int;
        let (x, y) = (a[0] as int, b[0] as int);
        let (ra, rb) = (be_value(a.drop_first()) as int, be_value(b.drop_first()) as int);
        if x < y {
            assert(x * p + ra < y * p + rb) by (nonlinear_arith)
                requires
                    x < y,
                    0 <= ra < p,
                    0 <= rb,
            ;
        } else if x > y {
            assert(x * p + ra > y * p + rb) by (nonlinear_arith)
                requires
                    x > y,
                    0 <= rb < p,
                    0 <= ra,
            ;
        }
    }
}

/// Lexicographic `≤` on two equal-length byte slices.
pub fn bytes_le(a: &[u8], b: &[u8]) -> (r: bool)
    requires
        a.len() == b.len(),
    ensures
        r == lex_le(a@, b@),
{
    let mut i: usize = 0;
    assert(a@.skip(0) =~= a@);
    assert(b@.skip(0) =~= b@);
    while i < a.len()
        invariant
            a.len() == b.len(),
            i <= a.len(),
            lex_le(a@, b@) == lex_le(a@.skip(i as int), b@.skip(i as int)),
        decreases a.len() - i,
    {
        let ghost sa = a@.skip(i as int);
        let ghost sb = b@.skip(i as int);
        assert(sa[0] == a[i as int] && sb[0] == b[i as int]);
        if a[i] < b[i] {
            return true;
        }
        if a[i] > b[i] {
            return false;
        }
        assert(sa.drop_first() =~= a@.skip(i + 1));
        assert(sb.drop_first() =~= b@.skip(i + 1));
        i = i + 1;
    }
    assert(a@.skip(i as int).len() == 0);
    true
}

impl Target {
    /// Genesis block nBits: `0x1d00ffff`.
    pub const GENESIS_NBITS: u32 = 0x1d00ffff;

    pub fn new(nbits: u32) -> (t: Self)
        ensures
            t.nbits == nbits,
    {
        Self { nbits }
    }

    /// Decode nBits to the 32-byte big-endian (display order) target.
    pub fn to_bytes(&self) -> (target: [u8; 32])
        ensures
            target@ == target_bytes_spec(self.nbits),
    {
        let nbits = self.nbits;
        let exp = (nbits >> 24u32) as usize;
        let mantissa = nbits & 0x00ff_ffffu32;
        assert(nbits >> 24u32 == nbits / 0x100_0000 && nbits & 0x00ff_ffffu32 == nbits % 0x100_0000)
            by (bit_vector);
        assert((mantissa >> 16u32) & 0xffu32 == mantissa / 0x1_0000 && (mantissa >> 8u32) & 0xffu32
            == mantissa / 0x100 % 0x100 && mantissa & 0xffu32 == mantissa % 0x100) by (bit_vector)
            requires
                mantissa < 0x100_0000,
        ;
        let mut target = [0u8; 32];
        if exp == 0 || exp > 32 {
            assert(target@ =~= target_bytes_spec(nbits));
            return target;
        }
        let start = 32 - exp;
        let m2 = ((mantissa >> 16u32) & 0xffu32) as u8;
        let m1 = ((mantissa >> 8u32) & 0xffu32) as u8;
        let m0 = (mantissa & 0xffu32) as u8;
        target[start] = m2;
        if start + 1 < 32 {
            target[start + 1] = m1;
        }
        if start + 2 < 32 {
            target[start + 2] = m0;
        }
        assert(target@ =~= target_bytes_spec(nbits));
        target
    }

    /// Whole zero bytes at the front of the target: `32 - exponent`, or 0
    /// when the exponent is 32 or more.
    pub fn leading_zero_bytes(&self) -> (n: u32)
        ensures
            n == (if self.nbits / 0x100_0000 >= 32 {
                0
            } else {
                32 - self.nbits / 0x100_0000
            }),
    {
        let nbits = self.nbits;
        assert(nbits >> 24u32 == nbits / 0x100_0000) by (bit_vector);
        let exp = (self.nbits >> 24u32) as usize;
        if exp >= 32 {
            0
        } else {
            (32 - exp) as u32
        }
    }

    /// Does the block hash satisfy this target?
    pub fn is_satisfied_by(&self, hash: &BlockHash) -> (r: bool)
        ensures
            r == satisfies_spec(self.nbits, hash.0@),
    {
        self.is_satisfied_by_bytes(hash.as_bytes())
    }

    /// Does the display-order digest satisfy this target (`hash ≤ target`)?
    pub fn is_satisfied_by_bytes(&self, hash: &[u8; 32]) -> (r: bool)
        ensures
            r == satisfies_spec(self.nbits, hash@),
    {
        let target = self.to_bytes();
        bytes_le(hash, &target)
    }
}

// ─── Triadic coordinates, ultrametric, parities, p-adic valuations ─────

/// PRISM triadic coordinates of a 32-byte digest (display order): the
/// 2-adic `stratum` and the Walsh–Hadamard `spectrum` parity.
#[derive(Debug, Clone, Copy, PartialEq, Eq)]
pub struct TriadicCoords {
    /// The hash bytes (display order).
    pub datum: [u8; 32],
    /// Index of the lowest set bit of the digest read as a 256-bit
    /// big-endian integer; 256 if the digest is all zeros.
    pub stratum: u32,
    /// Popcount of all 256 bits, modulo 2.
    pub spectrum: u32,
}

/// Number of trailing zero bits of `s` read as a big-endian integer
/// (`8 * s.len()` when every byte is zero).
pub open spec fn trailing_zero_bits(s: Seq<u8>) -> nat
    decreases s.len(),
{
    if s.len() == 0 {
        0
    } else if s.last() != 0 {
        vstd::std_specs::bits::u8_trailing_zeros(s.last()) as nat
    } else {
        8 + trailing_zero_bits(s.drop_last())
    }
}

/// Number of set bits of a byte.
pub open spec fn popcount8(b: u8) -> nat {
    ((b & 1u8) + ((b >> 1u8) & 1u8) + ((b >> 2u8) & 1u8) + ((b >> 3u8) & 1u8) + ((b >> 4u8)
        & 1u8) + ((b >> 5u8) & 1u8) + ((b >> 6u8) & 1u8) + ((b >> 7u8) & 1u8)) as nat
}

/// Number of set bits of a byte sequence.
pub open spec fn popcount(s: Seq<u8>) -> nat
    decreases s.len(),
{
    if s.len() == 0 {
        0
    } else {
        popcount(s.drop_last()) + popcount8(s.last())
    }
}

/// Bytewise XOR of two equal-length sequences.
pub open spec fn xor_bytes(a: Seq<u8>, b: Seq<u8>) -> Seq<u8> {
    Seq::new(a.len(), |i: int| a[i] ^ b[i])
}

/// Bytewise AND of two equal-length sequences.
pub open spec fn and_bytes(a: Seq<u8>, b: Seq<u8>) -> Seq<u8> {
    Seq::new(a.len(), |i: int| a[i] & b[i])
}

/// `b^e`.
pub open spec fn power(b: nat, e: nat) -> nat
    decreases e,
{
    if e == 0 {
        1
    } else {
        b * power(b, (e - 1) as nat)
    }
}

/// The 2-adic stratum of a digest.
pub open spec fn stratum_spec(hash: Seq<u8>) -> nat {
    trailing_zero_bits(hash)
}

/// The 2-adic ultrametric valuation of two digests: the stratum of their
/// XOR-difference.
pub open spec fn ultrametric_spec(a: Seq<u8>, b: Seq<u8>) -> nat {
    trailing_zero_bits(xor_bytes(a, b))
}

/// Walsh–Hadamard parity of `d` at the frequency mask `omega`.
pub open spec fn walsh_parity_spec(d: Seq<u8>, omega: Seq<u8>) -> nat {
    popcount(and_bytes(d, omega)) % 2
}

/// Set bits of one byte, computed bit by bit.
fn popcount_byte(b: u8) -> (n: u32)
    ensures
        n == popcount8(b),
        n <= 8,
{
    assert((b & 1u8) <= 1 && ((b >> 1u8) & 1u8) <= 1 && ((b >> 2u8) & 1u8) <= 1 && ((b >> 3u8)
        & 1u8) <= 1 && ((b >> 4u8) & 1u8) <= 1 && ((b >> 5u8) & 1u8) <= 1 && ((b >> 6u8) & 1u8)
        <= 1 && ((b >> 7u8) & 1u8) <= 1) by (bit_vector);
    ((b & 1u8) + ((b >> 1u8) & 1u8) + ((b >> 2u8) & 1u8) + ((b >> 3u8) & 1u8) + ((b >> 4u8)
        & 1u8) + ((b >> 5u8) & 1u8) + ((b >> 6u8) & 1u8) + ((b >> 7u8) & 1u8)) as u32
}

/// Trailing zero bits of a 32-byte digest read as a big-endian integer.
fn trailing_zero_bits_exec(hash: &[u8; 32]) -> (n: u32)
    ensures
        n == trailing_zero_bits(hash@),
{
    let mut i: usize = 32;
    assert(hash@.subrange(0, 32) =~= hash@);
    while i > 0
        invariant
            i <= 32,
            trailing_zero_bits(hash@) == 8 * (32 - i) + trailing_zero_bits(
                hash@.subrange(0, i as int),
            ),
        decreases i,
    {
        let ghost pre = hash@.subrange(0, i as int);
        assert(pre.last() == hash[i - 1]);
        assert(pre.drop_last() =~= hash@.subrange(0, i - 1));
        if hash[i - 1] != 0 {
            return ((32 - i) * 8) as u32 + hash[i - 1].trailing_zeros();
        }
        i = i - 1;
    }
    256
}

impl TriadicCoords {
    /// Project a 32-byte digest (display order) to its `(stratum,
    /// spectrum)` content observables.
    pub fn from_hash(hash: &[u8; 32]) -> (c: Self)
        ensures
            c.datum == *hash,
            c.stratum == stratum_spec(hash@),
            c.spectrum == popcount(hash@) % 2,
            c.stratum <= 256,
    {
        proof {
            lemma_trailing_zero_bits_full(hash@);
        }
        let stratum = trailing_zero_bits_exec(hash);
        let mut count: u32 = 0;
        for i in 0..32
            invariant
                count == popcount(hash@.subrange(0, i as int)),
                count <= 8 * i,
        {
            assert(hash@.subrange(0, i + 1).drop_last() =~= hash@.subrange(0, i as int));
            count = count + popcount_byte(hash[i]);
        }
        assert(hash@.subrange(0, 32) =~= hash@);
        assert(count & 1 == count % 2) by (bit_vector);
        Self { datum: *hash, stratum, spectrum: count & 1 }
    }
}

/// 2-adic ultrametric valuation on 256-bit content addresses: the number
/// of trailing zero bits of `a XOR b` read as a 256-bit big-endian
/// integer; 256 iff `a == b`.
pub fn ultrametric_valuation(a: &[u8; 32], b: &[u8; 32]) -> (v: u32)
    ensures
        v == ultrametric_spec(a@, b@),
{
    let mut x = [0u8; 32];
    for i in 0..32
        invariant
            forall|j: int| 0 <= j < i ==> x[j] == a[j] ^ b[j],
    {
        x[i] = a[i] ^ b[i];
    }
    assert(x@ =~= xor_bytes(a@, b@));
    TriadicCoords::from_hash(&x).stratum
}

/// Walsh–Hadamard parity at the bit-mask frequency `omega`:
/// `popcount(d AND omega) mod 2`.
pub fn walsh_hadamard_parity_at(d: &[u8; 32], omega: &[u8; 32]) -> (p: u32)
    ensures
        p == walsh_parity_spec(d@, omega@),
{
    let ghost m = and_bytes(d@, omega@);
    let mut p: u32 = 0;
    for i in 0..32
        invariant
            m == and_bytes(d@, omega@),
            p == popcount(m.subrange(0, i as int)),
            p <= 8 * i,
    {
        assert(m.subrange(0, i + 1).drop_last() =~= m.subrange(0, i as int));
        p = p + popcount_byte(d[i] & omega[i]);
    }
    assert(m.subrange(0, 32) =~= m);
    assert(p & 1 == p % 2) by (bit_vector);
    p & 1
}

// ─── Laws of the observables ───────────────────────────────────────────

/// At the all-ones frequency the Walsh–Hadamard parity is the spectrum:
/// the parity of every bit of the digest.
pub proof fn law_walsh_all_ones_is_spectrum(d: Seq<u8>)
    ensures
        walsh_parity_spec(d, Seq::new(d.len(), |i: int| 0xffu8)) == popcount(d) % 2,
{
    let ones = Seq::new(d.len(), |i: int| 0xffu8);
    assert forall|i: int| 0 <= i < d.len() implies and_bytes(d, ones)[i] == d[i] by {
        let b = d[i];
        assert(b & 0xffu8 == b) by (bit_vector);
    }
    assert(and_bytes(d, ones) =~= d);
}

/// Set bits of `x ^ y` and of `x & y` against those of `x` and `y`.
proof fn lemma_popcount8_xor(x: u8, y: u8)
    ensures
        popcount8(x ^ y) + 2 * popcount8(x & y) == popcount8(x) + popcount8(y),
{
    assert(popcount8(x ^ y) + 2 * popcount8(x & y) == popcount8(x) + popcount8(y)) by (bit_vector);
}

/// Set bits of a bytewise XOR against those of its operands.
proof fn lemma_popcount_xor(a: Seq<u8>, b: Seq<u8>)
    requires
        a.len() == b.len(),
    ensures
        popcount(xor_bytes(a, b)) + 2 * popcount(and_bytes(a, b)) == popcount(a) + popcount(b),
    decreases a.len(),
{
    if a.len() > 0 {
        lemma_popcount_xor(a.drop_last(), b.drop_last());
        assert(xor_bytes(a, b).drop_last() =~= xor_bytes(a.drop_last(), b.drop_last()));
        assert(and_bytes(a, b).drop_last() =~= and_bytes(a.drop_last(), b.drop_last()));
        lemma_popcount8_xor(a.last(), b.last());
    } else {
        assert(xor_bytes(a, b) =~= Seq::<u8>::empty());
        assert(and_bytes(a, b) =~= Seq::<u8>::empty());
    }
}

/// The Walsh–Hadamard parity is linear in the frequency: the parity at
/// `omega1 XOR omega2` is the XOR (sum mod 2) of the parities at
/// `omega1` and at `omega2`.
pub proof fn law_walsh_linear_in_frequency(d: Seq<u8>, omega1: Seq<u8>, omega2: Seq<u8>)
    requires
        d.len() == omega1.len(),
        d.len() == omega2.len(),
    ensures
        walsh_parity_spec(d, xor_bytes(omega1, omega2)) == (walsh_parity_spec(d, omega1)
            + walsh_parity_spec(d, omega2)) % 2,
{
    let a = and_bytes(d, omega1);
    let b = and_bytes(d, omega2);
    assert forall|i: int| 0 <= i < d.len() implies and_bytes(d, xor_bytes(omega1, omega2))[i]
        == xor_bytes(a, b)[i] by {
        let (x, y, z) = (d[i], omega1[i], omega2[i]);
        assert(x & (y ^ z) == (x & y) ^ (x & z)) by (bit_vector);
    }
    assert(and_bytes(d, xor_bytes(omega1, omega2)) =~= xor_bytes(a, b));
    lemma_popcount_xor(a, b);
    let (pa, pb, px, pab) = (popcount(a) as int, popcount(b) as int, popcount(xor_bytes(a, b)) as int, popcount(and_bytes(a, b)) as int);
    assert(px % 2 == (pa % 2 + pb % 2) % 2) by {
        assert(px == pa + pb - 2 * pab);
        vstd::arithmetic::div_mod::lemma_mod_adds(pa, pb, 2);
        vstd::arithmetic::div_mod::lemma_mod_multiples_vanish(-pab, px, 2);
    }
}

/// The Walsh–Hadamard parity is symmetric in the digest and the
/// frequency.
pub proof fn law_walsh_symmetric(d: Seq<u8>, omega: Seq<u8>)
    requires
        d.len() == omega.len(),
    ensures
        walsh_parity_spec(d, omega) == walsh_parity_spec(omega, d),
{
    assert forall|i: int| 0 <= i < d.len() implies and_bytes(d, omega)[i] == and_bytes(omega, d)[i] by {
        let (x, y) = (d[i], omega[i]);
        assert(x & y == y & x) by (bit_vector);
    }
    assert(and_bytes(d, omega) =~= and_bytes(omega, d));
}

/// The trailing zeros of a XOR are at least the fewer of the operands'.
proof fn lemma_byte_xor_trailing_zeros(x: u8, y: u8)
    ensures
        vstd::std_specs::bits::u8_trailing_zeros(x ^ y) >= vstd::std_specs::bits::u8_trailing_zeros(x)
            || vstd::std_specs::bits::u8_trailing_zeros(x ^ y)
            >= vstd::std_specs::bits::u8_trailing_zeros(y),
        vstd::std_specs::bits::u8_trailing_zeros(x ^ y) >= (if vstd::std_specs::bits::u8_trailing_zeros(
            x,
        ) < vstd::std_specs::bits::u8_trailing_zeros(y) {
            vstd::std_specs::bits::u8_trailing_zeros(x)
        } else {
            vstd::std_specs::bits::u8_trailing_zeros(y)
        }),
{
    let z = x ^ y;
    vstd::std_specs::bits::axiom_u8_trailing_zeros(x);
    vstd::std_specs::bits::axiom_u8_trailing_zeros(y);
    vstd::std_specs::bits::axiom_u8_trailing_zeros(z);
    let c = vstd::std_specs::bits::u8_trailing_zeros(z);
    let a = vstd::std_specs::bits::u8_trailing_zeros(x);
    let b = vstd::std_specs::bits::u8_trailing_zeros(y);
    if c < a && c < b {
        let cc = c as u8;
        assert(cc == c);
        assert((x >> cc) & 1u8 == 0u8);
        assert((y >> cc) & 1u8 == 0u8);
        assert((z >> cc) & 1u8 == 1u8);
        assert((z >> cc) & 1u8 == 0u8) by (bit_vector)
            requires
                z == x ^ y,
                (x >> cc) & 1u8 == 0u8,
                (y >> cc) & 1u8 == 0u8,
        ;
        assert(false);
    }
}

/// A nonzero byte has fewer than eight trailing zeros.
proof fn lemma_byte_trailing_zeros_nonzero(x: u8)
    ensures
        x != 0 ==> vstd::std_specs::bits::u8_trailing_zeros(x) < 8,
        x == 0 ==> vstd::std_specs::bits::u8_trailing_zeros(x) == 8,
{
    vstd::std_specs::bits::axiom_u8_trailing_zeros(x);
}

/// Trailing zeros of a XOR of equal-length sequences are at least the
/// fewer of the operands'.
proof fn lemma_xor_trailing_zero_bits(x: Seq<u8>, y: Seq<u8>)
    requires
        x.len() == y.len(),
    ensures
        trailing_zero_bits(xor_bytes(x, y)) >= trailing_zero_bits(x) || trailing_zero_bits(
            xor_bytes(x, y),
        ) >= trailing_zero_bits(y),
    decreases x.len(),
{
    if x.len() > 0 {
        let z = xor_bytes(x, y);
        let (xl, yl) = (x.last(), y.last());
        assert(z.last() == xl ^ yl);
        assert(z.drop_last() =~= xor_bytes(x.drop_last(), y.drop_last()));
        lemma_byte_trailing_zeros_nonzero(xl);
        lemma_byte_trailing_zeros_nonzero(yl);
        lemma_byte_trailing_zeros_nonzero(xl ^ yl);
        assert(xl ^ yl == 0u8 <==> xl == yl) by (bit_vector);
        assert(xl == 0u8 ==> xl ^ yl == yl) by (bit_vector);
        assert(yl == 0u8 ==> xl ^ yl == xl) by (bit_vector);
        if xl ^ yl != 0 {
            if xl != 0 && yl != 0 {
                lemma_byte_xor_trailing_zeros(xl, yl);
            }
        } else if xl == 0 {
            lemma_xor_trailing_zero_bits(x.drop_last(), y.drop_last());
        }
    }
}

/// An all-zero sequence has `8 × len` trailing zeros, and only an all-zero
/// sequence has that many.
proof fn lemma_trailing_zero_bits_full(s: Seq<u8>)
    ensures
        trailing_zero_bits(s) <= 8 * s.len(),
        trailing_zero_bits(s) == 8 * s.len() <==> forall|i: int| 0 <= i < s.len() ==> s[i] == 0,
    decreases s.len(),
{
    if s.len() > 0 {
        lemma_trailing_zero_bits_full(s.drop_last());
        lemma_byte_trailing_zeros_nonzero(s.last());
        if forall|i: int| 0 <= i < s.len() ==> s[i] == 0 {
            assert(s.last() == 0);
            assert forall|i: int| 0 <= i < s.len() - 1 implies s.drop_last()[i] == 0 by {
                assert(s[i] == 0);
            }
        }
        if trailing_zero_bits(s) == 8 * s.len() {
            assert forall|i: int| 0 <= i < s.len() implies s[i] == 0 by {
                if i < s.len() - 1 {
                    assert(s.drop_last()[i] == s[i]);
                }
            }
        }
    }
}

/// **The 2-adic ultrametric**: the valuation is symmetric, equals `8 ×
/// len` (256 for digests) exactly when the two addresses are equal, and
/// satisfies the strong triangle inequality
/// `v(a, c) ≥ min(v(a, b), v(b, c))`, so `2^-v` is an ultrametric.
pub proof fn law_ultrametric(a: Seq<u8>, b: Seq<u8>, c: Seq<u8>)
    requires
        a.len() == b.len(),
        b.len() == c.len(),
    ensures
        ultrametric_spec(a, b) == ultrametric_spec(b, a),
        ultrametric_spec(a, b) == 8 * a.len() <==> a == b,
        ultrametric_spec(a, c) >= ultrametric_spec(a, b) || ultrametric_spec(a, c)
            >= ultrametric_spec(b, c),
{
    assert forall|i: int| 0 <= i < a.len() implies xor_bytes(a, b)[i] == xor_bytes(b, a)[i] by {
        let (x, y) = (a[i], b[i]);
        assert(x ^ y == y ^ x) by (bit_vector);
    }
    assert(xor_bytes(a, b) =~= xor_bytes(b, a));
    lemma_trailing_zero_bits_full(xor_bytes(a, b));
    if ultrametric_spec(a, b) == 8 * a.len() {
        assert forall|i: int| 0 <= i < a.len() implies a[i] == b[i] by {
            let (x, y) = (a[i], b[i]);
            assert(xor_bytes(a, b)[i] == 0);
            assert(x ^ y == 0u8 ==> x == y) by (bit_vector);
        }
        assert(a =~= b);
    }
    if a == b {
        assert forall|i: int| 0 <= i < a.len() implies xor_bytes(a, b)[i] == 0 by {
            let x = a[i];
            assert(x ^ x == 0u8) by (bit_vector);
        }
    }
    assert forall|i: int| 0 <= i < a.len() implies xor_bytes(a, c)[i] == xor_bytes(
        xor_bytes(a, b),
        xor_bytes(b, c),
    )[i] by {
        let (x, y, z) = (a[i], b[i], c[i]);
        assert(x ^ z == (x ^ y) ^ (y ^ z)) by (bit_vector);
    }
    assert(xor_bytes(a, c) =~= xor_bytes(xor_bytes(a, b), xor_bytes(b, c)));
    lemma_xor_trailing_zero_bits(xor_bytes(a, b), xor_bytes(b, c));
}

// ─── p-adic valuation ──────────────────────────────────────────────────

/// `(x + y) mod m` for `x, y < m`, without overflow.
fn add_mod(x: u128, y: u128, m: u128) -> (r: u128)
    requires
        x < m,
        y < m,
    ensures
        r == (x + y) % (m as int),
        r < m,
{
    if x >= m - y {
        let r = x - (m - y);
        proof {
            vstd::arithmetic::div_mod::lemma_fundamental_div_mod_converse_mod(
                x + y,
                m as int,
                1,
                r as int,
            );
        }
        r
    } else {
        proof {
            vstd::arithmetic::div_mod::lemma_fundamental_div_mod_converse_mod(
                x + y,
                m as int,
                0,
                (x + y) as int,
            );
        }
        x + y
    }
}

/// `(acc · 256 + b) mod m` for `acc < m`, by eight modular doublings.
fn shift_in_byte_mod(acc: u128, b: u8, m: u128) -> (r: u128)
    requires
        acc < m,
    ensures
        r == (acc * 256 + b) % (m as int),
        r < m,
{
    let mut r = acc;
    let ghost mut t: int = acc as int;
    assert(r == t % (m as int)) by {
        vstd::arithmetic::div_mod::lemma_small_mod(acc as nat, m as nat);
    }
    assert(acc * pow2_small(0) == acc) by {
        assert(pow2_small(0) == 1);
    }
    for k in 0..8
        invariant
            r < m,
            r == t % (m as int),
            t == acc * pow2_small(k as nat),
    {
        proof {
            vstd::arithmetic::div_mod::lemma_mul_mod_noop_right(2, t, m as int);
            assert(acc * pow2_small((k + 1) as nat) == 2 * (acc * pow2_small(k as nat)))
                by (nonlinear_arith)
                requires
                    pow2_small((k + 1) as nat) == 2 * pow2_small(k as nat),
            ;
        }
        r = add_mod(r, r, m);
        proof {
            t = 2 * t;
        }
    }
    assert(pow2_small(8) == 256) by {
        reveal_with_fuel(pow2_small, 9);
    }
    let bm = (b as u128) % m;
    let out = add_mod(r, bm, m);
    proof {
        vstd::arithmetic::div_mod::lemma_add_mod_noop(t, b as int, m as int);
        vstd::arithmetic::div_mod::lemma_mod_twice(t, m as int);
    }
    out
}

/// `2^e`.
spec fn pow2_small(e: nat) -> nat
    decreases e,
{
    if e == 0 {
        1
    } else {
        2 * pow2_small((e - 1) as nat)
    }
}


/// Reducing a big-endian accumulation step modulo `m` commutes with
/// reducing the accumulator first.
proof fn lemma_shift_mod(x: int, b: int, m: int)
    requires
        m > 0,
    ensures
        (x * 256 + b) % m == ((x % m) * 256 + b) % m,
{
    vstd::arithmetic::div_mod::lemma_add_mod_noop(x * 256, b, m);
    vstd::arithmetic::div_mod::lemma_add_mod_noop((x % m) * 256, b, m);
    vstd::arithmetic::div_mod::lemma_mul_mod_noop_left(x, 256, m);
}

/// The big-endian value of `d` modulo `m`.
fn be_mod(d: &[u8; 32], m: u128) -> (r: u128)
    requires
        m > 0,
    ensures
        r == be_value(d@) % (m as nat),
{
    let mut acc: u128 = 0;
    assert(be_value(d@.subrange(0, 0)) == 0);
    assert(0nat % (m as nat) == 0) by {
        vstd::arithmetic::div_mod::lemma_small_mod(0, m as nat);
    }
    for i in 0..32
        invariant
            m > 0,
            acc < m,
            acc == be_value(d@.subrange(0, i as int)) % (m as nat),
    {
        let ghost pre = d@.subrange(0, i as int);
        let ghost next = d@.subrange(0, i + 1);
        assert(next.drop_last() =~= pre);
        assert(next.last() == d[i as int]);
        proof {
            lemma_shift_mod(be_value(pre) as int, d[i as int] as int, m as int);
        }
        acc = shift_in_byte_mod(acc, d[i], m);
    }
    assert(d@.subrange(0, 32) =~= d@);
    acc
}

/// `b^(e+1) = b^e · b`.
proof fn lemma_power_succ(b: nat, e: nat)
    ensures
        power(b, e + 1) == power(b, e) * b,
        power(b, e + 1) == b * power(b, e),
{
    assert(power(b, e + 1) == b * power(b, e));
    vstd::arithmetic::mul::lemma_mul_is_commutative(b as int, power(b, e) as int);
    if e == 0 {
        vstd::arithmetic::mul::lemma_mul_basics(b as int);
    }
}

/// `b^e ≥ 2^e` for `b ≥ 2`.
proof fn lemma_power_ge_pow2(b: nat, e: nat)
    requires
        b >= 2,
    ensures
        power(b, e) >= vstd::arithmetic::power2::pow2(e),
    decreases e,
{
    if e == 0 {
        vstd::arithmetic::power2::lemma2_to64();
    } else {
        lemma_power_ge_pow2(b, (e - 1) as nat);
        vstd::arithmetic::power2::lemma_pow2_unfold(e);
        let q = power(b, (e - 1) as nat);
        assert(b * q >= 2 * q) by (nonlinear_arith)
            requires
                b >= 2,
        ;
    }
}

/// A power of `b ≥ 2` that fits in a `u128` has exponent below 128.
proof fn lemma_power_fits_u128(b: nat, e: nat)
    requires
        b >= 2,
        power(b, e) <= u128::MAX,
    ensures
        e < 128,
{
    lemma_power_ge_pow2(b, e);
    if e >= 128 {
        vstd::arithmetic::power2::lemma2_to64();
        vstd::arithmetic::power2::lemma_pow2_adds(64, 64);
        if e > 128 {
            vstd::arithmetic::power2::lemma_pow2_strictly_increases(128, e);
        }
        assert(vstd::arithmetic::power2::pow2(128) == 0x1_0000_0000_0000_0000_0000_0000_0000_0000);
    }
}

/// `v` is the `p`-adic valuation of the digest `d` read as a big-endian
/// integer, capped at the largest exponent whose power of `p` fits in a
/// `u128`: `p^v` fits and divides `d`, and either `p^(v+1)` does not
/// divide `d` or it no longer fits. Exactly one `v` qualifies.
pub open spec fn capped_p_adic(d: Seq<u8>, p: nat, v: nat) -> bool {
    &&& power(p, v) <= u128::MAX
    &&& be_value(d) % power(p, v) == 0
    &&& (be_value(d) % power(p, v + 1) != 0 || power(p, v + 1) > u128::MAX)
}


/// `b^(m+n) = b^m · b^n`.
proof fn lemma_power_adds(b: nat, m: nat, n: nat)
    ensures
        power(b, m + n) == power(b, m) * power(b, n),
    decreases n,
{
    if n == 0 {
        assert(power(b, m) * 1 == power(b, m));
    } else {
        lemma_power_adds(b, m, (n - 1) as nat);
        lemma_power_succ(b, (m + n - 1) as nat);
        lemma_power_succ(b, (n - 1) as nat);
        let (x, y) = (power(b, m), power(b, (n - 1) as nat));
        assert(x * y * b == x * (y * b)) by (nonlinear_arith);
        assert(power(b, m + n) == power(b, (m + n - 1) as nat) * b);
    }
}

/// Powers of `b ≥ 1` grow with the exponent.
proof fn lemma_power_monotone(b: nat, m: nat, n: nat)
    requires
        b >= 1,
        m <= n,
    ensures
        power(b, m) <= power(b, n),
        power(b, m) >= 1,
    decreases n,
{
    if n == 0 {
    } else {
        lemma_power_monotone(b, if m == n {
            0
        } else {
            m
        }, (n - 1) as nat);
        lemma_power_succ(b, (n - 1) as nat);
        let q = power(b, (n - 1) as nat);
        assert(q * b >= q) by (nonlinear_arith)
            requires
                b >= 1,
                q >= 1,
        ;
    }
}

/// At most one exponent is the capped `p`-adic valuation of a digest.
pub proof fn lemma_capped_p_adic_unique(d: Seq<u8>, p: nat, v1: nat, v2: nat)
    requires
        p >= 2,
        capped_p_adic(d, p, v1),
        capped_p_adic(d, p, v2),
    ensures
        v1 == v2,
{
    if v1 != v2 {
        let (lo, hi) = if v1 < v2 {
            (v1, v2)
        } else {
            (v2, v1)
        };
        lemma_power_monotone(p, lo + 1, hi);
        lemma_power_monotone(p, 0, (hi - lo - 1) as nat);
        lemma_power_adds(p, lo + 1, (hi - lo - 1) as nat);
        assert(lo + 1 + (hi - lo - 1) == hi);
        let big = power(p, hi);
        let small = power(p, lo + 1);
        let rest = power(p, (hi - lo - 1) as nat);
        let x = be_value(d);
        vstd::arithmetic::div_mod::lemma_fundamental_div_mod(x as int, big as int);
        let q = x as int / big as int;
        assert(x == q * big);
        assert(q * big == (q * rest) * small) by (nonlinear_arith)
            requires
                big == small * rest,
        ;
        vstd::arithmetic::div_mod::lemma_mod_multiples_basic(q * rest, small as int);
    }
}

/// A nonzero byte is an odd multiple of two to its trailing-zero count.
proof fn lemma_byte_odd_part(b: u8)
    requires
        b != 0,
    ensures
        exists|q: int|
            #![trigger q % 2]
            q % 2 == 1 && b as int == q * power(2, vstd::std_specs::bits::u8_trailing_zeros(b) as nat),
{
    vstd::std_specs::bits::axiom_u8_trailing_zeros(b);
    let t = vstd::std_specs::bits::u8_trailing_zeros(b);
    reveal_with_fuel(power, 9);
    assert(forall|j: u8| j < t ==> #[trigger] (b >> j) & 1u8 == 0u8);
    assert((b >> (t as u8)) & 1u8 == 1u8);
    if t == 0 {
        assert(b as int == ((b >> 0u8) as int) * 1 && ((b >> 0u8) as int) % 2 == 1) by (bit_vector)
            requires

                (b >> 0u8) & 1u8 == 1u8,
        ;
        assert(power(2, 0) == 1);
    } else if t == 1 {
        assert(b as int == ((b >> 1u8) as int) * 2 && ((b >> 1u8) as int) % 2 == 1) by (bit_vector)
            requires
                (b >> 0u8) & 1u8 == 0u8,
                (b >> 1u8) & 1u8 == 1u8,
        ;
        assert(power(2, 1) == 2);
    } else if t == 2 {
        assert(b as int == ((b >> 2u8) as int) * 4 && ((b >> 2u8) as int) % 2 == 1) by (bit_vector)
            requires
                (b >> 0u8) & 1u8 == 0u8,
                (b >> 1u8) & 1u8 == 0u8,
                (b >> 2u8) & 1u8 == 1u8,
        ;
        assert(power(2, 2) == 4);
    } else if t == 3 {
        assert(b as int == ((b >> 3u8) as int) * 8 && ((b >> 3u8) as int) % 2 == 1) by (bit_vector)
            requires
                (b >> 0u8) & 1u8 == 0u8,
                (b >> 1u8) & 1u8 == 0u8,
                (b >> 2u8) & 1u8 == 0u8,
                (b >> 3u8) & 1u8 == 1u8,
        ;
        assert(power(2, 3) == 8);
    } else if t == 4 {
        assert(b as int == ((b >> 4u8) as int) * 16 && ((b >> 4u8) as int) % 2 == 1) by (bit_vector)
            requires
                (b >> 0u8) & 1u8 == 0u8,
                (b >> 1u8) & 1u8 == 0u8,
                (b >> 2u8) & 1u8 == 0u8,
                (b >> 3u8) & 1u8 == 0u8,
                (b >> 4u8) & 1u8 == 1u8,
        ;
        assert(power(2, 4) == 16);
    } else if t == 5 {
        assert(b as int == ((b >> 5u8) as int) * 32 && ((b >> 5u8) as int) % 2 == 1) by (bit_vector)
            requires
                (b >> 0u8) & 1u8 == 0u8,
                (b >> 1u8) & 1u8 == 0u8,
                (b >> 2u8) & 1u8 == 0u8,
                (b >> 3u8) & 1u8 == 0u8,
                (b >> 4u8) & 1u8 == 0u8,
                (b >> 5u8) & 1u8 == 1u8,
        ;
        assert(power(2, 5) == 32);
    } else if t == 6 {
        assert(b as int == ((b >> 6u8) as int) * 64 && ((b >> 6u8) as int) % 2 == 1) by (bit_vector)
            requires
                (b >> 0u8) & 1u8 == 0u8,
                (b >> 1u8) & 1u8 == 0u8,
                (b >> 2u8) & 1u8 == 0u8,
                (b >> 3u8) & 1u8 == 0u8,
                (b >> 4u8) & 1u8 == 0u8,
                (b >> 5u8) & 1u8 == 0u8,
                (b >> 6u8) & 1u8 == 1u8,
        ;
        assert(power(2, 6) == 64);
    } else if t == 7 {
        assert(b as int == ((b >> 7u8) as int) * 128 && ((b >> 7u8) as int) % 2 == 1) by (bit_vector)
            requires
                (b >> 0u8) & 1u8 == 0u8,
                (b >> 1u8) & 1u8 == 0u8,
                (b >> 2u8) & 1u8 == 0u8,
                (b >> 3u8) & 1u8 == 0u8,
                (b >> 4u8) & 1u8 == 0u8,
                (b >> 5u8) & 1u8 == 0u8,
                (b >> 6u8) & 1u8 == 0u8,
                (b >> 7u8) & 1u8 == 1u8,
        ;
        assert(power(2, 7) == 128);
    }
}

/// A sequence with a nonzero byte is, read big-endian, an odd multiple of
/// two to its trailing-zero-bit count.
proof fn lemma_be_value_odd_part(s: Seq<u8>)
    requires
        trailing_zero_bits(s) < 8 * s.len(),
    ensures
        exists|q: int|
            #![trigger q % 2]
            q % 2 == 1 && be_value(s) as int == q * power(2, trailing_zero_bits(s)),
    decreases s.len(),
{
    let l = s.last();
    let rest = s.drop_last();
    lemma_byte_trailing_zeros_nonzero(l);
    if l != 0 {
        lemma_byte_odd_part(l);
        let t = vstd::std_specs::bits::u8_trailing_zeros(l) as nat;
        let ql = choose|q: int| #![trigger q % 2] q % 2 == 1 && l as int == q * power(2, t);
        lemma_power_adds(2, (8 - t) as nat, t);
        reveal_with_fuel(power, 9);
        assert(power(2, 8) == 256);
        let hi = power(2, (8 - t) as nat);
        lemma_power_monotone(2, 1, (8 - t) as nat);
        assert(hi % 2 == 0) by {
            lemma_power_succ(2, (8 - t - 1) as nat);
            assert(hi == power(2, (8 - t - 1) as nat) * 2);
        }
        let q = be_value(rest) * hi + ql;
        assert(be_value(s) as int == q * power(2, t)) by (nonlinear_arith)
            requires
                be_value(s) == be_value(rest) * 256 + l,
                256 == hi * power(2, t),
                l as int == ql * power(2, t),
                q == be_value(rest) * hi + ql,
        ;
        let h2 = hi / 2;
        assert(hi == 2 * h2);
        let k = be_value(rest) * h2;
        assert(q == 2 * k + ql) by (nonlinear_arith)
            requires
                q == be_value(rest) * hi + ql,
                hi == 2 * h2,
                k == be_value(rest) * h2,
        ;
        vstd::arithmetic::div_mod::lemma_mod_multiples_vanish(k as int, ql, 2);
    } else {
        lemma_be_value_odd_part(rest);
        let t = trailing_zero_bits(rest);
        let q = choose|q: int| #![trigger q % 2] q % 2 == 1 && be_value(rest) as int == q * power(2, t);
        lemma_power_adds(2, t, 8);
        reveal_with_fuel(power, 9);
        assert(power(2, 8) == 256);
        assert(be_value(s) as int == q * power(2, t + 8)) by (nonlinear_arith)
            requires
                be_value(s) == be_value(rest) * 256 + l,
                l == 0,
                be_value(rest) as int == q * power(2, t),
                power(2, t + 8) == power(2, t) * 256,
        ;
        assert(trailing_zero_bits(s) == t + 8);
    }
}

/// Two to the `t ≤ 127` fits in a `u128`.
proof fn lemma_power_two_fits(t: nat)
    requires
        t <= 127,
    ensures
        power(2, t) <= u128::MAX,
{
    lemma_power_is_pow2(t);
    vstd::arithmetic::power2::lemma2_to64();
    vstd::arithmetic::power2::lemma_pow2_adds(64, 64);
    vstd::arithmetic::power2::lemma_pow2_unfold(128);
    if t < 127 {
        vstd::arithmetic::power2::lemma_pow2_strictly_increases(t, 127);
    }
}

/// `power(2, e)` is vstd's `pow2(e)`.
proof fn lemma_power_is_pow2(e: nat)
    ensures
        power(2, e) == vstd::arithmetic::power2::pow2(e),
    decreases e,
{
    if e == 0 {
        vstd::arithmetic::power2::lemma2_to64();
    } else {
        lemma_power_is_pow2((e - 1) as nat);
        vstd::arithmetic::power2::lemma_pow2_unfold(e);
    }
}

/// **For `p = 2` the p-adic valuation is the stratum**: whenever the
/// digest's stratum is at most 127 (its power of two fits in a `u128`),
/// the capped 2-adic valuation equals the 2-adic stratum.
pub proof fn law_p_adic_two_is_stratum(d: Seq<u8>)
    requires
        d.len() == 32,
        stratum_spec(d) <= 127,
    ensures
        p_adic_spec(d, 2) == stratum_spec(d),
{
    let t = stratum_spec(d);
    lemma_be_value_odd_part(d);
    let q = choose|q: int| #![trigger q % 2] q % 2 == 1 && be_value(d) as int == q * power(2, t);
    let m = power(2, t);
    lemma_power_succ(2, t);
    lemma_power_monotone(2, 0, t);
    lemma_power_two_fits(t);
    assert(be_value(d) % m == 0) by {
        vstd::arithmetic::div_mod::lemma_mod_multiples_basic(q, m as int);
    }
    assert(be_value(d) % power(2, t + 1) != 0) by {
        let r = (q - 1) / 2;
        assert(q == 2 * r + 1);
        assert(be_value(d) as int == (m * 2) * r + m) by (nonlinear_arith)
            requires
                be_value(d) as int == q * m,
                q == 2 * r + 1,
        ;
        vstd::arithmetic::div_mod::lemma_mod_multiples_vanish(r, m as int, (m * 2) as int);
        vstd::arithmetic::div_mod::lemma_small_mod(m, (m * 2) as nat);
    }
    assert(capped_p_adic(d, 2, t));
    lemma_capped_p_adic_unique(d, 2, t, p_adic_spec(d, 2));
}

/// The capped `p`-adic valuation of a digest (see [`capped_p_adic`]).
pub open spec fn p_adic_spec(d: Seq<u8>, p: nat) -> nat {
    choose|v: nat| capped_p_adic(d, p, v)
}

fn capped_valuation(d: &[u8; 32], p: u64) -> (v: u32)
    requires
        p >= 2,
    ensures
        capped_p_adic(d@, p as nat, v as nat),
{
    let pp = p as u128;
    let mut k: u32 = 0;
    let mut p_pow: u128 = pp;
    assert(power(p as nat, 1) == p) by {
        lemma_power_succ(p as nat, 0);
    }
    assert(be_value(d@) % 1nat == 0);
    loop
        invariant
            pp == p,
            p >= 2,
            p_pow == power(p as nat, (k + 1) as nat),
            p_pow >= 2,
            k < 128,
            be_value(d@) % power(p as nat, k as nat) == 0,
        decreases u128::MAX - p_pow,
    {
        let r = be_mod(d, p_pow);
        if r != 0 {
            proof {
                assert(power(p as nat, k as nat) <= p_pow) by {
                    assert(p_pow == p * power(p as nat, k as nat));
                    assert(p * power(p as nat, k as nat) >= power(p as nat, k as nat))
                        by (nonlinear_arith)
                        requires
                            p >= 2,
                    ;
                }
            }
            return k;
        }
        match p_pow.checked_mul(pp) {
            None => {
                proof {
                    lemma_power_succ(p as nat, (k + 1) as nat);
                }
                return k + 1;
            },
            Some(next) => {
                proof {
                    lemma_power_succ(p as nat, (k + 1) as nat);
                    lemma_power_fits_u128(p as nat, (k + 2) as nat);
                    assert(next > p_pow) by (nonlinear_arith)
                        requires
                            next == p_pow * p,
                            p >= 2,
                            p_pow >= 2,
                    ;
                }
                p_pow = next;
                k = k + 1;
            },
        }
    }
}

/// `p`-adic valuation of a 256-bit content address: the largest `k`
/// such that `p^k` divides the digest read as a 256-bit big-endian
/// integer, capped at the largest `k` for which `p^k` fits in a `u128`
/// (the cap is what a zero digest, divisible by every power, returns).
pub fn p_adic_valuation(d: &[u8; 32], p: u64) -> (v: u32)
    requires
        p >= 2,
    ensures
        capped_p_adic(d@, p as nat, v as nat),
        v == p_adic_spec(d@, p as nat),
{
    let v = capped_valuation(d, p);
    proof {
        lemma_capped_p_adic_unique(d@, p as nat, v as nat, p_adic_spec(d@, p as nat));
    }
    v
}

} // verus!
