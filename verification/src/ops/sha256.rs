//! SHA-256 and SHA-256d in pure Rust, proved against the FIPS 180-4
//! definition: message padding, the 64-word message schedule, the
//! 64-round compression function, and the big-endian digest encoding.

use vstd::prelude::*;

verus! {

/// FIPS 180-4 §4.2.2 round constants.
pub const K: [u32; 64] = [
    0x428a2f98, 0x71374491, 0xb5c0fbcf, 0xe9b5dba5, 0x3956c25b, 0x59f111f1, 0x923f82a4, 0xab1c5ed5,
    0xd807aa98, 0x12835b01, 0x243185be, 0x550c7dc3, 0x72be5d74, 0x80deb1fe, 0x9bdc06a7, 0xc19bf174,
    0xe49b69c1, 0xefbe4786, 0x0fc19dc6, 0x240ca1cc, 0x2de92c6f, 0x4a7484aa, 0x5cb0a9dc, 0x76f988da,
    0x983e5152, 0xa831c66d, 0xb00327c8, 0xbf597fc7, 0xc6e00bf3, 0xd5a79147, 0x06ca6351, 0x14292967,
    0x27b70a85, 0x2e1b2138, 0x4d2c6dfc, 0x53380d13, 0x650a7354, 0x766a0abb, 0x81c2c92e, 0x92722c85,
    0xa2bfe8a1, 0xa81a664b, 0xc24b8b70, 0xc76c51a3, 0xd192e819, 0xd6990624, 0xf40e3585, 0x106aa070,
    0x19a4c116, 0x1e376c08, 0x2748774c, 0x34b0bcb5, 0x391c0cb3, 0x4ed8aa4a, 0x5b9cca4f, 0x682e6ff3,
    0x748f82ee, 0x78a5636f, 0x84c87814, 0x8cc70208, 0x90befffa, 0xa4506ceb, 0xbef9a3f7, 0xc67178f2,
];

/// FIPS 180-4 §5.3.3 initial hash value for SHA-256.
pub const SHA256_INITIAL_STATE: [u32; 8] = [
    0x6a09e667, 0xbb67ae85, 0x3c6ef372, 0xa54ff53a, 0x510e527f, 0x9b05688c, 0x1f83d9ab, 0x5be0cd19,
];

// ─── The FIPS 180-4 definition ──────────────────────────────────────────

/// `ROTR^n(x)` — rotate a 32-bit word right by `n` (0 < n < 32).
pub open spec fn rotr(x: u32, n: u32) -> u32 {
    (x >> n) | (x << ((32 - n) as u32))
}

/// `Σ0`.
pub open spec fn big_sigma0(x: u32) -> u32 {
    rotr(x, 2) ^ rotr(x, 13) ^ rotr(x, 22)
}

/// `Σ1`.
pub open spec fn big_sigma1(x: u32) -> u32 {
    rotr(x, 6) ^ rotr(x, 11) ^ rotr(x, 25)
}

/// `σ0`.
pub open spec fn small_sigma0(x: u32) -> u32 {
    rotr(x, 7) ^ rotr(x, 18) ^ (x >> 3)
}

/// `σ1`.
pub open spec fn small_sigma1(x: u32) -> u32 {
    rotr(x, 17) ^ rotr(x, 19) ^ (x >> 10)
}

/// `Ch(e, f, g)`.
pub open spec fn ch(e: u32, f: u32, g: u32) -> u32 {
    (e & f) ^ (!e & g)
}

/// `Maj(a, b, c)`.
pub open spec fn maj(a: u32, b: u32, c: u32) -> u32 {
    (a & b) ^ (a & c) ^ (b & c)
}

/// The big-endian 32-bit word at word index `i` of `bytes`.
pub open spec fn be_word(bytes: Seq<u8>, i: int) -> u32 {
    ((bytes[4 * i] as u32) << 24u32) | ((bytes[4 * i + 1] as u32) << 16u32) | ((bytes[4 * i
        + 2] as u32) << 8u32) | (bytes[4 * i + 3] as u32)
}

/// The message schedule `W_t` of a 64-byte block.
pub open spec fn schedule(block: Seq<u8>, t: nat) -> u32
    decreases t,
{
    if t < 16 {
        be_word(block, t as int)
    } else {
        schedule(block, (t - 16) as nat).wrapping_add(
            small_sigma0(schedule(block, (t - 15) as nat)),
        ).wrapping_add(schedule(block, (t - 7) as nat)).wrapping_add(
            small_sigma1(schedule(block, (t - 2) as nat)),
        )
    }
}

/// One compression round on the working variables `(a, b, c, d, e, f, g, h)`.
pub open spec fn round(s: Seq<u32>, k: u32, w: u32) -> Seq<u32> {
    let t1 = s[7].wrapping_add(big_sigma1(s[4])).wrapping_add(ch(s[4], s[5], s[6])).wrapping_add(
        k,
    ).wrapping_add(w);
    let t2 = big_sigma0(s[0]).wrapping_add(maj(s[0], s[1], s[2]));
    seq![t1.wrapping_add(t2), s[0], s[1], s[2], s[3].wrapping_add(t1), s[4], s[5], s[6]]
}

/// The working variables after the first `t` rounds on `block`.
pub open spec fn rounds(s: Seq<u32>, block: Seq<u8>, t: nat) -> Seq<u32>
    decreases t,
{
    if t == 0 {
        s
    } else {
        round(
            rounds(s, block, (t - 1) as nat),
            K[t - 1],
            schedule(block, (t - 1) as nat),
        )
    }
}

/// The SHA-256 compression function: the new intermediate hash value.
pub open spec fn compress_spec(state: Seq<u32>, block: Seq<u8>) -> Seq<u32> {
    let r = rounds(state, block, 64);
    Seq::new(8, |i: int| state[i].wrapping_add(r[i]))
}

/// The big-endian encoding of a 32-bit word.
pub open spec fn word_be_bytes(x: u32) -> Seq<u8> {
    seq![(x >> 24u32) as u8, (x >> 16u32) as u8, (x >> 8u32) as u8, x as u8]
}

/// The big-endian encoding of a 64-bit word.
pub open spec fn u64_be_bytes(x: u64) -> Seq<u8> {
    seq![
        (x >> 56u64) as u8,
        (x >> 48u64) as u8,
        (x >> 40u64) as u8,
        (x >> 32u64) as u8,
        (x >> 24u64) as u8,
        (x >> 16u64) as u8,
        (x >> 8u64) as u8,
        x as u8,
    ]
}

/// Number of zero bytes between the `0x80` sentinel and the length field,
/// so that the padded message is a whole number of 64-byte blocks.
pub open spec fn pad_zeros(len: nat) -> nat {
    ((55 - (len % 64) as int) % 64) as nat
}

/// The 8-byte length field: the message length in bits, modulo 2^64.
pub open spec fn length_field(len: nat) -> Seq<u8> {
    u64_be_bytes(((len * 8) % 0x1_0000_0000_0000_0000) as u64)
}

/// FIPS 180-4 §5.1.1 message padding.
pub open spec fn padding(msg: Seq<u8>) -> Seq<u8> {
    msg + seq![0x80u8] + Seq::new(pad_zeros(msg.len()), |i: int| 0u8) + length_field(msg.len())
}

/// The intermediate hash value after the first `n` 64-byte blocks of `m`.
pub open spec fn hash_blocks(m: Seq<u8>, n: nat) -> Seq<u32>
    decreases n,
{
    if n == 0 {
        SHA256_INITIAL_STATE@
    } else {
        compress_spec(hash_blocks(m, (n - 1) as nat), m.subrange(64 * (n - 1), 64 * n as int))
    }
}

/// The 32-byte big-endian encoding of an eight-word hash value.
pub open spec fn digest_bytes(h: Seq<u32>) -> Seq<u8> {
    Seq::new(32, |i: int| word_be_bytes(h[i / 4])[i % 4])
}

/// SHA-256 of a byte sequence.
pub open spec fn sha256_spec(msg: Seq<u8>) -> Seq<u8> {
    let p = padding(msg);
    digest_bytes(hash_blocks(p, p.len() / 64))
}

/// SHA-256d (SHA-256 applied twice), internal byte order.
pub open spec fn sha256d_spec(msg: Seq<u8>) -> Seq<u8> {
    sha256_spec(sha256_spec(msg))
}

/// SHA-256d in Bitcoin display order: the internal digest byte-reversed.
pub open spec fn sha256d_display_spec(msg: Seq<u8>) -> Seq<u8> {
    sha256d_spec(msg).reverse()
}

/// Index-level description of the padded message.
pub proof fn lemma_padding_index(msg: Seq<u8>)
    ensures
        padding(msg).len() == msg.len() + 9 + pad_zeros(msg.len()),
        padding(msg).len() % 64 == 0,
        padding(msg).len() >= 64,
        forall|k: int| 0 <= k < msg.len() ==> #[trigger] padding(msg)[k] == msg[k],
        padding(msg)[msg.len() as int] == 0x80u8,
        forall|k: int|
            msg.len() < k < msg.len() + 1 + pad_zeros(msg.len()) ==> #[trigger] padding(msg)[k]
                == 0u8,
        forall|k: int|
            msg.len() + 1 + pad_zeros(msg.len()) <= k < padding(msg).len() ==> #[trigger] padding(
                msg,
            )[k] == length_field(msg.len())[k - (msg.len() + 1 + pad_zeros(msg.len()))],
{
    let z = pad_zeros(msg.len());
    let a = msg + seq![0x80u8];
    let b = a + Seq::new(z, |i: int| 0u8);
    assert(padding(msg) == b + length_field(msg.len()));
    assert forall|k: int| 0 <= k < msg.len() implies #[trigger] padding(msg)[k] == msg[k] by {
        assert(b[k] == a[k]);
    }
    assert(b[msg.len() as int] == a[msg.len() as int]);
    assert forall|k: int| msg.len() < k < msg.len() + 1 + z implies #[trigger] padding(msg)[k]
        == 0u8 by {
        assert(b[k] == Seq::new(z, |i: int| 0u8)[k - msg.len() - 1]);
    }
}

/// The intermediate hash value after `n` blocks depends only on those
/// `n` blocks.
pub proof fn lemma_hash_blocks_prefix(m1: Seq<u8>, m2: Seq<u8>, n: nat)
    requires
        64 * n <= m1.len(),
        64 * n <= m2.len(),
        m1.subrange(0, 64 * n as int) == m2.subrange(0, 64 * n as int),
    ensures
        hash_blocks(m1, n) == hash_blocks(m2, n),
    decreases n,
{
    if n > 0 {
        let n1 = (n - 1) as nat;
        assert forall|k: int| 0 <= k < 64 * n implies m1[k] == m2[k] by {
            assert(m1[k] == m1.subrange(0, 64 * n as int)[k]);
            assert(m2[k] == m2.subrange(0, 64 * n as int)[k]);
        }
        assert(m1.subrange(0, 64 * n1 as int) =~= m2.subrange(0, 64 * n1 as int));
        lemma_hash_blocks_prefix(m1, m2, n1);
        assert(m1.subrange(64 * n1 as int, 64 * n as int) =~= m2.subrange(
            64 * n1 as int,
            64 * n as int,
        ));
    }
}

// ─── Executable primitives ──────────────────────────────────────────────

fn rotr_exec(x: u32, n: u32) -> (r: u32)
    requires
        0 < n < 32,
    ensures
        r == rotr(x, n),
{
    (x >> n) | (x << (32 - n))
}

/// SHA-256 compression of one 64-byte block into the running state.
pub fn compress(state: &mut [u32; 8], block: &[u8; 64])
    ensures
        final(state)@ == compress_spec(old(state)@, block@),
{
    let mut w = [0u32; 64];
    for i in 0..16
        invariant
            forall|j: int| 0 <= j < i ==> w[j] == schedule(block@, j as nat),
    {
        let b = 4 * i;
        w[i] = ((block[b] as u32) << 24u32) | ((block[b + 1] as u32) << 16u32) | ((block[b
            + 2] as u32) << 8u32) | (block[b + 3] as u32);
    }
    for i in 16..64
        invariant
            forall|j: int| 0 <= j < i ==> w[j] == schedule(block@, j as nat),
    {
        let w15 = w[i - 15];
        let w2 = w[i - 2];
        let s0 = rotr_exec(w15, 7) ^ rotr_exec(w15, 18) ^ (w15 >> 3);
        let s1 = rotr_exec(w2, 17) ^ rotr_exec(w2, 19) ^ (w2 >> 10);
        w[i] = w[i - 16].wrapping_add(s0).wrapping_add(w[i - 7]).wrapping_add(s1);
    }

    let ghost init = state@;
    let mut a = state[0];
    let mut b = state[1];
    let mut c = state[2];
    let mut d = state[3];
    let mut e = state[4];
    let mut f = state[5];
    let mut g = state[6];
    let mut h = state[7];
    assert(seq![a, b, c, d, e, f, g, h] =~= rounds(init, block@, 0));

    for i in 0..64
        invariant
            init == state@,
            forall|j: int| 0 <= j < 64 ==> w[j] == schedule(block@, j as nat),
            seq![a, b, c, d, e, f, g, h] == rounds(init, block@, i as nat),
    {
        let s1 = rotr_exec(e, 6) ^ rotr_exec(e, 11) ^ rotr_exec(e, 25);
        let chv = (e & f) ^ (!e & g);
        let temp1 = h.wrapping_add(s1).wrapping_add(chv).wrapping_add(K[i]).wrapping_add(w[i]);
        let s0 = rotr_exec(a, 2) ^ rotr_exec(a, 13) ^ rotr_exec(a, 22);
        let majv = (a & b) ^ (a & c) ^ (b & c);
        let temp2 = s0.wrapping_add(majv);
        h = g;
        g = f;
        f = e;
        e = d.wrapping_add(temp1);
        d = c;
        c = b;
        b = a;
        a = temp1.wrapping_add(temp2);
        proof {
            let prev = rounds(init, block@, i as nat);
            assert(rounds(init, block@, (i + 1) as nat) == round(prev, K[i as int], w[i as int]));
            assert(seq![a, b, c, d, e, f, g, h] =~= round(prev, K[i as int], w[i as int]));
        }
    }

    state[0] = state[0].wrapping_add(a);
    state[1] = state[1].wrapping_add(b);
    state[2] = state[2].wrapping_add(c);
    state[3] = state[3].wrapping_add(d);
    state[4] = state[4].wrapping_add(e);
    state[5] = state[5].wrapping_add(f);
    state[6] = state[6].wrapping_add(g);
    state[7] = state[7].wrapping_add(h);
    assert(state@ =~= compress_spec(init, block@));
}

/// Copy the 64 bytes `buf[start .. start + 64]` into a block.
pub(crate) fn block_at(buf: &[u8], start: usize) -> (block: [u8; 64])
    requires
        start + 64 <= buf.len(),
    ensures
        block@ == buf@.subrange(start as int, start + 64),
{
    let mut block = [0u8; 64];
    for j in 0..64
        invariant
            start + 64 <= buf.len(),
            forall|t: int| 0 <= t < j ==> block[t] == buf[start + t],
    {
        block[j] = buf[start + j];
    }
    assert(block@ =~= buf@.subrange(start as int, start + 64));
    block
}

/// The big-endian bytes of a 64-bit word.
pub(crate) fn u64_to_be(x: u64) -> (r: [u8; 8])
    ensures
        r@ == u64_be_bytes(x),
{
    let r = [
        (x >> 56u64) as u8,
        (x >> 48u64) as u8,
        (x >> 40u64) as u8,
        (x >> 32u64) as u8,
        (x >> 24u64) as u8,
        (x >> 16u64) as u8,
        (x >> 8u64) as u8,
        x as u8,
    ];
    assert(r@ =~= u64_be_bytes(x));
    r
}

/// The big-endian 32-byte encoding of the final hash value.
pub(crate) fn state_to_bytes(state: &[u32; 8]) -> (out: [u8; 32])
    ensures
        out@ == digest_bytes(state@),
{
    let mut out = [0u8; 32];
    for k in 0..8
        invariant
            forall|t: int| 0 <= t < 4 * k ==> out[t] == word_be_bytes(state[t / 4])[t % 4],
    {
        let wd = state[k];
        out[4 * k] = (wd >> 24u32) as u8;
        out[4 * k + 1] = (wd >> 16u32) as u8;
        out[4 * k + 2] = (wd >> 8u32) as u8;
        out[4 * k + 3] = wd as u8;
    }
    assert(out@ =~= digest_bytes(state@));
    out
}

/// Absorb the final padded block(s) of `msg`: the last `msg.len() % 64`
/// message bytes (`buf[start..end]`), the `0x80` sentinel, zero padding
/// and the 8-byte big-endian bit length `bit_len`.
pub(crate) fn compress_final(
    state: &mut [u32; 8],
    buf: &[u8],
    start: usize,
    end: usize,
    bit_len: u64,
    Ghost(msg): Ghost<Seq<u8>>,
)
    requires
        start <= end <= buf.len(),
        end - start < 64,
        msg.len() % 64 == end - start,
        buf@.subrange(start as int, end as int) == msg.subrange(
            msg.len() - (end - start),
            msg.len() as int,
        ),
        bit_len == (msg.len() * 8) % 0x1_0000_0000_0000_0000,
        old(state)@ == hash_blocks(padding(msg), msg.len() / 64),
    ensures
        final(state)@ == hash_blocks(padding(msg), padding(msg).len() / 64),
{
    let ghost p = padding(msg);
    proof {
        lemma_padding_index(msg);
    }
    let ghost i: int = msg.len() - (end - start);
    let rem = end - start;
    let mut tail = [0u8; 128];
    for j in 0..rem
        invariant
            rem == end - start,
            start <= end <= buf.len(),
            rem < 64,
            forall|t: int| 0 <= t < j ==> tail[t] == buf[start + t],
            forall|t: int| j <= t < 128 ==> tail[t] == 0u8,
    {
        tail[j] = buf[start + j];
    }
    tail[rem] = 0x80;
    let lb = u64_to_be(bit_len);
    proof {
        assert(lb@ == length_field(msg.len()));
        assert forall|t: int| 0 <= t < rem implies tail[t] == msg[i + t] by {
            assert(buf@.subrange(start as int, end as int)[t] == msg.subrange(
                i,
                msg.len() as int,
            )[t]);
        }
    }
    if rem + 9 <= 64 {
        for j in 0..8
            invariant
                rem + 9 <= 64,
                forall|t: int| 0 <= t < rem ==> tail[t] == msg[i + t],
                tail[rem as int] == 0x80u8,
                forall|t: int| rem < t < 56 ==> tail[t] == 0u8,
                forall|t: int| 56 <= t < 56 + j ==> tail[t] == lb[t - 56],
        {
            tail[56 + j] = lb[j];
        }
        let block = block_at(&tail, 0);
        proof {
            assert(p.len() == i + 64);
            assert forall|t: int| 0 <= t < 64 implies block@[t] == p[i + t] by {
                if t < rem {
                } else if t == rem {
                } else if t < 56 {
                } else {
                }
            }
            assert(block@ =~= p.subrange(i, i + 64));
            assert(hash_blocks(p, (i / 64 + 1) as nat) == compress_spec(
                hash_blocks(p, (i / 64) as nat),
                p.subrange(i, i + 64),
            ));
        }
        compress(state, &block);
        proof {
            assert(p.len() / 64 == i / 64 + 1);
        }
    } else {
        for j in 0..8
            invariant
                rem + 9 > 64,
                rem < 64,
                forall|t: int| 0 <= t < rem ==> tail[t] == msg[i + t],
                tail[rem as int] == 0x80u8,
                forall|t: int| rem < t < 120 ==> tail[t] == 0u8,
                forall|t: int| 120 <= t < 120 + j ==> tail[t] == lb[t - 120],
        {
            tail[120 + j] = lb[j];
        }
        let block = block_at(&tail, 0);
        proof {
            assert(p.len() == i + 128);
            assert forall|t: int| 0 <= t < 64 implies block@[t] == p[i + t] by {
                if t < rem {
                } else if t == rem {
                } else {
                }
            }
            assert(block@ =~= p.subrange(i, i + 64));
            assert(hash_blocks(p, (i / 64 + 1) as nat) == compress_spec(
                hash_blocks(p, (i / 64) as nat),
                p.subrange(i, i + 64),
            ));
        }
        compress(state, &block);
        let block = block_at(&tail, 64);
        proof {
            assert forall|t: int| 64 <= t < 128 implies tail@[t] == p[i + t] by {
                if t < rem {
                } else if t == rem {
                } else if t < 120 {
                } else {
                }
            }
            assert(block@ =~= p.subrange(i + 64, i + 128));
            assert(hash_blocks(p, (i / 64 + 2) as nat) == compress_spec(
                hash_blocks(p, (i / 64 + 1) as nat),
                p.subrange(i + 64, i + 128),
            ));
        }
        compress(state, &block);
        proof {
            assert(p.len() / 64 == i / 64 + 2);
        }
    }
}

/// SHA-256 over a byte sequence — the canonical FIPS 180-4 algorithm.
pub fn sha256(data: &[u8]) -> (out: [u8; 32])
    ensures
        out@ == sha256_spec(data@),
{
    let ghost msg = data@;
    let ghost p = padding(msg);
    proof {
        lemma_padding_index(msg);
    }
    let mut state = SHA256_INITIAL_STATE;
    let bit_len = (data.len() as u64).wrapping_mul(8);

    // All complete 64-byte blocks of the message.
    let mut i: usize = 0;
    while data.len() - i >= 64
        invariant
            i <= data.len(),
            i % 64 == 0,
            msg == data@,
            p == padding(msg),
            p.len() == msg.len() + 9 + pad_zeros(msg.len()),
            forall|k: int| 0 <= k < msg.len() ==> #[trigger] p[k] == msg[k],
            state@ == hash_blocks(p, (i / 64) as nat),
        decreases data.len() - i,
    {
        let block = block_at(data, i);
        proof {
            assert(block@ =~= p.subrange(i as int, i + 64));
            assert(hash_blocks(p, (i / 64 + 1) as nat) == compress_spec(
                hash_blocks(p, (i / 64) as nat),
                p.subrange(i as int, i + 64),
            ));
        }
        compress(&mut state, &block);
        i = i + 64;
    }

    // The final one or two blocks.
    proof {
        assert(data@.subrange(i as int, data.len() as int) =~= msg.subrange(
            msg.len() - (data.len() - i),
            msg.len() as int,
        ));
    }
    compress_final(&mut state, data, i, data.len(), bit_len, Ghost(msg));
    state_to_bytes(&state)
}

/// SHA-256d: SHA-256 applied twice, in internal byte order.
pub fn sha256d_internal(data: &[u8]) -> (out: [u8; 32])
    ensures
        out@ == sha256d_spec(data@),
{
    let first = sha256(data);
    sha256(&first)
}

/// SHA-256d in Bitcoin display order (most-significant byte first) — the
/// byte order the proof-of-work target comparison uses.
pub fn sha256d_display(data: &[u8]) -> (out: [u8; 32])
    ensures
        out@ == sha256d_display_spec(data@),
{
    let inner = sha256d_internal(data);
    let mut out = [0u8; 32];
    for j in 0..32
        invariant
            inner@ == sha256d_spec(data@),
            forall|t: int| 0 <= t < j ==> out[t] == inner[31 - t],
    {
        out[j] = inner[31 - j];
    }
    assert(out@ =~= sha256d_display_spec(data@));
    out
}

} // verus!
