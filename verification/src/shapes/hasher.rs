//! `Sha256dHasher` — the `sha256d` σ-axis as a streaming hasher: Bitcoin's
//! double SHA-256, finalized in Bitcoin display order.
//!
//! The inner SHA-256 pass runs online (one compression per completed
//! 64-byte block); the outer pass runs once at [`Sha256dHasher::finalize`],
//! and the digest is byte-reversed into display order. Whatever the
//! chunking of the input, the result equals the one-shot
//! [`sha256d_display`](crate::ops::sha256::sha256d_display) of the
//! concatenated bytes.

use vstd::prelude::*;

use crate::ops::sha256::{
    compress, compress_spec, compress_final, hash_blocks, lemma_hash_blocks_prefix, lemma_padding_index,
    padding, sha256, sha256d_display_spec, state_to_bytes, SHA256_INITIAL_STATE,
};

verus! {

/// Streaming SHA-256d. Holds the running inner-pass SHA-256 state, the
/// bytes of the current partial block and the total byte count.
#[derive(Clone, Copy)]
pub struct Sha256dHasher {
    state: [u32; 8],
    partial: [u8; 64],
    partial_len: u8,
    total_bytes: u64,
    absorbed: Ghost<Seq<u8>>,
}

/// The buffered state `(state, partial, partial_len, total_bytes)`
/// summarizes the absorbed byte sequence `a`.
pub open spec fn summarizes(
    state: Seq<u32>,
    partial: Seq<u8>,
    partial_len: u8,
    total_bytes: u64,
    a: Seq<u8>,
) -> bool {
    let q = (a.len() / 64) as int;
    &&& partial.len() == 64
    &&& partial_len < 64
    &&& partial_len == a.len() % 64
    &&& state == hash_blocks(a, q as nat)
    &&& partial.subrange(0, partial_len as int) == a.subrange(64 * q, a.len() as int)
    &&& total_bytes == a.len() % 0x1_0000_0000_0000_0000
}

impl View for Sha256dHasher {
    type V = Seq<u8>;

    /// The byte sequence folded into the hasher so far.
    closed spec fn view(&self) -> Seq<u8> {
        self.absorbed@
    }
}

impl Sha256dHasher {
    #[verifier::type_invariant]
    spec fn inv(self) -> bool {
        summarizes(
            self.state@,
            self.partial@,
            self.partial_len,
            self.total_bytes,
            self.absorbed@,
        )
    }

    /// A fresh hasher that has absorbed nothing.
    pub fn initial() -> (h: Self)
        ensures
            h@ == Seq::<u8>::empty(),
    {
        let ghost e = Seq::<u8>::empty();
        let state = SHA256_INITIAL_STATE;
        let partial = [0u8; 64];
        proof {
            assert(hash_blocks(e, 0) == state@);
            assert(partial@.subrange(0, 0) =~= e.subrange(0, 0));
        }
        let h = Sha256dHasher {
            state,
            partial,
            partial_len: 0,
            total_bytes: 0,
            absorbed: Ghost(e),
        };
        h
    }

    /// Fold one byte.
    pub fn fold_byte(self, byte: u8) -> (h: Self)
        ensures
            h@ == self@.push(byte),
    {
        proof {
            use_type_invariant(&self);
        }
        let Sha256dHasher { mut state, mut partial, partial_len, total_bytes, absorbed } = self;
        let ghost a = absorbed@;
        let ghost a2 = a.push(byte);
        let ghost q: int = (a.len() / 64) as int;
        let ghost old_partial = partial@;
        partial[partial_len as usize] = byte;
        let mut len = partial_len + 1;
        let total = total_bytes.wrapping_add(1);
        proof {
            assert forall|t: int| 0 <= t < len implies partial@[t] == a2[64 * q + t] by {
                if t < partial_len {
                    assert(old_partial.subrange(0, partial_len as int)[t] == a.subrange(
                        64 * q,
                        a.len() as int,
                    )[t]);
                }
            }
        }
        if len == 64 {
            proof {
                assert(a.subrange(0, 64 * q) =~= a2.subrange(0, 64 * q));
                lemma_hash_blocks_prefix(a, a2, q as nat);
                assert(partial@ =~= a2.subrange(64 * q, 64 * q + 64));
                assert(hash_blocks(a2, (q + 1) as nat) == compress_spec(
                    hash_blocks(a2, q as nat),
                    a2.subrange(64 * q, 64 * q + 64),
                ));
            }
            compress(&mut state, &partial);
            len = 0;
            proof {
                assert(partial@.subrange(0, 0) =~= a2.subrange(64 * (q + 1), a2.len() as int));
            }
        } else {
            proof {
                assert(a.subrange(0, 64 * q) =~= a2.subrange(0, 64 * q));
                lemma_hash_blocks_prefix(a, a2, q as nat);
                assert(partial@.subrange(0, len as int) =~= a2.subrange(64 * q, a2.len() as int));
            }
        }
        Sha256dHasher { state, partial, partial_len: len, total_bytes: total, absorbed: Ghost(a2) }
    }
    /// Fold a byte slice, filling the partial block chunk by chunk and
    /// compressing each block as it completes.
    #[verifier::rlimit(40)]
    pub fn fold_bytes(self, bytes: &[u8]) -> (h: Self)
        ensures
            h@ == self@ + bytes@,
    {
        proof {
            use_type_invariant(&self);
        }
        let Sha256dHasher { mut state, mut partial, mut partial_len, mut total_bytes, absorbed } =
            self;
        let ghost a0 = absorbed@;
        let ghost mut a = a0;
        let mut i: usize = 0;
        proof {
            assert(a0 =~= a0 + bytes@.subrange(0, 0));
        }
        while i < bytes.len()
            invariant
                i <= bytes.len(),
                a == a0 + bytes@.subrange(0, i as int),
                summarizes(state@, partial@, partial_len, total_bytes, a),
            decreases bytes.len() - i,
        {
            let pl = partial_len as usize;
            let need = 64 - pl;
            let take = if need < bytes.len() - i {
                need
            } else {
                bytes.len() - i
            };
            let ghost old_partial = partial@;
            let ghost q: int = (a.len() / 64) as int;
            for j in 0..take
                invariant
                    pl + take <= 64,
                    i + take <= bytes.len(),
                    partial@.len() == 64,
                    forall|t: int| 0 <= t < pl ==> partial@[t] == old_partial[t],
                    forall|t: int| pl <= t < pl + j ==> partial@[t] == bytes@[i + t - pl],
            {
                partial[pl + j] = bytes[i + j];
            }
            let ghost a2 = a + bytes@.subrange(i as int, (i + take) as int);
            proof {
                assert(a2 =~= a0 + bytes@.subrange(0, (i + take) as int));
                assert forall|t: int| 0 <= t < pl + take implies partial@[t] == a2[64 * q + t] by {
                    if t < pl {
                        assert(old_partial.subrange(0, pl as int)[t] == a.subrange(
                            64 * q,
                            a.len() as int,
                        )[t]);
                    }
                }
                assert(a.subrange(0, 64 * q) =~= a2.subrange(0, 64 * q));
                lemma_hash_blocks_prefix(a, a2, q as nat);
            }
            partial_len = partial_len + take as u8;
            total_bytes = total_bytes.wrapping_add(take as u64);
            i = i + take;
            if partial_len == 64 {
                proof {
                    assert(partial@ =~= a2.subrange(64 * q, 64 * q + 64));
                    assert(hash_blocks(a2, (q + 1) as nat) == compress_spec(
                        hash_blocks(a2, q as nat),
                        a2.subrange(64 * q, 64 * q + 64),
                    ));
                }
                compress(&mut state, &partial);
                partial_len = 0;
                proof {
                    assert(partial@.subrange(0, 0) =~= a2.subrange(
                        64 * (q + 1),
                        a2.len() as int,
                    ));
                }
            } else {
                proof {
                    assert(partial@.subrange(0, partial_len as int) =~= a2.subrange(
                        64 * q,
                        a2.len() as int,
                    ));
                }
            }
            proof {
                a = a2;
            }
        }
        proof {
            assert(bytes@.subrange(0, bytes.len() as int) =~= bytes@);
        }
        Sha256dHasher { state, partial, partial_len, total_bytes, absorbed: Ghost(a) }
    }

    /// Finish: pad and compress the inner pass, hash its 32-byte digest
    /// once more, and emit the result in Bitcoin display order.
    pub fn finalize(self) -> (out: [u8; 32])
        ensures
            out@ == sha256d_display_spec(self@),
    {
        proof {
            use_type_invariant(&self);
        }
        let Sha256dHasher { mut state, partial, partial_len, total_bytes, absorbed } = self;
        let ghost a = absorbed@;
        let bit_len = total_bytes.wrapping_mul(8);
        proof {
            let q: int = (a.len() / 64) as int;
            lemma_padding_index(a);
            assert(padding(a).subrange(0, 64 * q) =~= a.subrange(0, 64 * q));
            lemma_hash_blocks_prefix(a, padding(a), q as nat);
            vstd::arithmetic::div_mod::lemma_mul_mod_noop_left(
                a.len() as int,
                8,
                0x1_0000_0000_0000_0000,
            );
        }
        compress_final(&mut state, &partial, 0, partial_len as usize, bit_len, Ghost(a));
        let inner = state_to_bytes(&state);
        let digest = sha256(&inner);
        let mut out = [0u8; 32];
        for j in 0..32
            invariant
                forall|t: int| 0 <= t < j ==> out[t] == digest[31 - t],
        {
            out[j] = digest[31 - j];
        }
        assert(out@ =~= sha256d_display_spec(a));
        out
    }
}

impl Default for Sha256dHasher {
    fn default() -> (h: Self)
        ensures
            h@ == Seq::<u8>::empty(),
    {
        Self::initial()
    }
}

} // verus!
