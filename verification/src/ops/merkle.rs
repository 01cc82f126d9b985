//! Bitcoin's wire-format merkle root: the recurrence of pair-and-rehash
//! under SHA-256d on internal-order bytes, duplicating the last element
//! on odd arity.
//!
//! > `merkle_root([root]) = root`
//! > `merkle_root(leaves) = merkle_root(pair_up(leaves))`

use vstd::prelude::*;

use crate::ops::sha256::{sha256d_internal, sha256d_spec};

verus! {

/// The byte sequences held by a sequence of 32-byte digests.
pub open spec fn digest_seqs(v: Seq<[u8; 32]>) -> Seq<Seq<u8>> {
    Seq::new(v.len(), |i: int| v[i]@)
}

/// The SHA-256d of two digests concatenated in order.
pub open spec fn pair_spec(left: Seq<u8>, right: Seq<u8>) -> Seq<u8> {
    sha256d_spec(left + right)
}

/// One level of the tree: adjacent pairs hashed, the last element paired
/// with itself when the arity is odd.
pub open spec fn pair_up_spec(leaves: Seq<Seq<u8>>) -> Seq<Seq<u8>> {
    Seq::new(
        (leaves.len() + 1) / 2,
        |i: int|
            if 2 * i + 1 < leaves.len() {
                pair_spec(leaves[2 * i], leaves[2 * i + 1])
            } else {
                pair_spec(leaves[2 * i], leaves[2 * i])
            },
    )
}

/// The merkle root of a non-empty sequence of leaves.
pub open spec fn merkle_spec(leaves: Seq<Seq<u8>>) -> Seq<u8>
    decreases leaves.len(),
{
    if leaves.len() <= 1 {
        leaves[0]
    } else {
        merkle_spec(pair_up_spec(leaves))
    }
}

/// SHA-256d of `left ‖ right`.
fn pair_hash(left: &[u8; 32], right: &[u8; 32]) -> (out: [u8; 32])
    ensures
        out@ == pair_spec(left@, right@),
{
    let mut buf = [0u8; 64];
    for i in 0..64
        invariant
            forall|j: int| 0 <= j < i ==> buf[j] == (left@ + right@)[j],
    {
        if i < 32 {
            buf[i] = left[i];
        } else {
            buf[i] = right[i - 32];
        }
    }
    assert(buf@ =~= left@ + right@);
    sha256d_internal(&buf)
}

/// One level descent: the next level's digests.
fn pair_up(level: &Vec<[u8; 32]>) -> (next: Vec<[u8; 32]>)
    ensures
        next.len() == (level.len() + 1) / 2,
        digest_seqs(next@) == pair_up_spec(digest_seqs(level@)),
{
    let ghost leaves = digest_seqs(level@);
    let ghost target = pair_up_spec(leaves);
    let mut next: Vec<[u8; 32]> = Vec::new();
    let mut i: usize = 0;
    while i < level.len()
        invariant
            leaves == digest_seqs(level@),
            target == pair_up_spec(leaves),
            i <= level.len(),
            i % 2 == 0 || i == level.len(),
            next.len() == (i + 1) / 2,
            forall|k: int| 0 <= k < next.len() ==> #[trigger] next@[k]@ == target[k],
        decreases level.len() - i,
    {
        let ghost k = next.len() as int;
        assert(2 * k == i);
        assert(leaves[i as int] == level@[i as int]@);
        if i + 1 < level.len() {
            assert(leaves[i + 1] == level@[i + 1]@);
            let h = pair_hash(&level[i], &level[i + 1]);
            assert(h@ == target[k]);
            next.push(h);
            i = i + 2;
        } else {
            let h = pair_hash(&level[i], &level[i]);
            assert(h@ == target[k]);
            next.push(h);
            i = i + 1;
        }
    }
    assert(digest_seqs(next@) =~= target);
    next
}

/// Compute the merkle root of `[coinbase_txid, *other_txids]` in internal
/// byte order — what goes into the header's `merkle_root` field.
pub fn merkle_root_internal(coinbase_txid: &[u8; 32], other_txids: &[[u8; 32]]) -> (root: [u8; 32])
    ensures
        root@ == merkle_spec(digest_seqs(seq![*coinbase_txid] + other_txids@)),
{
    let mut level: Vec<[u8; 32]> = Vec::new();
    level.push(*coinbase_txid);
    for k in 0..other_txids.len()
        invariant
            level@ == seq![*coinbase_txid] + other_txids@.subrange(0, k as int),
    {
        level.push(other_txids[k]);
        assert(level@ =~= seq![*coinbase_txid] + other_txids@.subrange(0, k + 1));
    }
    assert(other_txids@.subrange(0, other_txids@.len() as int) =~= other_txids@);
    let ghost all = digest_seqs(seq![*coinbase_txid] + other_txids@);
    while level.len() > 1
        invariant
            level.len() >= 1,
            merkle_spec(digest_seqs(level@)) == merkle_spec(all),
        decreases level.len(),
    {
        let next = pair_up(&level);
        level = next;
    }
    let root = level[0];
    assert(digest_seqs(level@)[0] == root@);
    root
}

/// A one-leaf tree's root is the leaf itself.
pub proof fn law_merkle_single_leaf(leaf: Seq<u8>)
    ensures
        merkle_spec(seq![leaf]) == leaf,
{
}

} // verus!
