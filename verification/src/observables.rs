//! The receiver-side lens: the UOR property landscape a κ-label's digest
//! exhibits — triadic coordinates plus p-adic valuations at the canonical
//! small primes, optionally extended with parities at chosen frequencies
//! and ultrametric distances to chosen reference points.

use vstd::prelude::*;

use crate::domain::{
    capped_p_adic, law_p_adic_two_is_stratum, p_adic_spec, p_adic_valuation, popcount, stratum_spec, ultrametric_spec,
    ultrametric_valuation, walsh_hadamard_parity_at, walsh_parity_spec, TriadicCoords,
};

verus! {

/// The canonical small-prime set for [`KappaObservables`]' p-adic
/// valuations.
pub const CANONICAL_PRIMES: [u64; 4] = [2, 3, 5, 7];

/// The `i`-th canonical prime.
pub open spec fn canonical_prime(i: int) -> u64 {
    if i == 0 {
        2
    } else if i == 1 {
        3
    } else if i == 2 {
        5
    } else {
        7
    }
}

/// Canonical UOR property landscape of a κ-label's digest.
#[derive(Debug, Clone, Copy, PartialEq, Eq)]
pub struct KappaObservables {
    /// Triadic coordinates: 2-adic stratum + Walsh–Hadamard spectrum.
    pub coords: TriadicCoords,
    /// p-adic valuations at the canonical primes `{2, 3, 5, 7}`, in order.
    pub p_adic: [u32; 4],
}

/// `obs` is the landscape of `digest`.
pub open spec fn observes(obs: KappaObservables, digest: Seq<u8>) -> bool {
    &&& obs.coords.datum@ == digest
    &&& obs.coords.stratum == stratum_spec(digest)
    &&& obs.coords.spectrum == popcount(digest) % 2
    &&& forall|i: int|
        0 <= i < 4 ==> capped_p_adic(digest, canonical_prime(i) as nat, #[trigger] obs.p_adic[i] as nat)
    &&& forall|i: int|
        0 <= i < 4 ==> #[trigger] obs.p_adic[i] == p_adic_spec(digest, canonical_prime(i) as nat)
}

impl KappaObservables {
    /// Decode the canonical landscape of a digest.
    pub fn from_digest(digest: &[u8; 32]) -> (obs: Self)
        ensures
            observes(obs, digest@),
            obs.coords.datum == *digest,
    {
        let coords = TriadicCoords::from_hash(digest);
        let p_adic = [
            p_adic_valuation(digest, 2),
            p_adic_valuation(digest, 3),
            p_adic_valuation(digest, 5),
            p_adic_valuation(digest, 7),
        ];
        let obs = Self { coords, p_adic };
        assert(forall|i: int|
            0 <= i < 4 ==> capped_p_adic(
                digest@,
                canonical_prime(i) as nat,
                #[trigger] obs.p_adic[i] as nat,
            ));
        assert(forall|i: int|
            0 <= i < 4 ==> #[trigger] obs.p_adic[i] == p_adic_spec(
                digest@,
                canonical_prime(i) as nat,
            ));
        obs
    }

    /// The p-adic valuation at a canonical prime; `None` when `p` is not
    /// one of [`CANONICAL_PRIMES`].
    pub fn p_adic_at(&self, p: u64) -> (r: Option<u32>)
        ensures
            r == (if p == 2 {
                Some(self.p_adic[0])
            } else if p == 3 {
                Some(self.p_adic[1])
            } else if p == 5 {
                Some(self.p_adic[2])
            } else if p == 7 {
                Some(self.p_adic[3])
            } else {
                None
            }),
    {
        let mut i: usize = 0;
        while i < 4
            invariant
                i <= 4,
                forall|j: int| 0 <= j < i ==> canonical_prime(j) != p,
            decreases 4 - i,
        {
            if CANONICAL_PRIMES[i] == p {
                return Some(self.p_adic[i]);
            }
            i = i + 1;
        }
        assert(canonical_prime(0) != p && canonical_prime(1) != p && canonical_prime(2) != p
            && canonical_prime(3) != p);
        None
    }
}

/// **The lens is a pure projection of the digest**: two landscapes of the
/// same digest are equal.
pub proof fn law_observables_determined(o1: KappaObservables, o2: KappaObservables, digest: Seq<u8>)
    requires
        observes(o1, digest),
        observes(o2, digest),
    ensures
        o1 == o2,
{
    assert(o1.coords.datum =~= o2.coords.datum);
    assert(o1.p_adic[0] == o2.p_adic[0] && o1.p_adic[1] == o2.p_adic[1] && o1.p_adic[2]
        == o2.p_adic[2] && o1.p_adic[3] == o2.p_adic[3]);
    assert(o1.p_adic =~= o2.p_adic);
}

/// **The `p = 2` entry duplicates the stratum**: in the landscape of a
/// 32-byte digest whose stratum is at most 127 (the largest power of two
/// a `u128` holds), `p_adic[0]` is the stratum. A zero digest has stratum
/// 256 while its capped 2-adic valuation is 127.
pub proof fn law_p_adic_two_entry_is_stratum(obs: KappaObservables, digest: Seq<u8>)
    requires
        digest.len() == 32,
        observes(obs, digest),
        obs.coords.stratum <= 127,
    ensures
        obs.p_adic[0] == obs.coords.stratum,
{
    law_p_adic_two_is_stratum(digest);
    assert(obs.p_adic[0] == p_adic_spec(digest, canonical_prime(0) as nat));
}

/// Byte-for-byte equality of two 32-byte values.
fn same32(a: &[u8; 32], b: &[u8; 32]) -> (r: bool)
    ensures
        r == (a@ == b@),
{
    let mut i: usize = 0;
    while i < 32
        invariant
            i <= 32,
            forall|j: int| 0 <= j < i ==> a@[j] == b@[j],
        decreases 32 - i,
    {
        if a[i] != b[i] {
            return false;
        }
        i = i + 1;
    }
    assert(a@ =~= b@);
    true
}

/// The first index `i < n` whose key equals `x`, if any.
pub open spec fn first_key(keys: Seq<[u8; 32]>, x: Seq<u8>, n: int) -> Option<int>
    decreases n,
{
    if n <= 0 {
        None
    } else {
        match first_key(keys, x, n - 1) {
            Some(i) => Some(i),
            None => if keys[n - 1]@ == x {
                Some(n - 1)
            } else {
                None
            },
        }
    }
}

/// The canonical landscape plus parities at `N_PAR` chosen frequencies and
/// ultrametric distances to `N_REF` chosen reference points.
#[derive(Debug, Clone, Copy)]
pub struct ExtendedObservables<const N_PAR: usize, const N_REF: usize> {
    /// Canonical always-on landscape.
    pub base: KappaObservables,
    /// Chosen parity frequencies.
    pub parity_omegas: [[u8; 32]; N_PAR],
    /// Observed parities at the frequencies above.
    pub parities: [u32; N_PAR],
    /// Chosen ultrametric reference points.
    pub reference_points: [[u8; 32]; N_REF],
    /// Observed ultrametric valuations (digest vs each reference).
    pub ultrametric_dists: [u32; N_REF],
}

impl<const N_PAR: usize, const N_REF: usize> ExtendedObservables<N_PAR, N_REF> {
    /// Decode the canonical landscape, the `N_PAR` parities and the `N_REF`
    /// ultrametric distances of a digest.
    pub fn from_digest(
        digest: &[u8; 32],
        parity_omegas: [[u8; 32]; N_PAR],
        reference_points: [[u8; 32]; N_REF],
    ) -> (obs: Self)
        ensures
            observes(obs.base, digest@),
            obs.parity_omegas == parity_omegas,
            obs.reference_points == reference_points,
            forall|i: int|
                0 <= i < N_PAR ==> #[trigger] obs.parities[i] == walsh_parity_spec(
                    digest@,
                    parity_omegas[i]@,
                ),
            forall|j: int|
                0 <= j < N_REF ==> #[trigger] obs.ultrametric_dists[j] == ultrametric_spec(
                    digest@,
                    reference_points[j]@,
                ),
    {
        let base = KappaObservables::from_digest(digest);
        let mut parities = [0u32; N_PAR];
        let mut i: usize = 0;
        while i < N_PAR
            invariant
                i <= N_PAR,
                forall|k: int|
                    0 <= k < i ==> #[trigger] parities[k] == walsh_parity_spec(
                        digest@,
                        parity_omegas[k]@,
                    ),
            decreases N_PAR - i,
        {
            parities[i] = walsh_hadamard_parity_at(digest, &parity_omegas[i]);
            i = i + 1;
        }
        let mut ultrametric_dists = [0u32; N_REF];
        let mut j: usize = 0;
        while j < N_REF
            invariant
                j <= N_REF,
                forall|k: int|
                    0 <= k < j ==> #[trigger] ultrametric_dists[k] == ultrametric_spec(
                        digest@,
                        reference_points[k]@,
                    ),
            decreases N_REF - j,
        {
            ultrametric_dists[j] = ultrametric_valuation(digest, &reference_points[j]);
            j = j + 1;
        }
        Self { base, parity_omegas, parities, reference_points, ultrametric_dists }
    }

    /// The observed parity at `omega`, if `omega` is one of the chosen
    /// frequencies (the first occurrence).
    pub fn lookup_parity(&self, omega: &[u8; 32]) -> (r: Option<u32>)
        ensures
            r == (match first_key(self.parity_omegas@, omega@, N_PAR as int) {
                Some(i) => Some(self.parities[i]),
                None => None,
            }),
    {
        let mut i: usize = 0;
        while i < N_PAR
            invariant
                i <= N_PAR,
                first_key(self.parity_omegas@, omega@, i as int) is None,
            decreases N_PAR - i,
        {
            if same32(&self.parity_omegas[i], omega) {
                proof {
                    lemma_first_key_extends(self.parity_omegas@, omega@, i + 1, N_PAR as int);
                }
                return Some(self.parities[i]);
            }
            i = i + 1;
        }
        None
    }

    /// The observed ultrametric distance to `reference`, if it is one of
    /// the chosen reference points (the first occurrence).
    pub fn lookup_ultrametric(&self, reference: &[u8; 32]) -> (r: Option<u32>)
        ensures
            r == (match first_key(self.reference_points@, reference@, N_REF as int) {
                Some(i) => Some(self.ultrametric_dists[i]),
                None => None,
            }),
    {
        let mut i: usize = 0;
        while i < N_REF
            invariant
                i <= N_REF,
                first_key(self.reference_points@, reference@, i as int) is None,
            decreases N_REF - i,
        {
            if same32(&self.reference_points[i], reference) {
                proof {
                    lemma_first_key_extends(self.reference_points@, reference@, i + 1, N_REF as int);
                }
                return Some(self.ultrametric_dists[i]);
            }
            i = i + 1;
        }
        None
    }
}

/// Once a first match exists among the first `m` keys, it stays the first
/// match among the first `n ≥ m`.
proof fn lemma_first_key_extends(keys: Seq<[u8; 32]>, x: Seq<u8>, m: int, n: int)
    requires
        0 <= m <= n,
        first_key(keys, x, m) is Some,
    ensures
        first_key(keys, x, n) == first_key(keys, x, m),
    decreases n - m,
{
    if n > m {
        lemma_first_key_extends(keys, x, m, n - 1);
    }
}

} // verus!
