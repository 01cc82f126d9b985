//! Aggregate observatory across a mining campaign: running counts and
//! fixed-size histograms over every attempt's observables, admitting or
//! not. Every update is `O(1)` and saturating.

use vstd::prelude::*;

use crate::domain::{p_adic_spec, popcount, stratum_spec};
use crate::observables::{canonical_prime, observes, KappaObservables};

verus! {

/// Stratum-histogram bin count: bins `0..32` per value, stratum ≥ 32 in the
/// last bin.
pub const STRATUM_BINS: usize = 33;

/// p-adic histogram bin count for the primes 3, 5, 7; valuations ≥ 7 in
/// the last bin.
pub const PADIC_BINS: usize = 8;

/// Aggregate statistics across a mining campaign.
#[derive(Debug, Clone, Copy, PartialEq, Eq)]
pub struct CampaignStats {
    /// Attempts recorded — admitted and not.
    pub attempts: u64,
    /// The admitted subset.
    pub admissions: u64,
    /// `stratum_hist[k]` counts attempts whose stratum is `min(k, 32)`.
    pub stratum_hist: [u64; STRATUM_BINS],
    /// `spectrum_hist[s]` counts attempts whose spectrum is `s`.
    pub spectrum_hist: [u64; 2],
    /// 3-adic valuation histogram.
    pub padic_3_hist: [u64; PADIC_BINS],
    /// 5-adic valuation histogram.
    pub padic_5_hist: [u64; PADIC_BINS],
    /// 7-adic valuation histogram.
    pub padic_7_hist: [u64; PADIC_BINS],
    /// The most leading zero bits of any digest recorded.
    pub max_leading_zeros: u32,
}

/// The mathematical content of a [`CampaignStats`].
pub struct CampaignView {
    pub attempts: u64,
    pub admissions: u64,
    pub stratum_hist: Seq<u64>,
    pub spectrum_hist: Seq<u64>,
    pub padic_3_hist: Seq<u64>,
    pub padic_5_hist: Seq<u64>,
    pub padic_7_hist: Seq<u64>,
    pub max_leading_zeros: u32,
}

impl View for CampaignStats {
    type V = CampaignView;

    open spec fn view(&self) -> CampaignView {
        CampaignView {
            attempts: self.attempts,
            admissions: self.admissions,
            stratum_hist: self.stratum_hist@,
            spectrum_hist: self.spectrum_hist@,
            padic_3_hist: self.padic_3_hist@,
            padic_5_hist: self.padic_5_hist@,
            padic_7_hist: self.padic_7_hist@,
            max_leading_zeros: self.max_leading_zeros,
        }
    }
}

/// `x + 1`, saturating at `u64::MAX`.
pub open spec fn sat_inc(x: u64) -> u64 {
    if x == u64::MAX {
        x
    } else {
        (x + 1) as u64
    }
}

/// Count one more in bin `i`.
pub open spec fn bump(hist: Seq<u64>, i: int) -> Seq<u64> {
    hist.update(i, sat_inc(hist[i]))
}

/// The histogram bin of a value: the value itself, capped at the last bin.
pub open spec fn bin(v: nat, bins: nat) -> int {
    if v < bins - 1 {
        v as int
    } else {
        bins - 1
    }
}

/// The campaign with no attempt recorded.
pub open spec fn empty_campaign() -> CampaignView {
    CampaignView {
        attempts: 0,
        admissions: 0,
        stratum_hist: Seq::new(33, |i: int| 0u64),
        spectrum_hist: Seq::new(2, |i: int| 0u64),
        padic_3_hist: Seq::new(8, |i: int| 0u64),
        padic_5_hist: Seq::new(8, |i: int| 0u64),
        padic_7_hist: Seq::new(8, |i: int| 0u64),
        max_leading_zeros: 0,
    }
}

/// Leading zero bits of a byte sequence read most-significant byte first.
pub open spec fn leading_zero_spec(d: Seq<u8>) -> nat
    decreases d.len(),
{
    if d.len() == 0 {
        0
    } else if d[0] == 0 {
        8 + leading_zero_spec(d.drop_first())
    } else {
        vstd::std_specs::bits::u8_leading_zeros(d[0]) as nat
    }
}

/// The campaign after one more attempt whose stratum, spectrum and 3-, 5-
/// and 7-adic valuations are given, with digest `digest`.
pub open spec fn record_values(
    v: CampaignView,
    stratum: nat,
    spectrum: nat,
    p3: nat,
    p5: nat,
    p7: nat,
    digest: Seq<u8>,
) -> CampaignView {
    let lz = leading_zero_spec(digest);
    CampaignView {
        attempts: sat_inc(v.attempts),
        admissions: v.admissions,
        stratum_hist: bump(v.stratum_hist, bin(stratum, 33)),
        spectrum_hist: bump(v.spectrum_hist, (spectrum % 2) as int),
        padic_3_hist: bump(v.padic_3_hist, bin(p3, 8)),
        padic_5_hist: bump(v.padic_5_hist, bin(p5, 8)),
        padic_7_hist: bump(v.padic_7_hist, bin(p7, 8)),
        max_leading_zeros: if lz > v.max_leading_zeros {
            lz as u32
        } else {
            v.max_leading_zeros
        },
    }
}

/// The campaign after one more attempt with the given observables and
/// digest.
pub open spec fn record_spec(v: CampaignView, obs: KappaObservables, digest: Seq<u8>) -> CampaignView {
    record_values(
        v,
        obs.coords.stratum as nat,
        obs.coords.spectrum as nat,
        obs.p_adic[1] as nat,
        obs.p_adic[2] as nat,
        obs.p_adic[3] as nat,
        digest,
    )
}

/// The campaign after one more admitted attempt.
pub open spec fn admit_spec(v: CampaignView, obs: KappaObservables, digest: Seq<u8>) -> CampaignView {
    let r = record_spec(v, obs, digest);
    CampaignView { admissions: sat_inc(v.admissions), ..r }
}

/// A byte sequence has at most eight leading zero bits per byte.
proof fn lemma_leading_zero_bound(d: Seq<u8>)
    ensures
        leading_zero_spec(d) <= 8 * d.len(),
    decreases d.len(),
{
    if d.len() > 0 {
        if d[0] == 0 {
            lemma_leading_zero_bound(d.drop_first());
        } else {
            vstd::std_specs::bits::axiom_u8_leading_zeros(d[0]);
        }
    }
}

/// Two bumps commute, whatever their bins.
proof fn lemma_bump_commutes(h: Seq<u64>, i: int, j: int)
    requires
        0 <= i < h.len(),
        0 <= j < h.len(),
    ensures
        bump(bump(h, i), j) == bump(bump(h, j), i),
{
    assert(bump(bump(h, i), j) =~= bump(bump(h, j), i));
}

/// **The observatory is order-independent**: recording two attempts in
/// either order gives the same campaign, so aggregating a stream in
/// batches matches aggregating it at once.
pub proof fn law_record_commutes(
    v: CampaignView,
    o1: KappaObservables,
    d1: Seq<u8>,
    o2: KappaObservables,
    d2: Seq<u8>,
)
    requires
        v.stratum_hist.len() == STRATUM_BINS,
        v.spectrum_hist.len() == 2,
        v.padic_3_hist.len() == PADIC_BINS,
        v.padic_5_hist.len() == PADIC_BINS,
        v.padic_7_hist.len() == PADIC_BINS,
        d1.len() == 32,
        d2.len() == 32,
    ensures
        record_spec(record_spec(v, o1, d1), o2, d2) == record_spec(record_spec(v, o2, d2), o1, d1),
{
    let a = record_spec(record_spec(v, o1, d1), o2, d2);
    let b = record_spec(record_spec(v, o2, d2), o1, d1);
    lemma_bump_commutes(v.stratum_hist, bin(o1.coords.stratum as nat, 33), bin(o2.coords.stratum as nat, 33));
    lemma_bump_commutes(v.spectrum_hist, (o1.coords.spectrum % 2) as int, (o2.coords.spectrum % 2) as int);
    lemma_bump_commutes(v.padic_3_hist, bin(o1.p_adic[1] as nat, 8), bin(o2.p_adic[1] as nat, 8));
    lemma_bump_commutes(v.padic_5_hist, bin(o1.p_adic[2] as nat, 8), bin(o2.p_adic[2] as nat, 8));
    lemma_bump_commutes(v.padic_7_hist, bin(o1.p_adic[3] as nat, 8), bin(o2.p_adic[3] as nat, 8));
    lemma_leading_zero_bound(d1);
    lemma_leading_zero_bound(d2);
    assert(a.attempts == b.attempts);
    assert(a.max_leading_zeros == b.max_leading_zeros);
}

/// **The observatory is monotone**: recording an attempt never lowers a
/// count, a histogram bin or the best leading-zero count.
pub proof fn law_record_monotone(v: CampaignView, obs: KappaObservables, digest: Seq<u8>)
    requires
        v.stratum_hist.len() == STRATUM_BINS,
        v.spectrum_hist.len() == 2,
        v.padic_3_hist.len() == PADIC_BINS,
        v.padic_5_hist.len() == PADIC_BINS,
        v.padic_7_hist.len() == PADIC_BINS,
        digest.len() == 32,
    ensures
        ({
            let w = record_spec(v, obs, digest);
            &&& w.attempts >= v.attempts
            &&& w.admissions == v.admissions
            &&& w.max_leading_zeros >= v.max_leading_zeros
            &&& forall|i: int| 0 <= i < STRATUM_BINS ==> #[trigger] w.stratum_hist[i] >= v.stratum_hist[i]
            &&& forall|i: int| 0 <= i < 2 ==> #[trigger] w.spectrum_hist[i] >= v.spectrum_hist[i]
            &&& forall|i: int| 0 <= i < PADIC_BINS ==> #[trigger] w.padic_3_hist[i] >= v.padic_3_hist[i]
            &&& forall|i: int| 0 <= i < PADIC_BINS ==> #[trigger] w.padic_5_hist[i] >= v.padic_5_hist[i]
            &&& forall|i: int| 0 <= i < PADIC_BINS ==> #[trigger] w.padic_7_hist[i] >= v.padic_7_hist[i]
        }),
{
    lemma_leading_zero_bound(digest);
}

/// `after` is `before` with one more count, saturating at `u64::MAX`, in
/// bin `k` and no change in any other bin.
pub open spec fn counted_once_at(after: Seq<u64>, before: Seq<u64>, k: int) -> bool {
    &&& after.len() == before.len()
    &&& 0 <= k < before.len()
    &&& after[k] == (if before[k] == u64::MAX {
        u64::MAX
    } else {
        (before[k] + 1) as u64
    })
    &&& forall|i: int| 0 <= i < before.len() && i != k ==> #[trigger] after[i] == before[i]
}

/// `v`, or the last bin `cap` when `v` exceeds it.
pub open spec fn at_most(v: nat, cap: nat) -> int {
    if v <= cap {
        v as int
    } else {
        cap as int
    }
}

/// **An attempt is counted under its own observables**: recording the
/// observables of digest `d` adds one attempt, no admission, one count
/// in the stratum bin of `d` (capped at 32), in the spectrum bin of the
/// parity of its set bits, and in the bins of its 3-, 5- and 7-adic
/// valuations (each capped at 7), changes no other bin, and raises the
/// best leading-zero count to `d`'s when `d`'s is larger.
pub proof fn law_record_counts_the_digest(v: CampaignView, obs: KappaObservables, d: Seq<u8>)
    requires
        v.stratum_hist.len() == STRATUM_BINS,
        v.spectrum_hist.len() == 2,
        v.padic_3_hist.len() == PADIC_BINS,
        v.padic_5_hist.len() == PADIC_BINS,
        v.padic_7_hist.len() == PADIC_BINS,
        d.len() == 32,
        observes(obs, d),
    ensures
        ({
            let w = record_spec(v, obs, d);
            &&& w.attempts == (if v.attempts == u64::MAX {
                u64::MAX
            } else {
                (v.attempts + 1) as u64
            })
            &&& w.admissions == v.admissions
            &&& counted_once_at(w.stratum_hist, v.stratum_hist, at_most(stratum_spec(d), 32))
            &&& counted_once_at(w.spectrum_hist, v.spectrum_hist, (popcount(d) % 2) as int)
            &&& counted_once_at(w.padic_3_hist, v.padic_3_hist, at_most(p_adic_spec(d, 3), 7))
            &&& counted_once_at(w.padic_5_hist, v.padic_5_hist, at_most(p_adic_spec(d, 5), 7))
            &&& counted_once_at(w.padic_7_hist, v.padic_7_hist, at_most(p_adic_spec(d, 7), 7))
            &&& w.max_leading_zeros == (if leading_zero_spec(d) > v.max_leading_zeros {
                leading_zero_spec(d)
            } else {
                v.max_leading_zeros as nat
            })
        }),
{
    lemma_leading_zero_bound(d);
    assert(obs.p_adic[1] == p_adic_spec(d, canonical_prime(1) as nat));
    assert(obs.p_adic[2] == p_adic_spec(d, canonical_prime(2) as nat));
    assert(obs.p_adic[3] == p_adic_spec(d, canonical_prime(3) as nat));
    let w = record_spec(v, obs, d);
    assert(counted_once_at(w.stratum_hist, v.stratum_hist, at_most(stratum_spec(d), 32)));
    assert(counted_once_at(w.padic_3_hist, v.padic_3_hist, at_most(p_adic_spec(d, 3), 7)));
    assert(counted_once_at(w.padic_5_hist, v.padic_5_hist, at_most(p_adic_spec(d, 5), 7)));
    assert(counted_once_at(w.padic_7_hist, v.padic_7_hist, at_most(p_adic_spec(d, 7), 7)));
}

/// **An admission is an attempt that is also admitted**: recording an
/// admission gives the campaign of recording the attempt, with one more
/// admission (saturating).
pub proof fn law_admission_is_a_counted_attempt(v: CampaignView, obs: KappaObservables, d: Seq<u8>)
    ensures
        ({
            let a = admit_spec(v, obs, d);
            let r = record_spec(v, obs, d);
            &&& a.admissions == (if v.admissions == u64::MAX {
                u64::MAX
            } else {
                (v.admissions + 1) as u64
            })
            &&& a.attempts == r.attempts
            &&& a.stratum_hist == r.stratum_hist
            &&& a.spectrum_hist == r.spectrum_hist
            &&& a.padic_3_hist == r.padic_3_hist
            &&& a.padic_5_hist == r.padic_5_hist
            &&& a.padic_7_hist == r.padic_7_hist
            &&& a.max_leading_zeros == r.max_leading_zeros
        }),
{
}

/// Leading zero bits of a 32-byte digest (display order).
fn leading_zero_bits(digest: &[u8; 32]) -> (n: u32)
    ensures
        n == leading_zero_spec(digest@),
        n <= 256,
{
    let mut count: u32 = 0;
    let mut i: usize = 0;
    assert(digest@.skip(0) =~= digest@);
    while i < 32
        invariant
            i <= 32,
            count == 8 * i,
            leading_zero_spec(digest@) == count + leading_zero_spec(digest@.skip(i as int)),
        decreases 32 - i,
    {
        let ghost rest = digest@.skip(i as int);
        assert(rest[0] == digest[i as int]);
        assert(rest.drop_first() =~= digest@.skip(i + 1));
        let b = digest[i];
        if b != 0 {
            proof {
                vstd::std_specs::bits::axiom_u8_leading_zeros(b);
            }
            return count + b.leading_zeros();
        }
        count = count + 8;
        i = i + 1;
    }
    assert(digest@.skip(32).len() == 0);
    count
}

impl Default for CampaignStats {
    fn default() -> (s: Self)
        ensures
            s@ == empty_campaign(),
    {
        let s = Self {
            attempts: 0,
            admissions: 0,
            stratum_hist: [0; STRATUM_BINS],
            spectrum_hist: [0; 2],
            padic_3_hist: [0; PADIC_BINS],
            padic_5_hist: [0; PADIC_BINS],
            padic_7_hist: [0; PADIC_BINS],
            max_leading_zeros: 0,
        };
        assert(s.stratum_hist@ =~= Seq::new(33, |i: int| 0u64));
        assert(s.spectrum_hist@ =~= Seq::new(2, |i: int| 0u64));
        assert(s.padic_3_hist@ =~= Seq::new(8, |i: int| 0u64));
        assert(s.padic_5_hist@ =~= Seq::new(8, |i: int| 0u64));
        assert(s.padic_7_hist@ =~= Seq::new(8, |i: int| 0u64));
        s
    }
}

impl CampaignStats {
    /// An empty campaign: no attempt recorded yet.
    pub fn new() -> (s: Self)
        ensures
            s@ == empty_campaign(),
    {
        Self::default()
    }

    /// Fold one attempt — admitting or not — into the aggregate.
    pub fn record_attempt(&mut self, observables: &KappaObservables, digest: &[u8; 32])
        ensures
            final(self)@ == record_spec(old(self)@, *observables, digest@),
    {
        self.attempts = self.attempts.saturating_add(1);
        let s = observables.coords.stratum;
        let si: usize = if s < 32 {
            s as usize
        } else {
            32
        };
        self.stratum_hist[si] = self.stratum_hist[si].saturating_add(1);
        let pi: usize = if observables.coords.spectrum % 2 == 0 {
            0
        } else {
            1
        };
        self.spectrum_hist[pi] = self.spectrum_hist[pi].saturating_add(1);
        let p3 = observables.p_adic[1];
        let i3: usize = if p3 < 7 {
            p3 as usize
        } else {
            7
        };
        self.padic_3_hist[i3] = self.padic_3_hist[i3].saturating_add(1);
        let p5 = observables.p_adic[2];
        let i5: usize = if p5 < 7 {
            p5 as usize
        } else {
            7
        };
        self.padic_5_hist[i5] = self.padic_5_hist[i5].saturating_add(1);
        let p7 = observables.p_adic[3];
        let i7: usize = if p7 < 7 {
            p7 as usize
        } else {
            7
        };
        self.padic_7_hist[i7] = self.padic_7_hist[i7].saturating_add(1);
        let lz = leading_zero_bits(digest);
        if lz > self.max_leading_zeros {
            self.max_leading_zeros = lz;
        }
        proof {
            let v = old(self)@;
            assert(self.stratum_hist@ =~= bump(v.stratum_hist, bin(observables.coords.stratum as nat, 33)));
            assert(self.spectrum_hist@ =~= bump(
                v.spectrum_hist,
                (observables.coords.spectrum % 2) as int,
            ));
            assert(self.padic_3_hist@ =~= bump(v.padic_3_hist, bin(observables.p_adic[1] as nat, 8)));
            assert(self.padic_5_hist@ =~= bump(v.padic_5_hist, bin(observables.p_adic[2] as nat, 8)));
            assert(self.padic_7_hist@ =~= bump(v.padic_7_hist, bin(observables.p_adic[3] as nat, 8)));
        }
    }

    /// Fold one admitted attempt: counts it as an attempt and as an
    /// admission.
    pub fn record_admission(&mut self, observables: &KappaObservables, digest: &[u8; 32])
        ensures
            final(self)@ == admit_spec(old(self)@, *observables, digest@),
    {
        self.record_attempt(observables, digest);
        self.admissions = self.admissions.saturating_add(1);
    }
}

} // verus!
