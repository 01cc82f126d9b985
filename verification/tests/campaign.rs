use prism_btc::{CampaignStats, KappaObservables, TriadicCoords, PADIC_BINS, STRATUM_BINS};

fn dummy_observables(stratum: u32, spectrum: u32, p3: u32) -> KappaObservables {
    KappaObservables {
        coords: TriadicCoords {
            datum: [0u8; 32],
            stratum,
            spectrum,
        },
        p_adic: [stratum, p3, 0, 0],
    }
}

fn empirical_alpha(stats: &CampaignStats) -> f64 {
    if stats.attempts == 0 {
        0.0
    } else {
        stats.admissions as f64 / stats.attempts as f64
    }
}

#[test]
fn fresh_stats_are_zeroed() {
    let stats = CampaignStats::new();
    assert_eq!(stats.attempts, 0);
    assert_eq!(stats.admissions, 0);
    assert_eq!(empirical_alpha(&stats), 0.0);
    assert!(stats.stratum_hist.iter().all(|&c| c == 0));
    assert_eq!(stats.max_leading_zeros, 0);
}

#[test]
fn record_attempt_folds_observables_into_histograms() {
    let mut stats = CampaignStats::new();
    let obs = dummy_observables(3, 1, 2);
    stats.record_attempt(&obs, &[0xab; 32]);
    assert_eq!(stats.attempts, 1);
    assert_eq!(stats.stratum_hist[3], 1);
    assert_eq!(stats.spectrum_hist[1], 1);
    assert_eq!(stats.padic_3_hist[2], 1);
}

#[test]
fn record_admission_increments_both_counts() {
    let mut stats = CampaignStats::new();
    let obs = dummy_observables(0, 0, 0);
    stats.record_attempt(&obs, &[0u8; 32]);
    stats.record_attempt(&obs, &[0u8; 32]);
    stats.record_admission(&obs, &[0u8; 32]);
    assert_eq!(stats.attempts, 3);
    assert_eq!(stats.admissions, 1);
    assert!((empirical_alpha(&stats) - 1.0 / 3.0).abs() < 1e-12);
}

#[test]
fn max_leading_zeros_tracks_best_candidate() {
    let mut stats = CampaignStats::new();
    let obs = dummy_observables(0, 0, 0);
    let mut digest = [0u8; 32];
    digest[0] = 0xff;
    stats.record_attempt(&obs, &digest);
    assert_eq!(stats.max_leading_zeros, 0);
    digest[0] = 0x00;
    digest[1] = 0xff;
    stats.record_attempt(&obs, &digest);
    assert_eq!(stats.max_leading_zeros, 8);
    digest[0] = 0x00;
    digest[1] = 0x00;
    digest[2] = 0x0f;
    stats.record_attempt(&obs, &digest);
    assert_eq!(stats.max_leading_zeros, 20);
}

#[test]
fn high_stratum_folds_into_last_bin() {
    let mut stats = CampaignStats::new();
    let obs = dummy_observables(200, 0, 0);
    stats.record_attempt(&obs, &[0u8; 32]);
    assert_eq!(stats.stratum_hist[STRATUM_BINS - 1], 1);
}

// ─── Further cases ─────────────────────────────────────────────────────

#[test]
fn all_zero_digest_has_256_leading_zeros_and_high_padic_folds() {
    let mut stats = CampaignStats::default();
    let obs = KappaObservables {
        coords: TriadicCoords {
            datum: [0u8; 32],
            stratum: 31,
            spectrum: 3,
        },
        p_adic: [31, 9, 7, 100],
    };
    stats.record_attempt(&obs, &[0u8; 32]);
    assert_eq!(stats.max_leading_zeros, 256);
    assert_eq!(stats.stratum_hist[31], 1);
    assert_eq!(stats.spectrum_hist[1], 1);
    assert_eq!(stats.padic_3_hist[PADIC_BINS - 1], 1);
    assert_eq!(stats.padic_5_hist[7], 1);
    assert_eq!(stats.padic_7_hist[7], 1);
    // A smaller leading-zero count leaves the maximum in place.
    let mut d = [0u8; 32];
    d[0] = 1;
    stats.record_attempt(&obs, &d);
    assert_eq!(stats.max_leading_zeros, 256);
}

#[test]
fn counters_saturate() {
    let mut stats = CampaignStats::new();
    stats.attempts = u64::MAX;
    stats.admissions = u64::MAX;
    stats.stratum_hist[0] = u64::MAX;
    let obs = dummy_observables(0, 0, 0);
    stats.record_admission(&obs, &[0xff; 32]);
    assert_eq!(stats.attempts, u64::MAX);
    assert_eq!(stats.admissions, u64::MAX);
    assert_eq!(stats.stratum_hist[0], u64::MAX);
}

#[test]
fn recording_in_either_order_gives_the_same_campaign() {
    let o1 = dummy_observables(4, 1, 3);
    let o2 = dummy_observables(40, 0, 9);
    let mut d1 = [0u8; 32];
    d1[2] = 0x10;
    let d2 = [0x80u8; 32];
    let mut a = CampaignStats::new();
    a.record_attempt(&o1, &d1);
    a.record_attempt(&o2, &d2);
    let mut b = CampaignStats::new();
    b.record_attempt(&o2, &d2);
    b.record_attempt(&o1, &d1);
    assert_eq!(a, b);
    assert_eq!(a.max_leading_zeros, 19);
}
