use prism_btc::{
    p_adic_valuation, ultrametric_valuation, walsh_hadamard_parity_at, ExtendedObservables,
    KappaObservables, CANONICAL_PRIMES,
};

#[test]
fn kappa_observables_round_trip_on_canonical_primes() {
    let mut digest = [0u8; 32];
    digest[31] = 0b0010_1000;
    let obs = KappaObservables::from_digest(&digest);
    for (i, &p) in CANONICAL_PRIMES.iter().enumerate() {
        assert_eq!(obs.p_adic[i], p_adic_valuation(&digest, p));
    }
    assert_eq!(obs.p_adic_at(2), Some(obs.coords.stratum));
    assert_eq!(obs.p_adic_at(11), None);
}

#[test]
fn extended_observables_zero_extension_compiles_and_works() {
    let mut digest = [0u8; 32];
    digest[31] = 1;
    let obs = ExtendedObservables::<0, 0>::from_digest(&digest, [], []);
    assert_eq!(obs.base.coords.stratum, 0);
}

#[test]
fn extended_observables_parity_lookup_matches_recompute() {
    let mut digest = [0u8; 32];
    digest[31] = 0b0010_0000;
    let mut omega = [0u8; 32];
    omega[31] = 0b0010_0000;
    let obs = ExtendedObservables::<1, 0>::from_digest(&digest, [omega], []);
    assert_eq!(obs.lookup_parity(&omega), Some(1));
    let other = [0u8; 32];
    assert_eq!(obs.lookup_parity(&other), None);
}

#[test]
fn extended_observables_ultrametric_lookup_matches_recompute() {
    let mut digest = [0u8; 32];
    digest[31] = 0xff;
    let mut reference = [0u8; 32];
    reference[31] = 0xf0;
    let obs = ExtendedObservables::<0, 1>::from_digest(&digest, [], [reference]);
    assert_eq!(obs.lookup_ultrametric(&reference), Some(0));
}

// ─── Further cases ─────────────────────────────────────────────────────

#[test]
fn p_adic_at_reads_every_canonical_prime() {
    let mut digest = [0u8; 32];
    digest[31] = 0x7e; // 126 = 2 · 3^2 · 7
    let obs = KappaObservables::from_digest(&digest);
    assert_eq!(obs.p_adic, [1, 2, 0, 1]);
    assert_eq!(obs.p_adic_at(2), Some(1));
    assert_eq!(obs.p_adic_at(3), Some(2));
    assert_eq!(obs.p_adic_at(5), Some(0));
    assert_eq!(obs.p_adic_at(7), Some(1));
    assert_eq!(obs.p_adic_at(4), None);
}

#[test]
fn extended_observables_take_the_first_matching_key() {
    let digest = [0x0fu8; 32];
    let mut w1 = [0u8; 32];
    w1[0] = 0x01;
    let w2 = [0xffu8; 32];
    let obs = ExtendedObservables::<3, 2>::from_digest(&digest, [w1, w2, w1], [w1, [0x0f; 32]]);
    assert_eq!(obs.parities[0], walsh_hadamard_parity_at(&digest, &w1));
    assert_eq!(obs.lookup_parity(&w1), Some(1));
    assert_eq!(obs.lookup_parity(&w2), Some(0));
    assert_eq!(obs.lookup_ultrametric(&[0x0f; 32]), Some(256));
    assert_eq!(
        obs.lookup_ultrametric(&w1),
        Some(ultrametric_valuation(&digest, &w1))
    );
    assert_eq!(obs.lookup_ultrametric(&w2), None);
}
