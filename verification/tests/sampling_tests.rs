use ips_solver::assemble_initial_condition::{
    assemble_initial_condition, assemble_random_initial_condition,
};
use ips_solver::exponential_distribution::{
    neg_ln_q32, StandardExponential, EXPONENTIAL_MAX_Q32, LN2_Q32,
};
use ips_solver::rng::{coin, rand_index_below};
use ips_solver::weighted_index::{wi_new, wi_sample, wi_update};
use rand::SeedableRng;
use rand::rngs::StdRng;
use std::collections::HashMap;

#[test]
fn assemble_initial_condition_places_the_listed_states() {
    let mut different: HashMap<usize, usize> = HashMap::new();
    different.insert(4, 1);
    different.insert(7, 2);
    let initial = assemble_initial_condition(0, different, 9);
    assert_eq!(initial, vec![0, 0, 0, 0, 1, 0, 0, 2, 0]);
}

#[test]
fn assemble_random_initial_condition_draws_from_the_given_states() {
    let mut rng = StdRng::seed_from_u64(12);
    let initial = assemble_random_initial_condition(vec![2, 5], 50, &mut rng);
    assert_eq!(initial.len(), 50);
    for s in &initial {
        assert!(*s == 2 || *s == 5);
    }
    assert!(initial.contains(&2) && initial.contains(&5));
}

#[test]
fn coin_is_sure_at_the_ends() {
    let mut rng = StdRng::seed_from_u64(0);
    for _ in 0..100 {
        assert!(coin(&mut rng, 3, 3));
        assert!(!coin(&mut rng, 0, 7));
    }
}

#[test]
fn random_index_stays_below_its_bound() {
    let mut rng = StdRng::seed_from_u64(1);
    assert_eq!(rand_index_below(&mut rng, 1), 0);
    let mut seen = [false; 5];
    for _ in 0..200 {
        let i = rand_index_below(&mut rng, 5);
        assert!(i < 5);
        seen[i] = true;
    }
    assert!(seen.iter().all(|s| *s), "not every index was ever drawn");
}

#[test]
fn exponential_samples_stay_in_range_and_vary() {
    let mut rng = StdRng::seed_from_u64(2);
    let mut sum: u128 = 0;
    let mut distinct = std::collections::HashSet::new();
    let draws = 4000u128;
    for _ in 0..draws {
        let x = StandardExponential::sample(&mut rng);
        assert!(x.0 <= EXPONENTIAL_MAX_Q32);
        sum += x.0 as u128;
        distinct.insert(x.0);
    }
    assert!(distinct.len() > 1000, "the sampler hardly varies");
    // The mean of a standard exponential is 1, which is 2^32 in this
    // fixed point; allow a factor-of-two band.
    let mean = sum / draws;
    assert!(mean > 1u128 << 31, "mean {} too small", mean);
    assert!(mean < 1u128 << 33, "mean {} too large", mean);
}

#[test]
fn weighted_index_rejects_zero_and_empty_weights() {
    assert!(wi_new(&vec![]).is_err());
    assert!(wi_new(&vec![0, 0, 0]).is_err());
    assert!(wi_new(&vec![0, 1]).is_ok());
}

#[test]
fn weighted_index_never_returns_a_zero_weight() {
    let index = wi_new(&vec![0, 5, 0, 0]).unwrap();
    let mut rng = StdRng::seed_from_u64(3);
    for _ in 0..100 {
        assert_eq!(wi_sample(&index, &mut rng), 1);
    }
}

#[test]
fn weighted_index_update_to_all_zero_fails_and_keeps_the_index() {
    let mut index = wi_new(&vec![2, 3]).unwrap();
    assert!(wi_update(&mut index, &vec![(0, 0), (1, 0)]).is_err());
    let mut rng = StdRng::seed_from_u64(4);
    for _ in 0..20 {
        assert!(wi_sample(&index, &mut rng) < 2);
    }
}

#[test]
fn patching_every_weight_to_itself_keeps_the_distribution() {
    // The same seed must then produce the same sample stream.
    let weights = vec![4u64, 1, 0, 7, 3];
    let untouched = wi_new(&weights).unwrap();
    let mut patched = wi_new(&weights).unwrap();
    let patches: Vec<(usize, u64)> = weights.iter().cloned().enumerate().collect();
    wi_update(&mut patched, &patches).unwrap();
    let mut rng_a = StdRng::seed_from_u64(5);
    let mut rng_b = StdRng::seed_from_u64(5);
    for _ in 0..500 {
        assert_eq!(
            wi_sample(&untouched, &mut rng_a),
            wi_sample(&patched, &mut rng_b)
        );
    }
}

#[test]
fn weighted_index_frequencies_follow_the_weights() {
    let weights = vec![1u64, 2, 3];
    let index = wi_new(&weights).unwrap();
    let mut rng = StdRng::seed_from_u64(6);
    let mut counts = [0u64; 3];
    let draws = 60000;
    for _ in 0..draws {
        counts[wi_sample(&index, &mut rng)] += 1;
    }
    let expected = [draws / 6, draws / 3, draws / 2];
    for i in 0..3 {
        let lo = expected[i] * 9 / 10;
        let hi = expected[i] * 11 / 10;
        assert!(
            counts[i] >= lo && counts[i] <= hi,
            "state {} drawn {} times, expected about {}",
            i,
            counts[i],
            expected[i]
        );
    }
}

#[test]
fn fixed_point_log_hits_its_endpoints_and_falls_with_the_word() {
    // The largest word reads as the uniform 1 and maps to 0; the word 0
    // reads as the smallest uniform and maps to the cap, 64 ln 2.
    assert_eq!(neg_ln_q32(u64::MAX), 0);
    assert_eq!(neg_ln_q32(0), EXPONENTIAL_MAX_Q32);
    // The word below 2^63 reads as the uniform one half and maps to ln 2
    // exactly: its logarithm has no fractional bits.
    assert_eq!(neg_ln_q32(u64::MAX / 2), LN2_Q32);
    // A larger word is a larger uniform, hence a smaller variate.
    let mut previous = neg_ln_q32(0);
    for i in 1..64u32 {
        let word = (1u64 << i) - 1;
        let current = neg_ln_q32(word);
        assert!(current < previous, "not falling at bit {}", i);
        previous = current;
    }
    assert!(neg_ln_q32(u64::MAX) < previous);
}
