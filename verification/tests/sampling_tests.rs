use brush_core::refine::multinomial_sample;
use rand::SeedableRng;

#[test]
fn test_multinomial_sampling() {
    // Weighted sampling without replacement (weights in fixed point).
    let weights = vec![6554, 19661, 26214, 13107];
    let mut rng = rand::rngs::StdRng::seed_from_u64(7);
    let samples = multinomial_sample(&weights, 3, &mut rng);

    assert_eq!(samples.len(), 3);
    for &sample in &samples {
        assert!((sample as usize) < weights.len());
    }
    // Should not have duplicates (sampling without replacement)
    let mut unique_samples = samples.clone();
    unique_samples.sort();
    unique_samples.dedup();
    assert_eq!(unique_samples.len(), samples.len());

    // Edge case: sampling all indices
    let single_weight = vec![65536];
    let single_samples = multinomial_sample(&single_weight, 1, &mut rng);
    assert_eq!(single_samples.len(), 1);
    assert_eq!(single_samples[0], 0);
}

#[test]
fn test_nan_weight_handling() {
    // A weight that is not a number enters the engine as zero and is
    // never sampled.
    let weights_with_hole = vec![32768, 0, 19661, 13107];
    let mut rng = rand::rngs::StdRng::seed_from_u64(11);
    let samples = multinomial_sample(&weights_with_hole, 2, &mut rng);

    assert_eq!(samples.len(), 2);
    assert!(!samples.contains(&1));
    for &sample in &samples {
        assert!(sample == 0 || sample == 2 || sample == 3);
    }
}

#[test]
fn test_all_zero_weights() {
    // Returns an empty selection when no weight is positive.
    let zero_weights = vec![0, 0, 0];
    let mut rng = rand::rngs::StdRng::seed_from_u64(3);
    let result = multinomial_sample(&zero_weights, 1, &mut rng);
    assert_eq!(result.len(), 0);
}
