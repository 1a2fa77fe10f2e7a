use cachebox::bench::{percentile_ns, total_duration_ns};

#[test]
fn percentile_picks_the_sample_at_its_rank() {
    let samples: Vec<u128> = (1..=10).map(|n| n * 100).collect();
    assert_eq!(percentile_ns(&samples, 50), 600);
    assert_eq!(percentile_ns(&samples, 0), 100);
    assert_eq!(percentile_ns(&samples, 99), 1000);
    assert_eq!(percentile_ns(&samples, 100), 1000);
    assert_eq!(percentile_ns(&[7], 95), 7);
}

#[test]
fn total_adds_up_the_samples() {
    assert_eq!(total_duration_ns(&[]), 0);
    assert_eq!(total_duration_ns(&[1_000, 2_500, 3]), 3_503);
}
