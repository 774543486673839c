//! Aggregation of per-trial outcomes into summary counts and rates.

use quorum_sim::aggregate::{TrialResult, aggregate};

#[test]
fn aggregate_counts_exactly() {
    let results = vec![
        TrialResult { is_closest_to_prefix: true, hash_num_tries: Some(3), num_stalled: 5 },
        TrialResult { is_closest_to_prefix: false, hash_num_tries: Some(3), num_stalled: 0 },
        TrialResult { is_closest_to_prefix: false, hash_num_tries: Some(1), num_stalled: 2 },
        TrialResult { is_closest_to_prefix: true, hash_num_tries: None, num_stalled: 7 },
    ];
    let r = aggregate(&results, 10);
    assert_eq!(r.times, 4);
    assert_eq!(r.tries_per_time, 10);
    assert_eq!(r.success_count, 3);
    assert_eq!(r.closest_success_count, 2);
    assert_eq!(r.total_stalled, 14);
    assert_eq!(r.tries_sum, 7);
    assert_eq!(r.tries_map, vec![(1, 1), (3, 2)]);
    // The index-weighted counts of the table sum to the try-index total.
    let weighted: usize = r.tries_map.iter().map(|&(k, n)| k * n).sum();
    assert_eq!(weighted as u128, r.tries_sum);
}

#[test]
fn aggregate_of_no_trials_is_empty() {
    let r = aggregate(&Vec::new(), 200);
    assert_eq!(r.times, 0);
    assert_eq!(r.success_count, 0);
    assert_eq!(r.closest_success_count, 0);
    assert_eq!(r.total_stalled, 0);
    assert_eq!(r.tries_sum, 0);
    assert!(r.tries_map.is_empty());
}

#[test]
fn aggregate_of_failed_trials_has_empty_map() {
    let results = vec![
        TrialResult { is_closest_to_prefix: false, hash_num_tries: None, num_stalled: 2 },
        TrialResult { is_closest_to_prefix: true, hash_num_tries: None, num_stalled: 2 },
    ];
    let r = aggregate(&results, 2);
    assert_eq!(r.success_count, 0);
    assert_eq!(r.closest_success_count, 1);
    assert_eq!(r.total_stalled, 4);
    assert!(r.tries_map.is_empty());
}

#[test]
fn aggregate_bounds_give_rates_within_percent_range() {
    let results = vec![
        TrialResult { is_closest_to_prefix: true, hash_num_tries: Some(1), num_stalled: 3 },
        TrialResult { is_closest_to_prefix: true, hash_num_tries: Some(2), num_stalled: 3 },
        TrialResult { is_closest_to_prefix: false, hash_num_tries: None, num_stalled: 0 },
    ];
    let r = aggregate(&results, 3);
    let times = r.times as f64;
    let success_rate = r.success_count as f64 / times * 100.0;
    let closest_rate = r.closest_success_count as f64 / times * 100.0;
    let stall_rate = r.total_stalled as f64 / (times * r.tries_per_time as f64) * 100.0;
    assert!((0.0..=100.0).contains(&success_rate));
    assert!((0.0..=100.0).contains(&closest_rate));
    assert!((0.0..=100.0).contains(&stall_rate));
    // The try-count table's values sum to exactly the number of successes.
    let mapped: usize = r.tries_map.iter().map(|&(_, n)| n).sum();
    assert_eq!(mapped, r.success_count);
    // Keys ascend.
    for w in r.tries_map.windows(2) {
        assert!(w[0].0 < w[1].0);
    }
}
