//! End-to-end scenarios with the basic majority policy.
//!
//! With population 25, group size 10, and adversary size 6, a quorum needs
//! all six adversaries inside the ten-member close group, which the
//! proximity structure makes rare; the aggregate invariants still hold of
//! every run. A group size of 8 lowers the bar to five of six, and there the
//! 200-try search succeeds in a reliable share of trials.

use quorum_sim::engine::{Simulation, Strategy};

#[test]
fn spec_parameters_scenario_keeps_aggregate_invariants() {
    let times: usize = 200;
    let tries: usize = 200;
    let sim = Simulation::new(10, 25, 6).unwrap();
    let res = sim.run(times, tries, Strategy::Basic).unwrap();

    assert_eq!(res.times, times);
    assert_eq!(res.tries_per_time, tries);

    let success_rate = res.success_count as f64 / times as f64 * 100.0;
    let closest_rate = res.closest_success_count as f64 / times as f64 * 100.0;
    let stall_rate = res.total_stalled as f64 / (times as f64 * tries as f64) * 100.0;
    assert!((0.0..=100.0).contains(&success_rate));
    assert!((0.0..=100.0).contains(&closest_rate));
    assert!((0.0..=100.0).contains(&stall_rate));

    // Mean try count among successes stays within the budget.
    if res.success_count > 0 {
        let avg_tries = res.tries_sum as f64 / res.success_count as f64;
        assert!(avg_tries >= 1.0);
        assert!(avg_tries <= tries as f64);
    } else {
        assert_eq!(res.tries_sum, 0);
    }

    // The try-count table partitions the successes, and its index-weighted
    // counts sum to the try-index total.
    let mapped: usize = res.tries_map.iter().map(|&(_, n)| n).sum();
    assert_eq!(mapped, res.success_count);
    let weighted: usize = res.tries_map.iter().map(|&(k, n)| k * n).sum();
    assert_eq!(weighted as u128, res.tries_sum);
    for w in res.tries_map.windows(2) {
        assert!(w[0].0 < w[1].0);
    }
}

#[test]
fn searching_finds_vulnerable_groups_when_the_bar_is_reachable() {
    // Group size 8 with six adversaries: five of six in the close group
    // force the outcome, which a 200-try search finds in a reliable share
    // of trials.
    let times: usize = 150;
    let tries: usize = 200;
    let sim = Simulation::new(8, 25, 6).unwrap();
    let res = sim.run(times, tries, Strategy::Basic).unwrap();

    assert!(res.success_count > 0);
    let avg_tries = res.tries_sum as f64 / res.success_count as f64;
    assert!(avg_tries >= 1.0);
    assert!(avg_tries <= tries as f64);

    // Stalling is a weaker bar than the quorum, so stalled tries are at
    // least as frequent as quorum successes.
    assert!(res.total_stalled >= res.success_count as u128);
}
