//! Configuration validation, section generation, and end-to-end runs.

use quorum_sim::engine::{Simulation, SimStruct, SimError, Strategy, run_one_trial};
use quorum_sim::gen::{gen_names, gen_malicious, gen_ages};
use quorum_sim::policy::SectionData;

#[test]
fn invalid_configurations_are_rejected() {
    assert_eq!(Simulation::new(10, 0, 0).unwrap_err(), SimError::ZeroPopulation);
    assert_eq!(Simulation::new(10, 25, 26).unwrap_err(), SimError::AdversaryTooLarge);
    assert_eq!(Simulation::new(26, 25, 6).unwrap_err(), SimError::GroupTooLarge);
    let sim = Simulation::new(10, 25, 6).unwrap();
    assert_eq!(sim.group_size, 10);
    assert_eq!(sim.network_size, 25);
    assert_eq!(sim.quorum_size, 6);
}

#[test]
fn sim_struct_holds_the_configuration() {
    let s = SimStruct::new(10, 25, 6);
    assert_eq!(s.group_size, 10);
    assert_eq!(s.network_size, 25);
    assert_eq!(s.quorum_size, 6);
    let mut rng = rand::thread_rng();
    let data = s.generate_section(&mut rng).unwrap();
    assert_eq!(data.section.len(), 25);
    assert_eq!(data.malicious.len(), 6);
    assert_eq!(data.group_size(), 10);
}

#[test]
fn generators_meet_their_counts() {
    let mut rng = rand::thread_rng();
    let names = gen_names(&mut rng, 40).unwrap();
    assert_eq!(names.len(), 40);
    for i in 0..names.len() {
        for j in 0..names.len() {
            if i != j {
                assert!(!names[i].equals(&names[j]));
            }
        }
    }
    let malicious = gen_malicious(&mut rng, &names, 7).unwrap();
    assert_eq!(malicious.len(), 7);
    for m in &malicious {
        assert!(names.iter().any(|n| n.equals(m)));
    }
    for i in 0..malicious.len() {
        for j in 0..malicious.len() {
            if i != j {
                assert!(!malicious[i].equals(&malicious[j]));
            }
        }
    }
    let ages = gen_ages(&mut rng, &names);
    assert_eq!(ages.len(), names.len());
    for &a in &ages {
        assert!(a < 64);
    }
}

#[test]
fn generated_sections_are_well_formed_per_policy() {
    let mut rng = rand::thread_rng();
    let sim = Simulation::new(4, 12, 3).unwrap();
    let (section, malicious) = sim.generate_section(&mut rng).unwrap();
    assert_eq!(section.len(), 12);
    assert_eq!(malicious.len(), 3);
    for m in &malicious {
        assert!(section.iter().any(|n| n.equals(m)));
    }
    let group = sim.close_group(&section, &quorum_sim::id::U256::zero());
    assert_eq!(group.len(), 4);
}

#[test]
fn small_runs_stay_within_bounds_for_every_strategy() {
    for strategy in [Strategy::Basic, Strategy::NodeAgeingQuorum, Strategy::NodeAgeingIndexWeights]
    {
        let sim = Simulation::new(4, 10, 3).unwrap();
        let res = sim.run(8, 5, strategy).unwrap();
        assert_eq!(res.times, 8);
        assert_eq!(res.tries_per_time, 5);
        assert!(res.success_count <= res.times);
        assert!(res.closest_success_count <= res.times);
        assert!(res.total_stalled <= 8 * 5);
        let mapped: usize = res.tries_map.iter().map(|&(_, n)| n).sum();
        assert_eq!(mapped, res.success_count);
        for &(k, n) in &res.tries_map {
            assert!((1..=5).contains(&k));
            assert!(n >= 1);
        }
        for w in res.tries_map.windows(2) {
            assert!(w[0].0 < w[1].0);
        }
    }
}

#[test]
fn ageing_constructors_generate_full_sections() {
    let mut rng = rand::thread_rng();
    let aged = quorum_sim::ageing::NodeAgeingSectionData::new(&mut rng, 5, 20, 4).unwrap();
    assert_eq!(aged.section.len(), 20);
    assert_eq!(aged.ages.len(), 20);
    assert_eq!(aged.malicious.len(), 4);
    for m in &aged.malicious {
        assert!(aged.section.iter().any(|n| n.equals(m)));
    }
    let ranked = quorum_sim::ranks::NodeAgeingIndexWeights::new(&mut rng, 5, 20, 4).unwrap();
    assert_eq!(ranked.section.len(), 20);
    assert_eq!(ranked.ages.len(), 20);
    assert_eq!(ranked.malicious.len(), 4);
    for m in &ranked.malicious {
        assert!(ranked.section.iter().any(|n| n.equals(m)));
    }
}

#[test]
fn one_trial_rejects_invalid_configurations() {
    // Zero population, oversized adversary set, oversized group, and zero
    // group size all yield no trial.
    assert!(run_one_trial(4, 0, 0, 5, Strategy::Basic).is_none());
    assert!(run_one_trial(4, 10, 11, 5, Strategy::Basic).is_none());
    assert!(run_one_trial(11, 10, 3, 5, Strategy::Basic).is_none());
    assert!(run_one_trial(0, 10, 3, 5, Strategy::Basic).is_none());
    // A valid configuration yields a trial within its budget.
    let t = run_one_trial(4, 10, 3, 5, Strategy::Basic).unwrap();
    assert!(t.num_stalled <= 5);
    if let Some(k) = t.hash_num_tries {
        assert!((1..=5).contains(&k));
    }
}

#[test]
fn zero_tries_never_succeed() {
    let sim = Simulation::new(3, 8, 2).unwrap();
    let res = sim.run(5, 0, Strategy::Basic).unwrap();
    assert_eq!(res.times, 5);
    assert_eq!(res.success_count, 0);
    assert_eq!(res.total_stalled, 0);
    assert_eq!(res.tries_sum, 0);
    assert!(res.tries_map.is_empty());
}
