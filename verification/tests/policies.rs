//! The three quorum policies on hand-built sections and groups.

use quorum_sim::id::U256;
use quorum_sim::basic::BasicSectionData;
use quorum_sim::ageing::NodeAgeingSectionData;
use quorum_sim::ranks::NodeAgeingIndexWeights;
use quorum_sim::policy::{SectionData, count_malicious, malicious_nodes};

fn id_with_last(last: u8) -> U256 {
    let mut bytes = vec![0u8; 32];
    bytes[31] = last;
    U256::from_bytes(bytes).unwrap()
}

fn ids(values: &[u8]) -> Vec<U256> {
    values.iter().map(|&b| id_with_last(b)).collect()
}

#[test]
fn basic_quorum_needs_strict_majority() {
    // Group of ten with six adversarial members: 6 > 5, a quorum.
    let section = ids(&[0, 1, 2, 3, 4, 5, 6, 7, 8, 9]);
    let six = BasicSectionData {
        group_size: 10,
        section: ids(&[0, 1, 2, 3, 4, 5, 6, 7, 8, 9]),
        malicious: ids(&[0, 1, 2, 3, 4, 5]),
    };
    assert!(six.has_malicious_quorum(&section));
    assert!(six.can_stall(&section));

    // Five of ten is not strictly more than half: no quorum.
    let five = BasicSectionData {
        group_size: 10,
        section: ids(&[0, 1, 2, 3, 4, 5, 6, 7, 8, 9]),
        malicious: ids(&[0, 1, 2, 3, 4]),
    };
    assert!(!five.has_malicious_quorum(&section));
    // Five of ten is at least half: the adversary can still stall.
    assert!(five.can_stall(&section));

    // Four of ten can neither control nor stall.
    let four = BasicSectionData {
        group_size: 10,
        section: ids(&[0, 1, 2, 3, 4, 5, 6, 7, 8, 9]),
        malicious: ids(&[0, 1, 2, 3]),
    };
    assert!(!four.has_malicious_quorum(&section));
    assert!(!four.can_stall(&section));
}

#[test]
fn count_and_members_follow_the_adversary_set() {
    let data = BasicSectionData {
        group_size: 4,
        section: ids(&[1, 2, 3, 4, 5, 6]),
        malicious: ids(&[2, 4]),
    };
    let group = ids(&[1, 2, 3, 4]);
    assert_eq!(count_malicious(&data, &group), 2);
    assert!(count_malicious(&data, &group) <= group.len());
    let members = malicious_nodes(&data, &group);
    assert_eq!(members.len(), 2);
    assert!(members.iter().any(|m| m.equals(&id_with_last(2))));
    assert!(members.iter().any(|m| m.equals(&id_with_last(4))));
    assert!(data.is_malicious(&id_with_last(4)));
    assert!(!data.is_malicious(&id_with_last(5)));
}

#[test]
fn age_weighted_tie_is_not_a_quorum() {
    // Two adversarial members of ages 1 and 1, one honest member of age 2:
    // the adversarial age sum is exactly half the total, so the strict
    // age-weighted quorum predicate must fail despite the raw majority.
    let data = NodeAgeingSectionData {
        group_size: 3,
        section: ids(&[1, 2, 3]),
        ages: vec![1, 1, 2],
        malicious: ids(&[1, 2]),
    };
    let group = ids(&[1, 2, 3]);
    assert!(!data.has_malicious_quorum(&group));
    // At least half the age weight still stalls.
    assert!(data.can_stall(&group));
}

#[test]
fn age_weighted_quorum_needs_majority_and_age() {
    // Majority with strictly more than half the age: a quorum.
    let strong = NodeAgeingSectionData {
        group_size: 3,
        section: ids(&[1, 2, 3]),
        ages: vec![2, 1, 2],
        malicious: ids(&[1, 2]),
    };
    let group = ids(&[1, 2, 3]);
    assert!(strong.has_malicious_quorum(&group));
    assert!(strong.can_stall(&group));

    // Strictly more than half the age without the raw majority: no quorum.
    let rich_minority = NodeAgeingSectionData {
        group_size: 5,
        section: ids(&[1, 2, 3, 4, 5]),
        ages: vec![9, 9, 1, 1, 1],
        malicious: ids(&[1, 2]),
    };
    let group5 = ids(&[1, 2, 3, 4, 5]);
    assert!(!rich_minority.has_malicious_quorum(&group5));
    // But enough age weight to stall.
    assert!(rich_minority.can_stall(&group5));
}

#[test]
fn age_weighted_stall_by_age_without_headcount() {
    // Two of five adversarial: no stall by headcount; their ages reach
    // exactly half the total, which stalls.
    let data = NodeAgeingSectionData {
        group_size: 5,
        section: ids(&[1, 2, 3, 4, 5]),
        ages: vec![3, 3, 1, 2, 3],
        malicious: ids(&[1, 2]),
    };
    let group = ids(&[1, 2, 3, 4, 5]);
    assert!(!data.has_malicious_quorum(&group));
    assert!(data.can_stall(&group));

    // One age point less and the adversary can no longer stall.
    let weaker = NodeAgeingSectionData {
        group_size: 5,
        section: ids(&[1, 2, 3, 4, 5]),
        ages: vec![3, 2, 1, 2, 3],
        malicious: ids(&[1, 2]),
    };
    assert!(!weaker.can_stall(&group));
}

#[test]
fn rank_weighted_quorum_counts_rank_positions() {
    // Four members of equal age: ranks follow ascending identifier value,
    // positions 0, 1, 2, 3. Weight limit: with t = 3, t*(t-1)/2 = 3.
    let group = ids(&[1, 2, 3, 4]);

    // The three highest-ranked members are adversarial: rank sum 1+2+3 = 6
    // exceeds the limit, and three of four is a majority.
    let top = NodeAgeingIndexWeights {
        group_size: 4,
        section: ids(&[1, 2, 3, 4]),
        ages: vec![1, 1, 1, 1],
        malicious: ids(&[2, 3, 4]),
    };
    assert!(top.has_malicious_quorum(&group));
    assert!(top.can_stall(&group));

    // The three lowest-ranked members: rank sum 0+1+2 = 3 does not exceed
    // the limit, so the majority alone is no quorum.
    let bottom = NodeAgeingIndexWeights {
        group_size: 4,
        section: ids(&[1, 2, 3, 4]),
        ages: vec![1, 1, 1, 1],
        malicious: ids(&[1, 2, 3]),
    };
    assert!(!bottom.has_malicious_quorum(&group));
    // Rank sum 3 reaches total (6) minus limit (3): a stall, as is the
    // majority by headcount.
    assert!(bottom.can_stall(&group));
}

#[test]
fn rank_weighted_ranks_ascend_by_age_before_identifier() {
    // The oldest member outranks everyone regardless of identifier value.
    let group = ids(&[1, 2, 3, 4]);
    let data = NodeAgeingIndexWeights {
        group_size: 4,
        section: ids(&[1, 2, 3, 4]),
        ages: vec![9, 1, 1, 1],
        malicious: ids(&[1]),
    };
    // Member 1 has rank 3: alone it is no majority, and its rank sum 3
    // reaches total (6) minus limit (3), so it stalls but holds no quorum.
    assert!(!data.has_malicious_quorum(&group));
    assert!(data.can_stall(&group));

    // The same single adversary with the lowest age has rank 0: no stall.
    let low = NodeAgeingIndexWeights {
        group_size: 4,
        section: ids(&[1, 2, 3, 4]),
        ages: vec![1, 9, 9, 9],
        malicious: ids(&[1]),
    };
    assert!(!low.has_malicious_quorum(&group));
    assert!(!low.can_stall(&group));
}

#[test]
fn quorum_always_implies_stall_on_sampled_groups() {
    // Spot-check the monotonicity of stall against quorum on a spread of
    // hand-built groups for all three policies.
    for mal_count in 0..=6u8 {
        let all: Vec<u8> = (1..=6).collect();
        let mal: Vec<u8> = (1..=mal_count).collect();
        let group = ids(&all);
        let basic = BasicSectionData {
            group_size: 6,
            section: ids(&all),
            malicious: ids(&mal),
        };
        if basic.has_malicious_quorum(&group) {
            assert!(basic.can_stall(&group));
        }
        let aged = NodeAgeingSectionData {
            group_size: 6,
            section: ids(&all),
            ages: vec![1, 2, 3, 4, 5, 6],
            malicious: ids(&mal),
        };
        if aged.has_malicious_quorum(&group) {
            assert!(aged.can_stall(&group));
        }
        let ranked = NodeAgeingIndexWeights {
            group_size: 6,
            section: ids(&all),
            ages: vec![1, 2, 3, 4, 5, 6],
            malicious: ids(&mal),
        };
        if ranked.has_malicious_quorum(&group) {
            assert!(ranked.can_stall(&group));
        }
    }
}
