//! The structural baseline and point evaluation on hand-built sections.

use quorum_sim::id::U256;
use quorum_sim::basic::BasicSectionData;
use quorum_sim::policy::{
    close_group_of, has_malicious_prefix_close_group, has_malicious_close_group, can_stall_data,
};

fn id_with_last(last: u8) -> U256 {
    let mut bytes = vec![0u8; 32];
    bytes[31] = last;
    U256::from_bytes(bytes).unwrap()
}

fn ids(values: &[u8]) -> Vec<U256> {
    values.iter().map(|&b| id_with_last(b)).collect()
}

#[test]
fn baseline_quorum_follows_the_nearest_to_zero() {
    // Around the all-zero point the XOR distance of a small value is the
    // value itself, so the four nearest of 1..=10 are 1, 2, 3, 4.
    let captured = BasicSectionData {
        group_size: 4,
        section: ids(&[1, 2, 3, 4, 5, 6, 7, 8, 9, 10]),
        malicious: ids(&[1, 2, 4]),
    };
    assert!(has_malicious_prefix_close_group(&captured));

    let distant = BasicSectionData {
        group_size: 4,
        section: ids(&[1, 2, 3, 4, 5, 6, 7, 8, 9, 10]),
        malicious: ids(&[7, 8, 9]),
    };
    assert!(!has_malicious_prefix_close_group(&distant));
}

#[test]
fn point_evaluation_follows_the_close_group_around_it() {
    // Around point 8 the close group of size 4 in {0, 1, 2, 8, 9, 10, 12,
    // 100} is {8, 9, 10, 12}.
    let data = BasicSectionData {
        group_size: 4,
        section: ids(&[0, 1, 2, 8, 9, 10, 12, 100]),
        malicious: ids(&[8, 9, 12]),
    };
    let point = id_with_last(8);
    let group = close_group_of(&data, &point);
    assert_eq!(group.len(), 4);
    assert!(has_malicious_close_group(&data, &point));
    assert!(can_stall_data(&data, &point));

    // Around the all-zero point the nearest four are {0, 1, 2, 8}, holding
    // only one adversary: neither a quorum nor a stall.
    let zero = U256::zero();
    assert!(!has_malicious_close_group(&data, &zero));
    assert!(!can_stall_data(&data, &zero));
}

#[test]
fn two_of_four_stall_but_hold_no_quorum() {
    let data = BasicSectionData {
        group_size: 4,
        section: ids(&[0, 1, 2, 8, 9, 10, 12, 100]),
        malicious: ids(&[9, 12]),
    };
    let point = id_with_last(8);
    assert!(!has_malicious_close_group(&data, &point));
    assert!(can_stall_data(&data, &point));
}
