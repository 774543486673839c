//! Close-group selection on concrete sections.

use quorum_sim::id::{U256, distance, id_le};
use quorum_sim::group::close_group;

fn id_with_last(last: u8) -> U256 {
    let mut bytes = vec![0u8; 32];
    bytes[31] = last;
    U256::from_bytes(bytes).unwrap()
}

fn contains(v: &[U256], x: &U256) -> bool {
    v.iter().any(|y| y.equals(x))
}

#[test]
fn close_group_picks_nearest() {
    // Around point 8, XOR distance of value v is v ^ 8: 8->0, 9->1, 10->2,
    // 12->4, 0->8, 1->9, 2->10, 100->108.
    let section: Vec<U256> = [0u8, 1, 2, 8, 9, 10, 12, 100]
        .iter()
        .map(|&b| id_with_last(b))
        .collect();
    let point = id_with_last(8);
    let group = close_group(&section, &point, 4);
    assert_eq!(group.len(), 4);
    for want in [8u8, 9, 10, 12] {
        assert!(contains(&group, &id_with_last(want)));
    }
}

#[test]
fn close_group_of_small_section_is_whole_section() {
    let section: Vec<U256> = [3u8, 5, 7].iter().map(|&b| id_with_last(b)).collect();
    let group = close_group(&section, &U256::zero(), 10);
    assert_eq!(group.len(), 3);
    for want in [3u8, 5, 7] {
        assert!(contains(&group, &id_with_last(want)));
    }
}

#[test]
fn close_group_size_and_boundary() {
    let section: Vec<U256> = (0u8..20).map(id_with_last).collect();
    let point = id_with_last(13);
    for k in [0usize, 1, 5, 19, 20, 25] {
        let group = close_group(&section, &point, k);
        assert_eq!(group.len(), k.min(section.len()));
        // Every selected member is at most as far from the point as every
        // unselected one.
        for inside in &group {
            let d_in = distance(inside, &point);
            for outside in &section {
                if !contains(&group, outside) {
                    let d_out = distance(outside, &point);
                    assert!(id_le(&d_in, &d_out));
                }
            }
        }
    }
}

#[test]
fn close_group_members_come_from_section() {
    let section: Vec<U256> = [10u8, 20, 30, 40, 50].iter().map(|&b| id_with_last(b)).collect();
    let group = close_group(&section, &id_with_last(33), 3);
    assert_eq!(group.len(), 3);
    for member in &group {
        assert!(contains(&section, member));
    }
    // No duplicates.
    for i in 0..group.len() {
        for j in 0..group.len() {
            if i != j {
                assert!(!group[i].equals(&group[j]));
            }
        }
    }
}
