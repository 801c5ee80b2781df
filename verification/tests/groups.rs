use std::collections::HashMap;

use parachain_validation::primitives::{Chain, DutyRoster};
use parachain_validation::{make_group_info, Error, GroupInfo};

fn key(byte: u8) -> [u8; 32] {
    [byte; 32]
}

fn roster(duties: &[Chain]) -> DutyRoster {
    DutyRoster { validator_duty: duties.to_vec() }
}

fn sorted(groups: &HashMap<u32, GroupInfo>, id: u32) -> Vec<[u8; 32]> {
    let mut keys = groups[&id].validity_guarantors().clone();
    keys.sort();
    keys
}

#[test]
fn groups_hold_the_authorities_of_each_parachain() {
    let authorities = [key(1), key(2), key(3), key(4), key(5)];
    let duties = [
        Chain::Parachain(100),
        Chain::Relay,
        Chain::Parachain(200),
        Chain::Parachain(100),
        Chain::Parachain(100),
    ];
    let (groups, local) = make_group_info(roster(&duties), &authorities, key(4)).unwrap();
    assert_eq!(groups.len(), 2);
    assert_eq!(sorted(&groups, 100), vec![key(1), key(4), key(5)]);
    assert_eq!(sorted(&groups, 200), vec![key(3)]);
    assert_eq!(groups[&100].needed_validity(), 2);
    assert_eq!(groups[&200].needed_validity(), 1);
    assert_eq!(local.validation, Chain::Parachain(100));
}

#[test]
fn votes_needed_are_half_rounded_up() {
    for size in 1..=7usize {
        let authorities: Vec<[u8; 32]> = (0..size).map(|i| key(i as u8)).collect();
        let duties = vec![Chain::Parachain(1); size];
        let (groups, _) = make_group_info(roster(&duties), &authorities, key(0)).unwrap();
        let expected = [1, 1, 2, 2, 3, 3, 4][size - 1];
        assert_eq!(groups[&1].needed_validity(), expected);
    }
}

#[test]
fn local_validator_belongs_to_the_group_of_its_duty() {
    let authorities = [key(1), key(2)];
    let duties = [Chain::Parachain(5), Chain::Parachain(6)];
    let (groups, local) = make_group_info(roster(&duties), &authorities, key(2)).unwrap();
    assert_eq!(local.validation, Chain::Parachain(6));
    assert!(groups[&6].validity_guarantors().contains(&key(2)));
}

#[test]
fn relay_duty_makes_no_group() {
    let (groups, local) =
        make_group_info(roster(&[Chain::Relay]), &[key(1)], key(1)).unwrap();
    assert!(groups.is_empty());
    assert_eq!(local.validation, Chain::Relay);
}

#[test]
fn repeated_authority_counts_once_and_its_last_duty_is_local() {
    let authorities = [key(1), key(1), key(1)];
    let duties = [Chain::Parachain(1), Chain::Parachain(1), Chain::Relay];
    let (groups, local) = make_group_info(roster(&duties), &authorities, key(1)).unwrap();
    assert_eq!(sorted(&groups, 1), vec![key(1)]);
    assert_eq!(groups[&1].needed_validity(), 1);
    assert_eq!(local.validation, Chain::Relay);
}

#[test]
fn order_of_assignments_does_not_matter_for_groups() {
    let (a, _) = make_group_info(
        roster(&[Chain::Parachain(1), Chain::Parachain(2), Chain::Parachain(1)]),
        &[key(1), key(2), key(3)],
        key(1),
    )
    .unwrap();
    let (b, _) = make_group_info(
        roster(&[Chain::Parachain(1), Chain::Parachain(1), Chain::Parachain(2)]),
        &[key(3), key(1), key(2)],
        key(1),
    )
    .unwrap();
    for id in [1, 2] {
        assert_eq!(sorted(&a, id), sorted(&b, id));
        assert_eq!(a[&id].needed_validity(), b[&id].needed_validity());
    }
}

#[test]
fn roster_of_another_length_is_refused() {
    // also where the local key is no authority
    let result = make_group_info(roster(&[Chain::Relay]), &[key(1), key(2)], key(9));
    assert_eq!(
        result.err(),
        Some(Error::InvalidDutyRosterLength { expected: 2, got: 1 })
    );
}

#[test]
fn local_key_outside_the_authorities_is_refused() {
    let result = make_group_info(roster(&[Chain::Parachain(1)]), &[key(1)], key(9));
    assert_eq!(result.err(), Some(Error::NotValidator(key(9))));

    let result = make_group_info(roster(&[]), &[], key(9));
    assert_eq!(result.err(), Some(Error::NotValidator(key(9))));
}

#[test]
fn default_group_is_empty() {
    let group = GroupInfo::default();
    assert!(group.validity_guarantors().is_empty());
    assert_eq!(group.needed_validity(), 0);
}
