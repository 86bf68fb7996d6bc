use jose_algorithms::jose::algorithm::{Algorithm, AlgorithmBehavior};
use jose_algorithms::jose::algorithm_family::AlgorithmFamily;
use jose_algorithms::jose::Requirement;
use jose_algorithms::jose::{family_of, family_union};

fn family(members: &[u64]) -> AlgorithmFamily<u64> {
    let mut family = AlgorithmFamily::new();
    assert!(family.add_all(members));
    family
}

#[test]
fn new_family_is_empty() {
    let family: AlgorithmFamily<u64> = AlgorithmFamily::new();
    assert!(family.is_empty());
    assert_eq!(family.len(), 0);
    assert!(family.as_slice().is_empty());
    assert!(!family.contains(&1));
}

#[test]
fn add_twice_reports_new_then_present() {
    let mut family: AlgorithmFamily<u64> = AlgorithmFamily::new();
    assert!(family.add(7));
    assert!(!family.add(7));
    assert_eq!(family.len(), 1);
    assert!(family.contains(&7));
    assert!(!family.is_empty());
}

#[test]
fn add_keeps_the_order_of_arrival() {
    let mut family: AlgorithmFamily<u64> = AlgorithmFamily::new();
    assert!(family.add(3));
    assert!(family.add(1));
    assert!(family.add(2));
    assert!(!family.add(1));
    assert_eq!(family.as_slice(), &[3, 1, 2]);
}

#[test]
fn add_all_stops_at_the_first_repeat() {
    let (a, b, c) = (10u64, 20u64, 30u64);
    let mut family: AlgorithmFamily<u64> = AlgorithmFamily::new();
    assert!(!family.add_all(&[a, b, a, c]));
    assert_eq!(family.len(), 2);
    assert!(family.contains(&a));
    assert!(family.contains(&b));
    assert!(!family.contains(&c));
    assert_eq!(family.as_slice(), &[a, b]);
}

#[test]
fn add_all_stops_at_the_first_member() {
    let mut family = family(&[1, 2]);
    assert!(!family.add_all(&[5, 2, 6]));
    assert_eq!(family.as_slice(), &[1, 2, 5]);
    assert!(!family.contains(&6));
}

#[test]
fn add_all_takes_a_list_of_new_values_whole() {
    let mut family = family(&[1]);
    assert!(family.add_all(&[2, 3, 4]));
    assert_eq!(family.as_slice(), &[1, 2, 3, 4]);
}

#[test]
fn add_all_of_nothing_is_true() {
    let mut family = family(&[1]);
    assert!(family.add_all(&[]));
    assert_eq!(family.as_slice(), &[1]);
}

#[test]
fn remove_reports_whether_it_found_the_value() {
    let mut family = family(&[1, 2, 3]);
    assert!(family.remove(&2));
    assert!(!family.remove(&2));
    assert!(!family.remove(&9));
    assert_eq!(family.as_slice(), &[1, 3]);
    assert_eq!(family.len(), 2);
}

#[test]
fn remove_all_stops_at_the_first_stranger() {
    let mut family = family(&[1, 2, 3, 4]);
    assert!(!family.remove_all(&[2, 9, 3]));
    assert_eq!(family.as_slice(), &[1, 3, 4]);
    assert!(family.contains(&3));
}

#[test]
fn remove_all_stops_at_the_first_repeat() {
    let mut family = family(&[1, 2, 3, 4]);
    assert!(!family.remove_all(&[1, 1, 4]));
    assert_eq!(family.as_slice(), &[2, 3, 4]);
}

#[test]
fn remove_all_takes_out_a_list_of_members_whole() {
    let mut family = family(&[1, 2, 3, 4]);
    assert!(family.remove_all(&[4, 1]));
    assert_eq!(family.as_slice(), &[2, 3]);
    assert!(family.remove_all(&[]));
    assert_eq!(family.as_slice(), &[2, 3]);
}

#[test]
fn combine_unites_families_without_a_common_member() {
    let mut left = family(&[1, 2, 3]);
    let right = family(&[4, 5]);
    assert!(left.combine(right));
    assert_eq!(left.len(), 5);
    for member in [1u64, 2, 3, 4, 5] {
        assert!(left.contains(&member));
    }
    assert!(!left.contains(&6));
    assert_eq!(left.as_slice(), &[1, 2, 3, 4, 5]);
}

#[test]
fn combine_stops_at_the_first_common_member() {
    let mut left = family(&[1, 2]);
    let right = family(&[7, 2, 8]);
    assert!(!left.combine(right));
    assert_eq!(left.as_slice(), &[1, 2, 7]);
    assert!(!left.contains(&8));
}

#[test]
fn combine_with_the_empty_family_changes_nothing() {
    let mut left = family(&[1, 2]);
    assert!(left.combine(AlgorithmFamily::new()));
    assert_eq!(left.as_slice(), &[1, 2]);
}

#[test]
fn retain_all_leaves_the_family_as_it_was() {
    let source = family(&[1, 2, 3]);
    source.clone().retain_all(&[2]);
    assert_eq!(source.as_slice(), &[1, 2, 3]);
    assert_eq!(source.len(), 3);
}

#[test]
fn retained_keeps_the_listed_members_in_their_order() {
    let source = family(&[5, 1, 4, 2, 3]);
    let kept = source.clone().retained(&[3, 9, 5, 4]);
    assert_eq!(kept.as_slice(), &[5, 4, 3]);
    assert_eq!(source.len(), 5);
    let none = source.clone().retained(&[]);
    assert!(none.is_empty());
    let all = source.clone().retained(&[1, 2, 3, 4, 5, 6]);
    assert_eq!(all.as_slice(), source.as_slice());
}

#[test]
fn a_clone_is_a_family_of_its_own() {
    let source = family(&[1, 2]);
    let mut copy = source.clone();
    assert!(copy.add(3));
    assert!(copy.remove(&1));
    assert_eq!(source.as_slice(), &[1, 2]);
    assert_eq!(copy.as_slice(), &[2, 3]);
}

#[test]
fn members_with_one_name_and_two_levels_are_two_members() {
    let mut family: AlgorithmFamily<Algorithm> = AlgorithmFamily::new();
    assert!(family.add(Algorithm::new("X", Some(Requirement::OPTIONAL))));
    assert!(family.add(Algorithm::new("X", Some(Requirement::REQUIRED))));
    assert!(family.add(Algorithm::new("X", None)));
    assert!(!family.add(Algorithm::new("X", Some(Requirement::OPTIONAL))));
    assert_eq!(family.len(), 3);
    assert!(family.contains(&Algorithm::new("X", None)));
    assert!(!family.contains(&Algorithm::new("X", Some(Requirement::RECOMMENDED))));
    assert!(family.remove(&Algorithm::new("X", Some(Requirement::REQUIRED))));
    assert_eq!(family.len(), 2);
    assert_eq!(family.as_slice()[1].requirement(), None);
}

#[test]
fn family_of_holds_the_list() {
    let family = family_of(&[4u64, 2, 9]);
    assert_eq!(family.as_slice(), &[4, 2, 9]);
    let empty = family_of::<u64>(&[]);
    assert!(empty.is_empty());
}

#[test]
fn family_union_takes_each_family_in_turn() {
    let parts = vec![family(&[1, 2]), family(&[3]), family(&[4, 5])];
    let all = family_union(&parts);
    assert_eq!(all.as_slice(), &[1, 2, 3, 4, 5]);
    assert_eq!(parts[0].as_slice(), &[1, 2]);
    let none = family_union::<u64>(&[]);
    assert!(none.is_empty());
}

#[test]
fn family_union_cuts_a_family_short_at_a_common_member() {
    let parts = vec![family(&[1, 2]), family(&[3, 1, 4]), family(&[5])];
    let all = family_union(&parts);
    assert_eq!(all.as_slice(), &[1, 2, 3, 5]);
    assert!(!all.contains(&4));
}
