use deepwell::maybe::Maybe;
use deepwell::score::{ScoreType, VoteMap, VoteType};

#[test]
fn vote_map_counts_and_sums() {
    let mut m = VoteMap::new();
    assert!(m.is_empty());
    assert_eq!(m.count_int(), 0);
    m.insert(1, 10);
    m.insert(-1, 4);
    m.insert(0, 3);
    assert_eq!(m.get_int(1), 10);
    assert_eq!(m.get_int(5), 0);
    assert_eq!(m.count_int(), 17);
    assert_eq!(m.sum_int(), 6);
    assert!(!m.is_empty());
    assert_eq!(m.iter(), vec![(-1, 4), (0, 3), (1, 10)]);
    m.insert(1, 2);
    assert_eq!(m.get_int(1), 2);
    assert_eq!(m.sum_int(), -2);
}

#[test]
fn vote_map_extreme_values() {
    let mut m = VoteMap::new();
    m.insert(i16::MIN, 1);
    m.insert(i16::MAX, 2);
    assert_eq!(m.sum_int(), -32768 + 2 * 32767);
    assert_eq!(m.iter(), vec![(i16::MIN, 1), (i16::MAX, 2)]);
    let _ = (VoteType::FiveStar, ScoreType::Median);
}

#[test]
fn maybe_accessors() {
    let set: Maybe<Option<String>> = Maybe::Provided(None);
    let unset: Maybe<Option<String>> = Maybe::Unset;
    assert!(set.is_set());
    assert!(!set.is_unset());
    assert!(unset.is_unset());
    assert_eq!(set.to_option(), Some(&None));
    assert_eq!(unset.to_option(), None);
    assert_eq!(Maybe::Provided(3).into_option(), Some(3));
    assert_eq!(Maybe::<i32>::default(), Maybe::Unset);
    assert_eq!(Option::from(Maybe::Provided("x")), Some("x"));
    assert_eq!(Option::<i32>::from(Maybe::Unset), None);
}
