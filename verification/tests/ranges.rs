use one_range::OneRange;

#[test]
fn range_inclusive() {
    let r = OneRange::closed(0, 255u8);
    assert!(r.contains(&3))
}

#[test]
fn range() {
    let r = OneRange::half_open(0, 100);
    assert!(r.contains(&3))
}

#[test]
fn range_open() {
    let r = OneRange::open_start_half_open(123);
    assert!(r.contains(&3));
    let r = OneRange::open_start_closed(5u8);
    assert_eq!(r.into_iter(), [0, 1, 2, 3, 4, 5]);
}

#[test]
fn closed_contains_exactly_the_interval() {
    let r = OneRange::closed(3i32, 7);
    assert!(!r.contains(&2));
    assert!(r.contains(&3));
    assert!(r.contains(&5));
    assert!(r.contains(&7));
    assert!(!r.contains(&8));
}

#[test]
fn closed_contains_both_endpoints_of_u8() {
    let r = OneRange::closed(0, 255u8);
    assert!(r.contains(&0));
    assert!(r.contains(&255));
}

#[test]
fn half_open_excludes_upper_bound() {
    let r = OneRange::half_open(0, 100);
    assert!(r.contains(&3));
    assert!(r.contains(&99));
    assert!(!r.contains(&100));
}

#[test]
fn half_open_matches_closed_on_every_probe() {
    let half = OneRange::half_open(2i64, 9);
    let closed = OneRange::closed(2i64, 8);
    for v in -3..15i64 {
        assert_eq!(half.contains(&v), closed.contains(&v));
    }
}

#[test]
fn unit_iteration_is_every_value_ascending() {
    let r = OneRange::closed(3u16, 8);
    assert_eq!(r.iter(), [3, 4, 5, 6, 7, 8]);
}

#[test]
fn stepped_iteration_stops_at_largest_reachable() {
    let r = OneRange::closed_stepped(0u8, 10, 3);
    assert_eq!(r.iter(), [0, 3, 6, 9]);
    let exact = OneRange::closed_stepped(0u8, 9, 3);
    assert_eq!(exact.iter(), [0, 3, 6, 9]);
}

#[test]
fn half_open_stepped_walks_the_shrunk_window() {
    let r = OneRange::half_open_stepped(1u32, 10, 4);
    assert_eq!(r.iter(), [1, 5, 9]);
}

#[test]
fn stepped_iteration_near_the_type_maximum() {
    let r = OneRange::closed_stepped(0u8, 255, 100);
    assert_eq!(r.iter(), [0, 100, 200]);
    let top = OneRange::closed(253u8, 255);
    assert_eq!(top.iter(), [253, 254, 255]);
}

#[test]
fn iteration_is_restartable() {
    let r = OneRange::closed_stepped(5i8, 20, 7);
    let first = r.iter();
    let second = r.iter();
    assert_eq!(first, second);
    assert_eq!(first, [5, 12, 19]);
}

#[test]
fn by_value_iteration_equals_by_reference_iteration() {
    let r = OneRange::closed(-2i16, 2);
    assert_eq!(r.iter(), r.into_iter());
}

#[test]
fn open_start_uses_the_type_minimum() {
    let r = OneRange::open_start_closed(5u8);
    assert_eq!(r.start_bound(), 0);
    assert_eq!(r.iter(), [0, 1, 2, 3, 4, 5]);
    let s = OneRange::open_start_closed(-126i8);
    assert_eq!(s.iter(), [-128, -127, -126]);
}

#[test]
fn open_start_stepped_variants() {
    let r = OneRange::open_start_closed_stepped(6u8, 2);
    assert_eq!(r.iter(), [0, 2, 4, 6]);
    let s = OneRange::open_start_half_open_stepped(7u8, 3);
    assert_eq!(s.iter(), [0, 3, 6]);
}

#[test]
fn inverted_range_is_empty() {
    let r = OneRange::closed(5i32, 3);
    assert!(!r.contains(&3));
    assert!(!r.contains(&4));
    assert!(!r.contains(&5));
    assert!(r.iter().is_empty());
}

#[test]
fn singleton_range() {
    let r = OneRange::closed(42u64, 42);
    assert!(r.contains(&42));
    assert!(!r.contains(&41));
    assert!(!r.contains(&43));
    assert_eq!(r.iter(), [42]);
}

#[test]
fn bounds_are_the_normalized_inclusive_pair() {
    let r = OneRange::half_open(1u32, 10);
    assert_eq!(r.start_bound(), 1);
    assert_eq!(r.end_bound(), 9);
    let s = OneRange::closed(1u32, 10);
    assert_eq!(s.end_bound(), 10);
}

#[test]
fn widest_types_at_their_extremes() {
    let r = OneRange::closed_stepped(u128::MAX - 5, u128::MAX, 4);
    assert_eq!(r.iter(), [u128::MAX - 5, u128::MAX - 1]);
    let s = OneRange::open_start_closed(i128::MIN + 2);
    assert_eq!(s.iter(), [i128::MIN, i128::MIN + 1, i128::MIN + 2]);
}
