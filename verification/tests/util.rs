use piet::util::{lift_pair, map_pair};

#[test]
fn map_pair_applies_the_function_to_both_halves() {
    assert_eq!(map_pair((3u32, 4u32), |x| x as usize + 1), (4usize, 5usize));
    assert_eq!(map_pair(("a", "bc"), |s: &str| s.len()), (1, 2));
}

#[test]
fn lift_pair_needs_both_halves() {
    assert_eq!(lift_pair((Some(1), Some(2))), Some((1, 2)));
    assert_eq!(lift_pair((Some(1), None)), None);
    assert_eq!(lift_pair((None, Some(2))), None);
    assert_eq!(lift_pair::<i32>((None, None)), None);
}
