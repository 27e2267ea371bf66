use katas::unvisited_stones::unvisited_stones;
use katas::unvisited_stones::ValidationError;

#[test]
fn stones_example() {
    // multiples of 2 and 3 up to 10 cover {2,3,4,6,8,9,10}; {1,5,7} stay.
    assert_eq!(unvisited_stones(10, &[2, 3]), Ok(3));
}

#[test]
fn stones_no_birds() {
    assert_eq!(unvisited_stones(7, &[]), Ok(7));
}

#[test]
fn stones_with_reach_one() {
    assert_eq!(unvisited_stones(10, &[5, 1, 3]), Ok(0));
}

#[test]
fn stones_zero_reach_rejected() {
    assert_eq!(unvisited_stones(10, &[2, 0, 3]), Err(ValidationError));
}

#[test]
fn stones_zero_positions() {
    assert_eq!(unvisited_stones(0, &[4]), Ok(0));
}

#[test]
fn stones_reach_beyond_range() {
    assert_eq!(unvisited_stones(5, &[7]), Ok(5));
}

#[test]
fn stones_reach_equal_to_count() {
    assert_eq!(unvisited_stones(6, &[6]), Ok(5));
}

#[test]
fn stones_duplicate_reaches() {
    assert_eq!(unvisited_stones(10, &[2, 2, 2]), Ok(5));
}

#[test]
fn stones_result_within_range() {
    let r = unvisited_stones(20, &[3, 4, 5]).unwrap();
    assert!(r <= 20);
    assert_eq!(r, 8);
}
