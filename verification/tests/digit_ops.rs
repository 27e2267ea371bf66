use katas::digit_ops::calculate_digit_ops;

#[test]
fn digit_ops_example_123() {
    assert_eq!(calculate_digit_ops(123), (6, 6, 0));
}

#[test]
fn digit_ops_example_9() {
    assert_eq!(calculate_digit_ops(9), (9, 9, 0));
}

#[test]
fn digit_ops_example_10() {
    assert_eq!(calculate_digit_ops(10), (1, 0, 1));
}

#[test]
fn digit_ops_zero() {
    assert_eq!(calculate_digit_ops(0), (0, 1, 1));
}

#[test]
fn digit_ops_negative() {
    assert_eq!(calculate_digit_ops(-37), (0, 1, 1));
}

#[test]
fn digit_ops_largest_product() {
    // 1999999999 has digit sum 1 + 9 * 9 = 82 and digit product 9^9.
    assert_eq!(
        calculate_digit_ops(1999999999),
        (82, 387420489, 387420407)
    );
}

#[test]
fn digit_ops_max_input() {
    // 2147483647: sum 46, product 2*1*4*7*4*8*3*6*4*7 = 903168.
    assert_eq!(calculate_digit_ops(i32::MAX), (46, 903168, 903122));
}

#[test]
fn digit_ops_digit_with_zero() {
    // 405: sum 9, product 0.
    assert_eq!(calculate_digit_ops(405), (9, 0, 9));
}
