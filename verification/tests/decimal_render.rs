use anon_flatten::decimal::usize_to_decimal;

#[test]
fn single_digits_render() {
    assert_eq!(usize_to_decimal(0), "0");
    assert_eq!(usize_to_decimal(7), "7");
    assert_eq!(usize_to_decimal(9), "9");
}

#[test]
fn multi_digit_numbers_render() {
    assert_eq!(usize_to_decimal(10), "10");
    assert_eq!(usize_to_decimal(305), "305");
    assert_eq!(usize_to_decimal(90210), "90210");
}
