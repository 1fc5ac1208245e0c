use textutils::text::{center_string, pad_left_string, pad_right_string, parse_i64, parse_u64, parse_usize};

#[test]
fn integer_literals() {
    assert_eq!(parse_i64("-9223372036854775808"), Some(i64::MIN));
    assert_eq!(parse_i64("+12"), Some(12));
    assert_eq!(parse_i64("1_000"), None);
    assert_eq!(parse_i64(" 1"), None);
    assert_eq!(parse_usize("-0"), None);
    assert_eq!(parse_u64("18446744073709551615"), Some(u64::MAX));
    assert_eq!(parse_u64("18446744073709551616"), None);
}

#[test]
fn padding() {
    assert_eq!(pad_left_string("7", 3), "  7");
    assert_eq!(pad_left_string("1234", 3), "1234");
    assert_eq!(pad_right_string("ab", 4), "ab  ");
    assert_eq!(center_string("May", 20), "        May         ");
    assert_eq!(center_string("ab", 5), " ab  ");
}
