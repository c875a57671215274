use findr::cut::{parse_cutranges, split_text, CutRange, CutRangeError};
use findr::decimal::{parse_decimal, signed_padded};
use findr::head::parse_positive_int;
use findr::uniq::get_count_string;

#[test]
fn single_positions_and_ranges() {
    let r = parse_cutranges("1,3-5").ok().unwrap();
    assert_eq!(r, vec![CutRange { start: 1, end: 1 }, CutRange { start: 3, end: 5 }]);
}

#[test]
fn extra_dash_parts_are_ignored() {
    let r = parse_cutranges("2-4-9").ok().unwrap();
    assert_eq!(r, vec![CutRange { start: 2, end: 4 }]);
}

#[test]
fn bad_range_lists() {
    assert_eq!(parse_cutranges("").err(), Some(CutRangeError));
    assert_eq!(parse_cutranges("1,a").err(), Some(CutRangeError));
    assert_eq!(parse_cutranges("3-").err(), Some(CutRangeError));
    assert_eq!(parse_cutranges("1,,2").err(), Some(CutRangeError));
    assert_eq!(parse_cutranges("-1").err(), Some(CutRangeError));
    assert_eq!(CutRangeError.message(), "Error parsing a range!");
}

#[test]
fn splitting_keeps_empty_pieces() {
    assert_eq!(split_text("a,,b,", ','), vec!["a", "", "b", ""]);
    assert_eq!(split_text("", ','), vec![""]);
}

#[test]
fn decimal_reading() {
    assert_eq!(parse_decimal("+42", 100), Some(42));
    assert_eq!(parse_decimal("0042", 100), Some(42));
    assert_eq!(parse_decimal("101", 100), None);
    assert_eq!(parse_decimal("+", 100), None);
    assert_eq!(parse_decimal("4 2", 100), None);
    assert_eq!(parse_decimal("18446744073709551615", u64::MAX), Some(u64::MAX));
    assert_eq!(parse_decimal("18446744073709551616", u64::MAX), None);
}

#[test]
fn positive_counts() {
    assert_eq!(parse_positive_int("3"), Ok(3));
    assert_eq!(parse_positive_int("+7"), Ok(7));
    assert_eq!(parse_positive_int("2147483647"), Ok(2147483647));
    assert_eq!(parse_positive_int("2147483648"), Err("2147483648".to_string()));
    assert_eq!(parse_positive_int("0"), Err("0".to_string()));
    assert_eq!(parse_positive_int("-3"), Err("-3".to_string()));
    assert_eq!(parse_positive_int("foo"), Err("foo".to_string()));
}

#[test]
fn count_prefixes() {
    assert_eq!(get_count_string(false, 12), "");
    assert_eq!(get_count_string(true, 1), "   1 ");
    assert_eq!(get_count_string(true, 12345), "12345 ");
    assert_eq!(get_count_string(true, -5), "  -5 ");
    assert_eq!(get_count_string(true, i32::MIN), "-2147483648 ");
}

#[test]
fn padded_numbers() {
    assert_eq!(signed_padded(0, 3), "  0");
    assert_eq!(signed_padded(i64::MIN, 0), "-9223372036854775808");
}
