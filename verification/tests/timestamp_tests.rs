use parasite::timestamp::{parse_time_range, parse_timestamp};

#[test]
fn timestamp_exact_value() {
    assert_eq!(parse_timestamp("01:02:03.004"), Some(3_600_000 + 2 * 60_000 + 3 * 1_000 + 4));
    assert_eq!(parse_timestamp("00:00:00.000"), Some(0));
    assert_eq!(parse_timestamp("00:00:01.000"), Some(1_000));
}

#[test]
fn timestamp_fields_are_not_held_to_a_range() {
    assert_eq!(parse_timestamp("0:99:99.5"), Some(99 * 60_000 + 99 * 1_000 + 5));
    assert_eq!(parse_timestamp("100:00:00.1234"), Some(100 * 3_600_000 + 1234));
}

#[test]
fn timestamp_allows_white_space_around_fields() {
    assert_eq!(parse_timestamp(" 01 : 02 : 03 . 004 "), Some(3_723_004));
    assert_eq!(parse_timestamp("+1:+2:+3.+4"), Some(3_723_004));
}

#[test]
fn timestamp_without_milliseconds_is_refused() {
    assert_eq!(parse_timestamp("00:00:01"), None);
}

#[test]
fn timestamp_of_wrong_shape_is_refused() {
    assert_eq!(parse_timestamp(""), None);
    assert_eq!(parse_timestamp("00:01.000"), None);
    assert_eq!(parse_timestamp("00:00:00:01.000"), None);
    assert_eq!(parse_timestamp("00:00:01.000.5"), None);
    assert_eq!(parse_timestamp("aa:00:01.000"), None);
    assert_eq!(parse_timestamp("00:bb:01.000"), None);
    assert_eq!(parse_timestamp("00:00:cc.000"), None);
    assert_eq!(parse_timestamp("00:00:01.ddd"), None);
    assert_eq!(parse_timestamp("-1:00:01.000"), None);
    assert_eq!(parse_timestamp("00:00:.000"), None);
    assert_eq!(parse_timestamp("00:00:01."), None);
}

#[test]
fn timestamp_too_large_for_64_bits_is_refused() {
    assert_eq!(parse_timestamp("18446744073709551615:00:00.000"), None);
    assert_eq!(parse_timestamp("0:0:0.18446744073709551615"), Some(u64::MAX));
    assert_eq!(parse_timestamp("0:0:1.18446744073709551615"), None);
    assert_eq!(parse_timestamp("5124095576030:25:51.615"), Some(u64::MAX));
    assert_eq!(parse_timestamp("5124095576030:25:51.616"), None);
}

#[test]
fn time_range_exact_value() {
    assert_eq!(parse_time_range("00:00:01.000 --> 00:00:02.500"), Some((1_000, 2_500)));
    assert_eq!(parse_time_range("00:00:01.000-->00:00:02.500"), Some((1_000, 2_500)));
    assert_eq!(parse_time_range("  00:01:00.000  -->  01:00:00.000  "), Some((60_000, 3_600_000)));
}

#[test]
fn time_range_may_be_inverted() {
    assert_eq!(parse_time_range("00:00:05.000 --> 00:00:02.000"), Some((5_000, 2_000)));
}

#[test]
fn time_range_needs_one_arrow_and_two_times() {
    assert_eq!(parse_time_range("00:00:01.000"), None);
    assert_eq!(parse_time_range("00:00:01.000 --> 00:00:02.000 --> 00:00:03.000"), None);
    assert_eq!(parse_time_range("--> 00:00:02.000"), None);
    assert_eq!(parse_time_range("00:00:01.000 -->"), None);
    assert_eq!(parse_time_range("00:00:01 --> 00:00:02"), None);
    assert_eq!(parse_time_range("00:00:01.000 --> 00:00:02"), None);
    assert_eq!(parse_time_range("00:00:01.000 -> 00:00:02.000"), None);
}

#[test]
fn time_range_with_settings_after_the_end_is_refused() {
    assert_eq!(parse_time_range("00:00:01.000 --> 00:00:02.000 align:start"), None);
}
