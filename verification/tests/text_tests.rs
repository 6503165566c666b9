use rdnsx_core::text::{concat_str, decimal_string, has_char, str_equal, trim_start_matches};
use rdnsx_core::TimeSpan;

#[test]
fn decimal_text() {
    assert_eq!(decimal_string(0), "0");
    assert_eq!(decimal_string(7), "7");
    assert_eq!(decimal_string(1234567890), "1234567890");
    assert_eq!(decimal_string(u64::MAX), "18446744073709551615");
}

#[test]
fn trimming_repeated_prefixes() {
    assert_eq!(trim_start_matches("ASAS15169", "AS"), "15169");
    assert_eq!(trim_start_matches("15169", "AS"), "15169");
    assert_eq!(trim_start_matches("AS", "AS"), "");
    assert_eq!(trim_start_matches("aAS1", "AS"), "aAS1");
    assert_eq!(trim_start_matches("abc", ""), "abc");
}

#[test]
fn string_helpers() {
    assert!(str_equal("abc", "abc"));
    assert!(!str_equal("abc", "abd"));
    assert!(!str_equal("abc", "ab"));
    assert!(has_char("2001:db8::/32", ':'));
    assert!(!has_char("192.0.2.0/24", ':'));
    assert_eq!(concat_str("AS", "123"), "AS123");
}

#[test]
fn time_spans() {
    assert_eq!(TimeSpan::from_secs(2).as_nanos(), 2_000_000_000);
    assert_eq!(TimeSpan::from_millis(1500).as_secs(), 1);
    assert_eq!(TimeSpan::from_millis(1500).as_millis(), 1500);
    assert_eq!(TimeSpan::from_nanos(999).as_secs(), 0);
    assert_eq!(TimeSpan::zero().as_nanos(), 0);
}

#[test]
fn spans_reach_the_longest_duration() {
    let longest = TimeSpan::from_secs(u64::MAX);
    assert_eq!(longest.as_secs(), u64::MAX);
    assert_eq!(longest.as_nanos(), u64::MAX as u128 * 1_000_000_000);
    assert_eq!(longest.as_millis(), u64::MAX as u128 * 1000);
    assert_eq!(TimeSpan::from_total_nanos(1_500).as_nanos(), 1_500);
    assert_eq!(TimeSpan::from_millis(u64::MAX).as_nanos(), u64::MAX as u128 * 1_000_000);
}
