use dogstatsd_utils::rate::{parse_rate, rate_from, RateSpecification};

#[test]
fn nonsense_string() {
    assert_eq!(parse_rate("abcde"), None);
}

#[test]
fn hz_string() {
    assert_eq!(parse_rate("1hz"), Some(RateSpecification::TimerBased(1)));
    assert_eq!(parse_rate("1 hz"), Some(RateSpecification::TimerBased(1)));
    assert_eq!(parse_rate("2 hz"), Some(RateSpecification::TimerBased(2)));
    assert_eq!(parse_rate("22222 hz"), Some(RateSpecification::TimerBased(22222)));
    assert_eq!(parse_rate("22222hz"), Some(RateSpecification::TimerBased(22222)));
    assert_eq!(parse_rate("1HZ"), Some(RateSpecification::TimerBased(1)));
    assert_eq!(parse_rate("10HZ"), Some(RateSpecification::TimerBased(10)));
}

#[test]
fn throughput_string() {
    assert_eq!(parse_rate("1b"), Some(RateSpecification::ThroughputBased(1)));
    assert_eq!(parse_rate("1kb"), Some(RateSpecification::ThroughputBased(1000)));
    assert_eq!(parse_rate("1 kb"), Some(RateSpecification::ThroughputBased(1000)));
    assert_eq!(parse_rate("100 kb"), Some(RateSpecification::ThroughputBased(1000 * 100)));
    assert_eq!(parse_rate("100 Mb"), Some(RateSpecification::ThroughputBased(100 * 1_000_000)));
    assert_eq!(parse_rate("100 MB"), Some(RateSpecification::ThroughputBased(100 * 1_000_000)));
}

#[test]
fn hz_too_large_for_u32_gives_no_rate() {
    assert_eq!(parse_rate("99999999999hz"), None);
}

#[test]
fn rate_from_prefers_frequency_and_cuts_bytes() {
    assert_eq!(rate_from(Some("42"), Some(7)), Some(RateSpecification::TimerBased(42)));
    assert_eq!(rate_from(None, Some(7)), Some(RateSpecification::ThroughputBased(7)));
    assert_eq!(rate_from(None, Some((1u128 << 32) + 5)), Some(RateSpecification::ThroughputBased(5)));
    assert_eq!(rate_from(Some("4294967296"), None), None);
    assert_eq!(rate_from(None, None), None);
}
