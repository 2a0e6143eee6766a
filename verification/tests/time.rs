use patchbay::time::{parse_decimal_secs, Duration};

#[test]
fn duration_units() {
    let d = Duration::new(2, 500_000_000);
    assert_eq!(d.as_millis(), 2500);
    assert_eq!(d.as_secs(), 2);
    assert_eq!(d.as_nanos(), 2_500_000_000);
    assert!(Duration::from_nanos(0).is_zero());
    assert_eq!(Duration::from_secs(3), Duration::from_millis(3000));
}

#[test]
fn decimal_seconds() {
    let p = |s: &str| parse_decimal_secs(&s.chars().collect::<Vec<char>>());
    assert_eq!(p("1.234"), Some(Duration::from_millis(1234)));
    assert_eq!(p("60"), Some(Duration::from_secs(60)));
    assert_eq!(p("0.5"), Some(Duration::from_millis(500)));
    assert_eq!(p("abc"), None);
    assert_eq!(p(""), None);
}

#[test]
fn seconds_with_exponent() {
    let p = |s: &str| parse_decimal_secs(&s.chars().collect::<Vec<char>>());
    assert_eq!(p("1e-7"), Some(Duration::from_nanos(100)));
    assert_eq!(p("1.5E2"), Some(Duration::from_secs(150)));
    assert_eq!(p("2.5e-10"), Some(Duration::from_nanos(0)));
    assert_eq!(p("3e+1"), Some(Duration::from_secs(30)));
    assert_eq!(p("1.234567891e0"), Some(Duration::new(1, 234_567_891)));
    assert_eq!(p("1e20"), None);
    assert_eq!(p("0e99999999999999999999999"), Some(Duration::from_nanos(0)));
    assert_eq!(p("7e-99999999999999999999999"), Some(Duration::from_nanos(0)));
    assert_eq!(p("1e"), None);
    assert_eq!(p("e5"), None);
    assert_eq!(p("-1e3"), None);
}

#[test]
fn seconds_round_to_the_nearest_nanosecond() {
    let p = |s: &str| parse_decimal_secs(&s.chars().collect::<Vec<char>>());
    assert_eq!(p("0.0000000004"), Some(Duration::from_nanos(0)));
    assert_eq!(p("0.0000000006"), Some(Duration::from_nanos(1)));
    assert_eq!(p("1.9999999996"), Some(Duration::from_secs(2)));
    assert_eq!(p("0.1234567891234"), Some(Duration::from_nanos(123_456_789)));
    assert_eq!(p("0.1234567896"), Some(Duration::from_nanos(123_456_790)));
    assert_eq!(p("6e-10"), Some(Duration::from_nanos(1)));
}
