use agentx::session_debug::{format_duration, idle_seconds, push_decimal, push_signed_decimal};

#[test]
fn durations_below_a_minute_are_in_seconds() {
    assert_eq!(format_duration(0), "0s ago");
    assert_eq!(format_duration(42), "42s ago");
    assert_eq!(format_duration(59), "59s ago");
    assert_eq!(format_duration(-5), "-5s ago");
    assert_eq!(format_duration(i64::MIN), "-9223372036854775808s ago");
}

#[test]
fn durations_below_an_hour_are_in_whole_minutes() {
    assert_eq!(format_duration(60), "1m ago");
    assert_eq!(format_duration(119), "1m ago");
    assert_eq!(format_duration(3599), "59m ago");
}

#[test]
fn longer_durations_are_in_whole_hours() {
    assert_eq!(format_duration(3600), "1h ago");
    assert_eq!(format_duration(7199), "1h ago");
    assert_eq!(format_duration(86_400), "24h ago");
    assert_eq!(format_duration(i64::MAX), "2562047788015215h ago");
}

#[test]
fn numbers_are_written_in_decimal() {
    for n in [0u64, 7, 10, 99, 100, 1_234_567_890, u64::MAX] {
        let mut out = String::from("n=");
        push_decimal(&mut out, n);
        assert_eq!(out, format!("n={}", n));
    }
    for n in [0i64, -1, 1, -10, 1000, i64::MIN, i64::MAX] {
        let mut out = String::new();
        push_signed_decimal(&mut out, n);
        assert_eq!(out, format!("{}", n));
    }
}

#[test]
fn idle_time_is_counted_in_whole_seconds() {
    assert_eq!(idle_seconds(10_000, 4_000), 6);
    assert_eq!(idle_seconds(10_999, 10_000), 0);
    assert_eq!(idle_seconds(4_000, 10_000), -6);
    assert_eq!(idle_seconds(u64::MAX, 0), 18_446_744_073_709_551);
    assert_eq!(format_duration(idle_seconds(125_000, 0)), "2m ago");
}
