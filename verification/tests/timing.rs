use mandelbrot_set::format_time;
use mandelbrot_set::timing::{format_nanos, push_decimal};
use std::time::Duration;

#[test]
fn decimal_numerals() {
    let mut out = String::from("n=");
    push_decimal(&mut out, 0);
    assert_eq!(out, "n=0");
    let mut out = String::new();
    push_decimal(&mut out, 9);
    push_decimal(&mut out, 10);
    push_decimal(&mut out, 1234567890);
    assert_eq!(out, "9101234567890");
    let mut out = String::new();
    push_decimal(&mut out, u128::MAX);
    assert_eq!(out, "340282366920938463463374607431768211455");
}

#[test]
fn nanoseconds_below_ten_microseconds() {
    assert_eq!(format_nanos(0), "0ns");
    assert_eq!(format_nanos(1), "1ns");
    assert_eq!(format_nanos(9_999), "9999ns");
}

#[test]
fn microseconds_below_ten_milliseconds() {
    assert_eq!(format_nanos(10_000), "10μs");
    assert_eq!(format_nanos(10_999), "10μs");
    assert_eq!(format_nanos(9_999_999), "9999μs");
}

#[test]
fn milliseconds_below_ten_seconds() {
    assert_eq!(format_nanos(10_000_000), "10ms");
    assert_eq!(format_nanos(9_999_999_999), "9999ms");
}

#[test]
fn seconds_below_one_minute() {
    assert_eq!(format_nanos(10_000_000_000), "10s 0ms");
    assert_eq!(format_nanos(59_999_999_999), "59s 999ms");
    assert_eq!(format_nanos(12_345_678_901), "12s 345ms");
}

#[test]
fn minutes_below_one_hour() {
    assert_eq!(format_nanos(60_000_000_000), "1m 0s 0ms");
    assert_eq!(format_nanos(75_005_000_000), "1m 15s 5ms");
    assert_eq!(format_nanos(3_599_999_000_000), "59m 59s 999ms");
}

#[test]
fn hours_from_one_hour_on() {
    assert_eq!(format_nanos(3_600_000_000_000), "1h 0m 0s 0ms");
    assert_eq!(format_nanos(3_600_000_000_000 * 25 + 61_001_000_000), "25h 1m 1s 1ms");
}

#[test]
fn format_time_reads_the_whole_duration() {
    assert_eq!(format_time(Duration::new(0, 0)), "0ns");
    assert_eq!(format_time(Duration::from_nanos(1_500)), "1500ns");
    assert_eq!(format_time(Duration::from_micros(42)), "42μs");
    assert_eq!(format_time(Duration::from_millis(1_500)), "1500ms");
    assert_eq!(format_time(Duration::new(75, 5_000_000)), "1m 15s 5ms");
    assert_eq!(format_time(Duration::from_secs(7322)), "2h 2m 2s 0ms");
}

#[test]
fn format_time_of_the_longest_duration() {
    assert_eq!(
        format_time(Duration::new(u64::MAX, 999_999_999)),
        "5124095576030431h 0m 15s 999ms"
    );
}
