use cpl::util::timer::{format_time, time};

#[test]
fn spans_of_time_in_words() {
    assert_eq!(format_time(0), "");
    assert_eq!(format_time(1), "1 nanosecond");
    assert_eq!(format_time(2), "2 nanoseconds");
    assert_eq!(format_time(999), "999 nanoseconds");
    assert_eq!(format_time(1000), "1 microsecond");
    assert_eq!(format_time(1500), "1 microsecond, 500 nanoseconds");
    assert_eq!(format_time(1000000), "1 millisecond");
    assert_eq!(format_time(1000000000), "1 second");
    assert_eq!(format_time(59999999999), "59 seconds, 999 milliseconds, 999 microseconds, 999 nanoseconds");
    assert_eq!(format_time(60000000000), "1 minute");
    assert_eq!(format_time(3661000000000), "1 hour, 1 minute, 1 second");
    assert_eq!(format_time(86400000000000), "1 day");
    assert_eq!(format_time(2629800000000000), "1 month");
    assert_eq!(format_time(31557600000000000), "1 year");
    assert_eq!(format_time(94672799999999999), "2 years, 11 months, 30 days, 10 hours, 29 minutes, 59 seconds, 999 milliseconds, 999 microseconds, 999 nanoseconds");
    assert_eq!(format_time(18446744073709551616), "584 years, 6 months, 15 days, 8 hours, 34 minutes, 33 seconds, 709 milliseconds, 551 microseconds, 616 nanoseconds");
    assert_eq!(format_time(340282366920938463463374607431768211455), "10782897524556318080696 years, 29 days, 3 hours, 23 minutes, 51 seconds, 768 milliseconds, 211 microseconds, 455 nanoseconds");
}

#[test]
fn timing_returns_what_the_function_returns() {
    let (elapsed, result) = time(|| {
        let mut sum: u64 = 0;
        while sum != 1_000 {
            sum += 1;
        }
        sum
    });
    assert_eq!(result, 1_000);
    assert!(elapsed < u128::MAX);
    let (_, text) = time(|| format_time(1_001));
    assert_eq!(text, "1 microsecond, 1 nanosecond");
}
