use codec::clock::{clock_time_at, format_clock, local_second_of_day};

#[test]
fn clock_text_is_two_digit_fields() {
    assert_eq!(format_clock(0), "00:00:00");
    assert_eq!(format_clock(3723), "01:02:03");
    assert_eq!(format_clock(86399), "23:59:59");
}

#[test]
fn seconds_of_day_wrap_both_ways() {
    assert_eq!(local_second_of_day(0, 0), 0);
    assert_eq!(local_second_of_day(0, -3600), 82800);
    assert_eq!(local_second_of_day(86399, 1), 0);
    assert_eq!(local_second_of_day(1_431_648_000, 7200), 7200);
}

#[test]
fn message_times_follow_timestamp_and_offset() {
    assert_eq!(clock_time_at(3_723_999, 0), "01:02:03");
    assert_eq!(clock_time_at(3_723_999, 3600), "02:02:03");
    assert_eq!(clock_time_at(0, -3600), "23:00:00");
    assert_eq!(clock_time_at(1_431_648_000_000, 19800), "05:30:00");
}
