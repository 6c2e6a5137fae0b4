use chrono::{Duration, NaiveDate, NaiveDateTime};
use duifene::clock::{Moment, FIRST_SECOND, LAST_SECOND};
use duifene::filter::parse_time;

fn moment(time: NaiveDateTime) -> Moment {
    Moment { seconds: time.and_utc().timestamp(), nanos: time.and_utc().timestamp_subsec_nanos() }
}

fn at(hour: u32, minute: u32, second: u32, nano: u32) -> NaiveDateTime {
    NaiveDate::from_ymd_opt(2026, 8, 10).unwrap().and_hms_nano_opt(hour, minute, second, nano).unwrap()
}

#[test]
fn calendar_ends_where_the_dates_do() {
    assert_eq!(moment(NaiveDateTime::MIN).seconds, FIRST_SECOND);
    assert_eq!(moment(NaiveDateTime::MAX).seconds, LAST_SECOND);
    assert!(moment(NaiveDateTime::MIN).is_in_range());
    assert!(moment(NaiveDateTime::MAX).is_in_range());
    assert!(!Moment { seconds: LAST_SECOND + 1, nanos: 0 }.is_in_range());
    assert!(!Moment { seconds: FIRST_SECOND - 1, nanos: 0 }.is_in_range());
    assert!(!Moment { seconds: 0, nanos: 2_000_000_000 }.is_in_range());
}

#[test]
fn moments_are_ordered_as_dates_are() {
    let times = [
        at(9, 59, 59, 0),
        at(9, 59, 59, 1_500_000_000),
        at(10, 0, 0, 0),
        at(10, 0, 0, 1),
        NaiveDateTime::MIN,
        NaiveDateTime::MAX,
    ];
    for a in times {
        for b in times {
            assert_eq!(moment(a).is_before(&moment(b)), a < b);
        }
    }
}

#[test]
fn time_between_is_counted_as_dates_count_it() {
    let times = [
        at(9, 59, 59, 0),
        at(9, 59, 59, 1_500_000_000),
        at(23, 59, 59, 1_999_999_999),
        at(0, 0, 0, 1),
        at(10, 0, 0, 999_999_999),
        at(10, 0, 0, 0) - Duration::days(400),
        at(9, 59, 59, 1_000_000_000) + Duration::zero(),
        NaiveDateTime::MIN,
        NaiveDateTime::MAX,
    ];
    for a in times {
        for b in times {
            let span = a - b;
            let nanos = span.num_seconds() as i128 * 1_000_000_000 + span.subsec_nanos() as i128;
            assert_eq!(moment(a).nanos_since(&moment(b)), nanos);
        }
    }
    assert_eq!(moment(at(10, 0, 0, 5)).nanos_since(&moment(at(9, 50, 0, 0))), 600_000_000_005);
    assert_eq!(moment(at(9, 50, 0, 0)).nanos_since(&moment(at(10, 0, 0, 5))), -600_000_000_005);
}

#[test]
fn leap_second_counts_where_it_belongs() {
    let leap = Moment { seconds: 35999, nanos: 1_500_000_000 };
    let later = Moment { seconds: 36000, nanos: 0 };
    assert_eq!(later.nanos_since(&leap), 500_000_000);
    assert_eq!(leap.nanos_since(&later), -500_000_000);
    assert_eq!(leap.nanos_since(&Moment { seconds: 35999, nanos: 0 }), 1_500_000_000);
}

#[test]
fn seconds_are_added_as_dates_add_them() {
    for time in [
        at(9, 59, 59, 0),
        at(9, 59, 59, 1_500_000_000),
        at(23, 59, 59, 999_999_999),
        NaiveDateTime::MIN,
    ] {
        for seconds in [1, 60, 86_399, 86_400, 1_000_000_000] {
            assert_eq!(
                moment(time).plus_seconds(seconds),
                moment(time + Duration::seconds(seconds))
            );
        }
    }
    assert_eq!(
        Moment { seconds: 10, nanos: 1_250_000_000 }.plus_seconds(60),
        Moment { seconds: 70, nanos: 250_000_000 }
    );
}

#[test]
fn leap_seconds_can_be_read() {
    assert_eq!(
        parse_time("2026/08/10 09:59:60"),
        Some(Moment {
            seconds: moment(at(9, 59, 59, 0)).seconds,
            nanos: 1_000_000_000
        })
    );
}
