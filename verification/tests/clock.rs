use chrono::{DateTime, Datelike, NaiveDate, TimeZone, Utc};
use pos_backend::clients::weather_client::{hhmm, WeatherClient};
use pos_backend::clock::{utc_time_of_day, CalendarDate, Timestamp, WallClock, MAX_DAY, MIN_DAY};

fn date(y: i32, m: u32, d: u32) -> CalendarDate {
    CalendarDate::from_days_from_ce(NaiveDate::from_ymd_opt(y, m, d).unwrap().num_days_from_ce()).unwrap()
}

fn clock(h: u32, m: u32) -> WallClock {
    WallClock::from_secs_nanos(h * 3600 + m * 60, 0).unwrap()
}

fn utc(y: i32, mo: u32, d: u32, h: u32, mi: u32) -> Timestamp {
    let dt: DateTime<Utc> = Utc.with_ymd_and_hms(y, mo, d, h, mi, 0).unwrap();
    Timestamp::from_secs_nanos(dt.timestamp(), 0).unwrap()
}

#[test]
fn in_range_includes_both_ends() {
    assert!(WeatherClient::in_range(clock(7, 0), clock(7, 0), clock(7, 5)));
    assert!(WeatherClient::in_range(clock(7, 5), clock(7, 0), clock(7, 5)));
    assert!(!WeatherClient::in_range(clock(7, 6), clock(7, 0), clock(7, 5)));
}

#[test]
fn in_range_wraps_around_midnight() {
    assert!(WeatherClient::in_range(clock(23, 58), clock(23, 55), clock(0, 0)));
    assert!(WeatherClient::in_range(clock(0, 0), clock(23, 55), clock(0, 0)));
    assert!(!WeatherClient::in_range(clock(12, 0), clock(23, 55), clock(0, 5)));
}

#[test]
fn summer_departures_are_two_hours_ahead_of_utc() {
    let (start, end) = WeatherClient::checked_time_window(date(2026, 9, 7), clock(8, 0), 30).unwrap();
    assert_eq!(start, utc(2026, 9, 7, 6, 0));
    assert_eq!(end, utc(2026, 9, 7, 6, 30));
}

#[test]
fn winter_departures_are_one_hour_ahead_of_utc() {
    let (start, end) = WeatherClient::checked_time_window(date(2026, 1, 15), clock(16, 0), 45).unwrap();
    assert_eq!(start, utc(2026, 1, 15, 15, 0));
    assert_eq!(end, utc(2026, 1, 15, 15, 45));
}

#[test]
fn a_departure_in_the_spring_gap_starts_when_the_clocks_jump() {
    // 02:00 CET jumps to 03:00 CEST at 01:00 UTC on 29 March 2026.
    let (start, end) = WeatherClient::checked_time_window(date(2026, 3, 29), clock(2, 30), 10).unwrap();
    assert_eq!(start, utc(2026, 3, 29, 1, 0));
    assert_eq!(end, utc(2026, 3, 29, 1, 10));
    let (start, _) = WeatherClient::checked_time_window(date(2026, 3, 29), clock(2, 0), 0).unwrap();
    assert_eq!(start, utc(2026, 3, 29, 1, 0));
    let (start, _) = WeatherClient::checked_time_window(date(2026, 3, 29), clock(3, 0), 0).unwrap();
    assert_eq!(start, utc(2026, 3, 29, 1, 0));
    let (start, _) = WeatherClient::checked_time_window(date(2026, 3, 29), clock(1, 59), 0).unwrap();
    assert_eq!(start, utc(2026, 3, 29, 0, 59));
}

#[test]
fn an_ambiguous_autumn_departure_takes_the_earlier_instant() {
    let (start, _) = WeatherClient::checked_time_window(date(2026, 10, 25), clock(2, 30), 10).unwrap();
    assert_eq!(start, utc(2026, 10, 25, 0, 30));
}

#[test]
fn a_negative_commute_ends_before_it_starts() {
    let (start, end) = WeatherClient::checked_time_window(date(2026, 9, 7), clock(8, 0), -10).unwrap();
    assert_eq!(end.secs, start.secs - 600);
}

#[test]
fn a_window_past_the_end_of_time_is_refused() {
    let last = CalendarDate::from_days_from_ce(MAX_DAY).unwrap();
    assert!(WeatherClient::checked_time_window(last, clock(23, 0), i32::MAX).is_none());
    let first = CalendarDate::from_days_from_ce(MIN_DAY).unwrap();
    assert!(WeatherClient::checked_time_window(first, clock(12, 0), 10).is_some());
}

#[test]
fn day_bounds_run_from_oslo_midnight_to_oslo_midnight() {
    let (start, end) = WeatherClient::day_bounds(date(2026, 9, 7));
    assert_eq!(start, utc(2026, 9, 6, 22, 0));
    assert_eq!(end, utc(2026, 9, 7, 22, 0));
    let (start, end) = WeatherClient::day_bounds(date(2026, 3, 29));
    assert_eq!(start, utc(2026, 3, 28, 23, 0));
    assert_eq!(end, utc(2026, 3, 29, 22, 0));
}

#[test]
fn out_of_range_values_are_refused() {
    assert!(CalendarDate::from_days_from_ce(MAX_DAY + 1).is_none());
    assert!(WallClock::from_secs_nanos(86_400, 0).is_none());
    assert!(WallClock::from_secs_nanos(0, 1_000_000_000).is_none());
    assert!(Timestamp::from_secs_nanos(0, 1_000_000_000).is_none());
    assert!(Timestamp::from_secs_nanos(i64::MAX, 0).is_none());
}

#[test]
fn utc_time_of_day_counts_from_utc_midnight() {
    assert_eq!(utc_time_of_day(utc(2026, 9, 7, 13, 45)), clock(13, 45));
    let before_epoch = Timestamp::from_secs_nanos(-1, 5).unwrap();
    assert_eq!(utc_time_of_day(before_epoch), WallClock::from_secs_nanos(86_399, 5).unwrap());
}

#[test]
fn wrapping_shift_goes_round_midnight() {
    assert_eq!(clock(0, 10).wrapping_add_secs(-1800), clock(23, 40));
    assert_eq!(clock(23, 30).wrapping_add_secs(3600), clock(0, 30));
}

#[test]
fn hhmm_pads_both_fields() {
    assert_eq!(hhmm(&clock(6, 5)), "06:05");
    assert_eq!(hhmm(&clock(23, 59)), "23:59");
    assert_eq!(hhmm(&WallClock::from_secs_nanos(45_296, 7).unwrap()), "12:34");
}

#[test]
fn timestamp_order_and_differences() {
    let a = Timestamp::from_secs_nanos(10, 500).unwrap();
    let b = Timestamp::from_secs_nanos(11, 100).unwrap();
    assert!(a.is_before(&b));
    assert!(!b.is_before(&a));
    assert!(a.not_after(&a));
    assert_eq!(a.nanos_until(&b), 999_999_600);
    assert_eq!(a.later_of(b), b);
    assert_eq!(a.earlier_of(b), a);
    assert_eq!(a.plus_secs(60), Timestamp::from_secs_nanos(70, 500).unwrap());
}

#[test]
fn weekday_counts_from_monday() {
    assert_eq!(date(2026, 9, 7).weekday_from_monday(), 0);
    assert_eq!(date(2026, 9, 13).weekday_from_monday(), 6);
    assert_eq!(date(1, 1, 1).weekday_from_monday(), 0);
    assert_eq!(date(0, 12, 31).weekday_from_monday(), 6);
    for (y, m, d) in [(1970, 1, 1), (2000, 2, 29), (-44, 3, 15), (2400, 12, 31)] {
        let naive = NaiveDate::from_ymd_opt(y, m, d).unwrap();
        assert_eq!(
            date(y, m, d).weekday_from_monday(),
            naive.weekday().num_days_from_monday() as usize
        );
    }
    assert_eq!(CalendarDate { days_from_ce: MIN_DAY }.weekday_from_monday(), {
        let naive = NaiveDate::MIN;
        naive.weekday().num_days_from_monday() as usize
    });
    assert_eq!(CalendarDate { days_from_ce: MAX_DAY }.weekday_from_monday(), {
        let naive = NaiveDate::MAX;
        naive.weekday().num_days_from_monday() as usize
    });
}

#[test]
fn a_leap_second_is_read_as_the_end_of_its_second() {
    let leap = WallClock::from_secs_nanos_clamped(86_399, 1_500_000_000).unwrap();
    assert_eq!(leap, WallClock { secs: 86_399, nanos: 999_999_999 });
    assert_eq!(WallClock::from_secs_nanos_clamped(3_600, 5).unwrap(), WallClock { secs: 3_600, nanos: 5 });
    assert!(WallClock::from_secs_nanos_clamped(86_400, 0).is_none());
    let t = Timestamp::from_secs_nanos_clamped(1_000, 1_000_000_000).unwrap();
    assert_eq!(t, Timestamp { secs: 1_000, nanos: 999_999_999 });
    assert!(Timestamp::from_secs_nanos_clamped(i64::MAX, 0).is_none());
}
