use chrono::{DateTime, Datelike, NaiveDate, Utc};
use pos_backend::clients::spans::{to_spans, Span};
use pos_backend::clients::weather_client::{
    forecast_slots, JacketInterval, NextPeriod, Slot, Summary, TimeseriesData, TimeseriesEntry,
    WeatherClient, MAX_INTERVALS,
};
use pos_backend::clock::{CalendarDate, Timestamp, WallClock};

fn oslo(hour: u32, minute: u32) -> Timestamp {
    let dt: DateTime<Utc> = format!("2026-09-07T{hour:02}:{minute:02}:00+02:00").parse().unwrap();
    Timestamp::from_secs_nanos(dt.timestamp(), 0).unwrap()
}

fn day() -> CalendarDate {
    CalendarDate::from_days_from_ce(NaiveDate::from_ymd_opt(2026, 9, 7).unwrap().num_days_from_ce()).unwrap()
}

fn clock(h: u32, m: u32) -> WallClock {
    WallClock::from_secs_nanos(h * 3600 + m * 60, 0).unwrap()
}

fn slot(from: u32, to: u32, code: &str) -> Slot {
    Slot { start: oslo(from, 0), end: oslo(to, 0), symbol_code: code.to_string() }
}

fn entry(hour: u32, hourly: Option<&str>, six_hourly: Option<&str>) -> TimeseriesEntry {
    let period = |code: &str| NextPeriod { summary: Summary { symbol_code: code.to_string() } };
    TimeseriesEntry {
        time: oslo(hour, 0),
        data: TimeseriesData { next_1_hours: hourly.map(period), next_6_hours: six_hourly.map(period) },
    }
}

#[test]
fn touching_slots_join_and_are_clamped_to_the_day() {
    let day_start = oslo(6, 0);
    let day_end = oslo(18, 0);
    let wet = vec![slot(4, 7, "rain"), slot(7, 8, "rain"), slot(10, 11, "rain"), slot(17, 20, "rain")];
    let spans = to_spans(wet, day_start, day_end);
    assert_eq!(
        spans,
        vec![
            Span { from: oslo(6, 0), to: oslo(8, 0) },
            Span { from: oslo(10, 0), to: oslo(11, 0) },
            Span { from: oslo(17, 0), to: oslo(18, 0) },
        ]
    );
}

#[test]
fn overlapping_slots_keep_the_later_end() {
    let spans = to_spans(vec![slot(6, 12, "rain"), slot(7, 9, "rain")], oslo(0, 0), oslo(23, 0));
    assert_eq!(spans, vec![Span { from: oslo(6, 0), to: oslo(12, 0) }]);
}

#[test]
fn forecast_steps_become_slots_with_their_coverage() {
    let entries = vec![
        entry(6, Some("rain"), Some("cloudy")),
        entry(7, None, None),
        entry(12, None, Some("fair_day")),
    ];
    assert!(entries.iter().all(|e| e.fits()));
    let slots = forecast_slots(entries);
    assert_eq!(slots.len(), 2);
    assert_eq!((slots[0].start, slots[0].end, slots[0].symbol_code.as_str()), (oslo(6, 0), oslo(7, 0), "rain"));
    assert_eq!((slots[1].start, slots[1].end, slots[1].symbol_code.as_str()), (oslo(12, 0), oslo(18, 0), "fair_day"));
}

#[test]
fn a_forecast_step_at_the_end_of_time_does_not_fit() {
    let last = Timestamp::from_secs_nanos(pos_backend::clock::MAX_TIMESTAMP, 0).unwrap();
    let step = TimeseriesEntry {
        time: last,
        data: TimeseriesData { next_1_hours: None, next_6_hours: None },
    };
    assert!(step.fits());
    let step = TimeseriesEntry {
        time: last,
        data: TimeseriesData {
            next_1_hours: Some(NextPeriod { summary: Summary { symbol_code: "rain".to_string() } }),
            next_6_hours: None,
        },
    };
    assert!(!step.fits());
}

#[test]
fn jacket_view_shows_only_wet_stretches_in_oslo_time() {
    let slots = vec![
        slot(5, 6, "rain"),
        slot(6, 7, "lightrain"),
        slot(7, 8, "cloudy"),
        slot(8, 9, "rainshowers_day"),
        slot(14, 15, "fair_day"),
        slot(16, 17, "heavysnow"),
    ];
    let intervals = WeatherClient::jacket_intervals_from_forecast(day(), slots);
    assert_eq!(
        intervals,
        vec![
            JacketInterval { from: clock(5, 0), to: clock(9, 0) },
            JacketInterval { from: clock(16, 0), to: clock(17, 0) },
        ]
    );
}

#[test]
fn jacket_view_clamps_to_oslo_midnight() {
    let slots = vec![
        Slot { start: oslo(0, 0).plus_secs(-3 * 3600), end: oslo(1, 0), symbol_code: "rain".to_string() },
        Slot { start: oslo(23, 0), end: oslo(23, 0).plus_secs(6 * 3600), symbol_code: "sleet".to_string() },
    ];
    let intervals = WeatherClient::jacket_intervals_from_forecast(day(), slots);
    assert_eq!(
        intervals,
        vec![
            JacketInterval { from: clock(0, 0), to: clock(1, 0) },
            JacketInterval { from: clock(23, 0), to: clock(0, 0) },
        ]
    );
}

#[test]
fn a_scattered_day_is_capped_to_the_screen() {
    let slots: Vec<Slot> = [0, 3, 6, 9, 12, 15, 18, 21].iter().map(|&h| slot(h, h + 1, "rain")).collect();
    let intervals = WeatherClient::jacket_intervals_from_forecast(day(), slots);
    assert_eq!(intervals.len(), MAX_INTERVALS);
    assert_eq!(intervals[0].from, clock(0, 0));
    assert_eq!(intervals[MAX_INTERVALS - 1].to, clock(22, 0));
}

#[test]
fn commute_weather_looks_at_both_windows_and_both_places() {
    let home = vec![slot(7, 8, "cloudy"), slot(16, 17, "fair_day")];
    let work = vec![slot(7, 8, "fair_day"), slot(16, 17, "lightrain")];
    let w = WeatherClient::commute_weather(day(), clock(7, 30), clock(16, 15), 30, &home, &work);
    assert_eq!(w, Some(pos_backend::clients::weather_client::Weather::Rainy));
    let w = WeatherClient::commute_weather(day(), clock(7, 30), clock(12, 0), 30, &home, &work);
    assert_eq!(w, Some(pos_backend::clients::weather_client::Weather::Cloudy));
}

#[test]
fn codes_in_window_skip_slots_that_only_touch() {
    let slots = vec![slot(6, 7, "rain"), slot(7, 8, "fog"), slot(8, 9, "snow")];
    let codes = pos_backend::clients::weather_client::codes_in_window(&slots, oslo(7, 0), oslo(8, 0));
    assert_eq!(codes, vec!["fog".to_string()]);
}
