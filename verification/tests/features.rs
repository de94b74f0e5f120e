use chrono::{DateTime, Utc};
use pos_backend::clients::weather_client::{NextPeriod, Summary, TimeseriesData, TimeseriesEntry};
use pos_backend::clock::{Timestamp, WallClock};
use pos_backend::features::clients::weather_client::{Weather, WeatherClient};

fn clock(h: u32, m: u32) -> WallClock {
    WallClock::from_secs_nanos(h * 3600 + m * 60, 0).unwrap()
}

fn entry(utc_hour: u32, code: &str) -> TimeseriesEntry {
    let dt: DateTime<Utc> = format!("2026-09-07T{utc_hour:02}:00:00Z").parse().unwrap();
    TimeseriesEntry {
        time: Timestamp::from_secs_nanos(dt.timestamp(), 0).unwrap(),
        data: TimeseriesData {
            next_1_hours: Some(NextPeriod { summary: Summary { symbol_code: code.to_string() } }),
            next_6_hours: None,
        },
    }
}

#[test]
fn windows_run_from_half_an_hour_before_to_an_hour_after() {
    assert_eq!(WeatherClient::time_window(clock(8, 0)), (clock(7, 30), clock(9, 0)));
    assert_eq!(WeatherClient::time_window(clock(0, 15)), (clock(23, 45), clock(1, 15)));
}

#[test]
fn only_steps_inside_a_window_count() {
    let entries = vec![entry(6, "rain"), entry(8, "fair_day"), entry(9, "clearsky_day"), entry(17, "cloudy")];
    let codes = WeatherClient::window_symbols(entries, clock(8, 0), clock(17, 30));
    assert_eq!(codes, vec!["fair_day".to_string(), "clearsky_day".to_string(), "cloudy".to_string()]);
}

#[test]
fn the_first_client_classifies_like_the_second() {
    let entries = vec![entry(6, "rain"), entry(8, "fair_day"), entry(9, "clearsky_day"), entry(17, "cloudy")];
    assert_eq!(WeatherClient::weather_around(entries, clock(8, 0), clock(17, 30)), Weather::Sunny);
    let entries = vec![entry(8, "fair_day"), entry(17, "rain")];
    assert_eq!(WeatherClient::weather_around(entries, clock(8, 0), clock(17, 30)), Weather::Rainy);
    assert!(WeatherClient::in_range(clock(23, 50), clock(23, 45), clock(0, 15)));
}
