use pos_backend::clients::weather_client::{
    NextPeriod, Slot, Summary, TimeseriesData, Weather, WeatherClient, HOUR_SECS, SIX_HOURS_SECS,
};
use pos_backend::clock::Timestamp;
use pos_backend::text::{bytes_contain, contains};

fn codes(list: &[&str]) -> Vec<String> {
    list.iter().map(|s| s.to_string()).collect()
}

fn period(code: &str) -> Option<NextPeriod> {
    Some(NextPeriod { summary: Summary { symbol_code: code.to_string() } })
}

fn at(secs: i64) -> Timestamp {
    Timestamp::from_secs_nanos(secs, 0).unwrap()
}

#[test]
fn any_rain_makes_the_commute_rainy() {
    let w = WeatherClient::classify(&codes(&["clearsky_day", "clearsky_day", "lightrain"]));
    assert_eq!(w, Weather::Rainy);
}

#[test]
fn sleet_and_snow_count_as_rain() {
    assert_eq!(WeatherClient::classify(&codes(&["heavysleet"])), Weather::Rainy);
    assert_eq!(WeatherClient::classify(&codes(&["fair_day", "snowshowers_night"])), Weather::Rainy);
}

#[test]
fn sunny_needs_a_strict_majority() {
    assert_eq!(WeatherClient::classify(&codes(&["clearsky_day", "fair_night", "cloudy"])), Weather::Sunny);
    assert_eq!(WeatherClient::classify(&codes(&["clearsky_day", "fog"])), Weather::Cloudy);
    assert_eq!(WeatherClient::classify(&codes(&["partlycloudy_day", "fair_day"])), Weather::Cloudy);
}

#[test]
fn no_codes_is_cloudy() {
    assert_eq!(WeatherClient::classify(&[]), Weather::Cloudy);
}

#[test]
fn unknown_codes_count_for_neither_side() {
    assert_eq!(WeatherClient::classify(&codes(&["thunder", "fair_day"])), Weather::Sunny);
}

#[test]
fn substring_search_finds_infixes() {
    assert!(contains("lightrainshowers_day", "rain"));
    assert!(!contains("partlycloudy_day", "rain"));
    assert!(contains("abc", ""));
    assert!(!contains("", "a"));
    assert!(contains("tørt vær", "vær"));
    assert!(bytes_contain(&[1, 2, 3, 4], &[3, 4]));
    assert!(!bytes_contain(&[1, 2, 3], &[2, 4]));
}

#[test]
fn hourly_symbol_wins_over_six_hour_one() {
    let data = TimeseriesData { next_1_hours: period("rain"), next_6_hours: period("fair_day") };
    assert_eq!(data.symbol_and_coverage(), Some(("rain".to_string(), HOUR_SECS)));
    let data = TimeseriesData { next_1_hours: None, next_6_hours: period("fair_day") };
    assert_eq!(data.symbol_and_coverage(), Some(("fair_day".to_string(), SIX_HOURS_SECS)));
    let data = TimeseriesData { next_1_hours: None, next_6_hours: None };
    assert_eq!(data.symbol_and_coverage(), None);
}

#[test]
fn overlap_is_open_at_both_ends() {
    let slot = Slot { start: at(100), end: at(200), symbol_code: "rain".to_string() };
    assert!(slot.overlaps(&at(150), &at(160)));
    assert!(slot.overlaps(&at(50), &at(101)));
    assert!(!slot.overlaps(&at(200), &at(300)));
    assert!(!slot.overlaps(&at(0), &at(100)));
    assert!(slot.is_wet());
    let dry = Slot { start: at(100), end: at(200), symbol_code: "cloudy".to_string() };
    assert!(!dry.is_wet());
}

#[test]
fn classification_ignores_the_order_of_the_codes() {
    let codes = vec!["fair_day".to_string(), "cloudy".to_string(), "clearsky_day".to_string(), "fog".to_string(), "fair_night".to_string()];
    let mut reversed = codes.clone();
    reversed.reverse();
    let rotated: Vec<String> = codes[2..].iter().chain(codes[..2].iter()).cloned().collect();
    assert_eq!(WeatherClient::classify(&codes), Weather::Sunny);
    assert_eq!(WeatherClient::classify(&reversed), Weather::Sunny);
    assert_eq!(WeatherClient::classify(&rotated), Weather::Sunny);
    let wet_last = vec!["cloudy".to_string(), "lightrain".to_string()];
    let wet_first = vec!["lightrain".to_string(), "cloudy".to_string()];
    assert_eq!(WeatherClient::classify(&wet_last), WeatherClient::classify(&wet_first));
}
