use bit_vec::BitVec;
use chrono::{Datelike, NaiveDate};
use pos_backend::alert_days::{alert_day_flags, alert_days_from_flags, alerts_on};
use pos_backend::clients::weather_client::Weather;
use pos_backend::cron::weather::{
    alert_due, notify_step, tick_delay, tick_window, NotifyAction, NotifyEvent, NotifyState,
};
use pos_backend::clock::{CalendarDate, Timestamp, WallClock};
use chrono::{TimeZone, Utc};
use pos_backend::features::cron::{
    copy_for, leg_notify_step, legs_due, LegNotifyAction, LegNotifyEvent,
};

fn clock(h: u32, m: u32) -> WallClock {
    WallClock::from_secs_nanos(h * 3600 + m * 60, 0).unwrap()
}

fn date(y: i32, m: u32, d: u32) -> CalendarDate {
    CalendarDate::from_days_from_ce(NaiveDate::from_ymd_opt(y, m, d).unwrap().num_days_from_ce()).unwrap()
}

fn weekdays() -> BitVec {
    alert_days_from_flags(vec![true, true, true, true, true, false, false])
}

#[test]
fn tick_delay_lands_on_the_next_five_minute_mark() {
    assert_eq!(tick_delay(0, 0), 0);
    assert_eq!(tick_delay(45, 0), 0);
    assert_eq!(tick_delay(43, 20), 100);
    assert_eq!(tick_delay(59, 59), 1);
    assert_eq!(tick_delay(4, 59), 1);
}

#[test]
fn alert_days_round_trip_through_the_bit_vector() {
    let flags = vec![true, false, true, false, false, true, false];
    let bits = alert_days_from_flags(flags.clone());
    assert_eq!(bits.len(), 7);
    assert_eq!(alert_day_flags(&bits), Some(flags));
    assert!(alerts_on(&bits, 0));
    assert!(!alerts_on(&bits, 1));
    assert!(!alerts_on(&bits, 7));
}

#[test]
fn a_schedule_with_missing_storage_reads_as_off() {
    let bits: BitVec = serde_json::from_str(r#"{"storage":[],"nbits":7}"#).unwrap();
    assert_eq!(bits.len(), 7);
    assert_eq!(alert_day_flags(&bits), None);
    assert!(!alerts_on(&bits, 0));
    assert!(!alerts_on(&bits, 6));
    let today = date(2026, 9, 7);
    assert!(!alert_due(&bits, 0, None, today, clock(7, 45), clock(16, 0), clock(7, 45), clock(7, 50)));
    assert_eq!(legs_due(&bits, 0, clock(7, 45), clock(16, 0), clock(7, 45), clock(7, 50)), (false, false));
}

#[test]
fn an_empty_schedule_reads_as_no_flags() {
    let bits = alert_days_from_flags(vec![]);
    assert_eq!(alert_day_flags(&bits), Some(vec![]));
    assert!(!alerts_on(&bits, 0));
}

#[test]
fn a_user_is_due_when_a_departure_is_in_the_window() {
    let today = date(2026, 9, 7);
    assert!(alert_due(&weekdays(), 0, None, today, clock(7, 45), clock(16, 0), clock(7, 45), clock(7, 50)));
    assert!(alert_due(&weekdays(), 0, None, today, clock(9, 0), clock(7, 48), clock(7, 45), clock(7, 50)));
    assert!(!alert_due(&weekdays(), 0, None, today, clock(8, 0), clock(16, 0), clock(7, 45), clock(7, 50)));
}

#[test]
fn no_alert_on_days_switched_off() {
    let today = date(2026, 9, 12);
    assert!(!alert_due(&weekdays(), 5, None, today, clock(7, 45), clock(16, 0), clock(7, 45), clock(7, 50)));
    assert!(!alert_due(&weekdays(), 9, None, today, clock(7, 45), clock(16, 0), clock(7, 45), clock(7, 50)));
}

#[test]
fn only_one_alert_per_user_per_day() {
    let today = date(2026, 9, 7);
    let yesterday = date(2026, 9, 6);
    assert!(!alert_due(&weekdays(), 0, Some(today), today, clock(7, 45), clock(16, 0), clock(7, 45), clock(7, 50)));
    assert!(alert_due(&weekdays(), 0, Some(yesterday), today, clock(7, 45), clock(16, 0), clock(7, 45), clock(7, 50)));
}

#[test]
fn a_rain_alert_goes_out_only_for_rain() {
    let (s, a) = notify_step(NotifyState::Start, NotifyEvent::Began { has_push_token: true });
    assert_eq!((s, a), (NotifyState::FetchingWeather, NotifyAction::FetchWeather));
    let (s2, a2) = notify_step(s, NotifyEvent::WeatherFetched { weather: Some(Weather::Rainy) });
    assert_eq!((s2, a2), (NotifyState::Sending, NotifyAction::SendRainAlert));
    for weather in [Some(Weather::Sunny), Some(Weather::Cloudy), None] {
        assert_eq!(
            notify_step(s, NotifyEvent::WeatherFetched { weather }),
            (NotifyState::Done, NotifyAction::Stop)
        );
    }
}

#[test]
fn the_alert_is_recorded_only_after_the_push_went_out() {
    assert_eq!(
        notify_step(NotifyState::Sending, NotifyEvent::PushSent { ok: true }),
        (NotifyState::Recording, NotifyAction::RecordAlert)
    );
    assert_eq!(
        notify_step(NotifyState::Sending, NotifyEvent::PushSent { ok: false }),
        (NotifyState::Done, NotifyAction::Stop)
    );
    assert_eq!(
        notify_step(NotifyState::Recording, NotifyEvent::AlertRecorded),
        (NotifyState::Done, NotifyAction::Stop)
    );
}

#[test]
fn no_push_token_means_no_alert() {
    assert_eq!(
        notify_step(NotifyState::Start, NotifyEvent::Began { has_push_token: false }),
        (NotifyState::Done, NotifyAction::Stop)
    );
}

#[test]
fn copy_matches_the_forecast() {
    assert_eq!(copy_for(Weather::Rainy), ("Ta med regnjakka", "Regn er ventet på turen din."));
    assert_eq!(copy_for(Weather::Sunny), ("La regnjakka ligge hjemme", "Tørt vær på turen din."));
    assert_eq!(copy_for(Weather::Cloudy), ("Jakke ja, regnjakke nei", "Overskyet og tørt på turen din."));
}

#[test]
fn each_leg_is_due_on_its_own() {
    let due = legs_due(&weekdays(), 2, clock(7, 20), clock(16, 0), clock(7, 15), clock(7, 30));
    assert_eq!(due, (true, false));
    let due = legs_due(&weekdays(), 2, clock(7, 20), clock(7, 25), clock(7, 15), clock(7, 30));
    assert_eq!(due, (true, true));
    let due = legs_due(&weekdays(), 6, clock(7, 20), clock(7, 25), clock(7, 15), clock(7, 30));
    assert_eq!(due, (false, false));
}

#[test]
fn weekday_index_matches_chrono() {
    assert_eq!(NaiveDate::from_ymd_opt(2026, 9, 7).unwrap().weekday().num_days_from_monday(), 0);
}

fn utc(y: i32, mo: u32, d: u32, h: u32, mi: u32) -> Timestamp {
    let dt = Utc.with_ymd_and_hms(y, mo, d, h, mi, 0).unwrap();
    Timestamp::from_secs_nanos(dt.timestamp(), 0).unwrap()
}

#[test]
fn tick_window_reads_oslo_summer_time() {
    // 04:30 UTC is 06:30 in Oslo (CEST) on Monday 7 September 2026.
    let tick = tick_window(utc(2026, 9, 7, 4, 30));
    assert_eq!(tick.today, date(2026, 9, 7));
    assert_eq!(tick.weekday, 0);
    assert_eq!(tick.window_start, clock(6, 45));
    assert_eq!(tick.window_end, clock(6, 50));
}

#[test]
fn tick_window_takes_the_oslo_date_after_utc_midnight() {
    // 23:50 UTC on Saturday 10 January 2026 is already Sunday 00:50 in Oslo (CET).
    let tick = tick_window(utc(2026, 1, 10, 23, 50));
    assert_eq!(tick.today, date(2026, 1, 11));
    assert_eq!(tick.weekday, 6);
    assert_eq!(tick.window_start, clock(1, 5));
    assert_eq!(tick.window_end, clock(1, 10));
}

#[test]
fn tick_window_wraps_past_oslo_midnight() {
    // 22:50 UTC in summer is 00:50 Oslo the next day; 21:50 UTC is 23:50 Oslo.
    let tick = tick_window(utc(2026, 6, 1, 21, 50));
    assert_eq!(tick.today, date(2026, 6, 1));
    assert_eq!(tick.window_start, clock(0, 5));
    assert_eq!(tick.window_end, clock(0, 10));
}

#[test]
fn a_leg_alert_needs_a_token_and_a_forecast() {
    assert_eq!(leg_notify_step(LegNotifyEvent::Began { has_push_token: false }), LegNotifyAction::Stop);
    assert_eq!(leg_notify_step(LegNotifyEvent::Began { has_push_token: true }), LegNotifyAction::FetchWeather);
    assert_eq!(
        leg_notify_step(LegNotifyEvent::WeatherFetched { weather: Some(Weather::Sunny) }),
        LegNotifyAction::Send { weather: Weather::Sunny }
    );
    assert_eq!(leg_notify_step(LegNotifyEvent::WeatherFetched { weather: None }), LegNotifyAction::Stop);
    assert_eq!(leg_notify_step(LegNotifyEvent::PushSent), LegNotifyAction::Stop);
}
