use chrono::{DateTime, Timelike, Utc};
use chrono_tz::Europe::Oslo;
use pos_backend::clients::spans::{bridge, cap, Span};
use pos_backend::clients::weather_client::{GAP_TOLERANCE, MAX_INTERVALS};
use pos_backend::clock::Timestamp;

fn instant(dt: DateTime<Utc>) -> Timestamp {
    Timestamp::from_secs_nanos(dt.timestamp(), dt.timestamp_subsec_nanos()).unwrap()
}

/// Spans as whole Oslo hours on an arbitrary summer day.
fn spans(hours: &[(u32, u32)]) -> Vec<Span> {
    hours.iter().map(|&(from, to)| span(from, to)).collect()
}

fn span(from: u32, to: u32) -> Span {
    Span { from: at(from), to: at(to) }
}

fn at(hour: u32) -> Timestamp {
    let dt: DateTime<Utc> = format!("2026-09-07T{hour:02}:00:00+02:00").parse().unwrap();
    instant(dt)
}

fn oslo_hour(t: Timestamp) -> u32 {
    DateTime::from_timestamp(t.secs, t.nanos).unwrap().with_timezone(&Oslo).hour()
}

fn hours(spans: &[Span]) -> Vec<(u32, u32)> {
    spans.iter().map(|s| (oslo_hour(s.from), oslo_hour(s.to))).collect()
}

#[test]
fn bridge_closes_a_single_dry_hour() {
    let merged = bridge(spans(&[(6, 7), (8, 9)]), GAP_TOLERANCE);
    assert_eq!(hours(&merged), [(6, 9)]);
}

#[test]
fn bridge_keeps_a_real_dry_stretch_apart() {
    let merged = bridge(spans(&[(6, 7), (12, 13)]), GAP_TOLERANCE);
    assert_eq!(hours(&merged), [(6, 7), (12, 13)]);
}

#[test]
fn alternating_showers_collapse_to_one_stretch() {
    let every_other_hour = spans(&[(0, 1), (2, 3), (4, 5), (6, 7), (8, 9), (10, 11)]);
    let merged = bridge(every_other_hour, GAP_TOLERANCE);
    assert_eq!(hours(&merged), [(0, 11)]);
}

#[test]
fn cap_closes_the_narrowest_gap_first() {
    // Gaps after bridging: 3h, 2h, 4h — the 2h one goes.
    let merged = cap(spans(&[(0, 1), (4, 5), (7, 8), (12, 13)]), 3);
    assert_eq!(hours(&merged), [(0, 1), (4, 8), (12, 13)]);
}

#[test]
fn cap_leaves_a_short_list_alone() {
    let merged = cap(spans(&[(0, 1), (6, 7)]), MAX_INTERVALS);
    assert_eq!(hours(&merged), [(0, 1), (6, 7)]);
}

#[test]
fn worst_case_day_fits_the_screen() {
    let scattered = spans(&[
        (0, 1),
        (3, 4),
        (6, 7),
        (9, 10),
        (12, 13),
        (15, 16),
        (18, 19),
        (21, 22),
    ]);
    let merged = cap(bridge(scattered, GAP_TOLERANCE), MAX_INTERVALS);
    assert!(merged.len() <= MAX_INTERVALS, "got {:?}", hours(&merged));
}

#[test]
fn bridging_twice_changes_nothing() {
    let input = spans(&[(0, 1), (2, 3), (6, 7), (8, 9), (12, 13)]);
    let once = bridge(input, GAP_TOLERANCE);
    let twice = bridge(once.clone(), GAP_TOLERANCE);
    assert_eq!(hours(&once), [(0, 3), (6, 9), (12, 13)]);
    assert_eq!(twice, once);
}

#[test]
fn capping_wide_then_narrow_is_capping_narrow() {
    let input = spans(&[(0, 1), (3, 4), (6, 7), (9, 10), (12, 13), (15, 16), (18, 19)]);
    let wide_then_narrow = cap(cap(input.clone(), 5), 3);
    let narrow = cap(input.clone(), 3);
    assert_eq!(wide_then_narrow, narrow);
    assert_eq!(cap(narrow.clone(), 3), narrow);
}
