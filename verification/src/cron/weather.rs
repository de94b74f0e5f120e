//! Decisions of the rain-alert job: when to tick, who is due, and the steps
//! of one alert.
use vstd::prelude::*;
use bit_vec::BitVec;
use crate::alert_days::{alerts_on, alerts_on_spec, bit_reads};
use crate::clients::weather_client::{Weather, WeatherClient};
use crate::clock::{
    oslo_clock, oslo_date, oslo_date_of, oslo_time_of_day, weekday_from_monday_spec, CalendarDate,
    Timestamp, WallClock, MAX_OSLO_TIMESTAMP,
};

verus! {

/// Seconds between two ticks of the job.
pub const TICK_INTERVAL_SECS: u64 = 300;

/// How far ahead of a departure the alert goes out, in seconds.
pub const LOOKAHEAD_SECS: i64 = 900;

/// Seconds from `minute:second` past the hour to the next round tick mark
/// (zero when already on one).
pub open spec fn tick_delay_spec(minute: int, second: int) -> int {
    let remainder = (minute * 60 + second) % (TICK_INTERVAL_SECS as int);
    if remainder == 0 {
        0
    } else {
        TICK_INTERVAL_SECS - remainder
    }
}

/// How long to sleep, from `minute:second` past the hour, until the next round
/// 5-minute wall-clock mark (:00, :05, :10, ...), so ticks land on times like
/// 06:45 rather than wherever the process booted.
pub fn tick_delay(minute: u32, second: u32) -> (r: u64)
    ensures
        r == tick_delay_spec(minute as int, second as int),
        r < TICK_INTERVAL_SECS,
        (minute * 60 + second + r) % (TICK_INTERVAL_SECS as int) == 0,
{
    let secs_into_hour: u64 = minute as u64 * 60 + second as u64;
    let remainder = secs_into_hour % TICK_INTERVAL_SECS;
    let delay = if remainder == 0 {
        0
    } else {
        TICK_INTERVAL_SECS - remainder
    };
    proof {
        let x = secs_into_hour as int;
        vstd::arithmetic::div_mod::lemma_fundamental_div_mod(x, 300);
        if remainder != 0 {
            vstd::arithmetic::div_mod::lemma_mod_multiples_basic(x / 300 + 1, 300);
            assert(x + delay == (x / 300 + 1) * 300) by (nonlinear_arith)
                requires
                    x == 300 * (x / 300) + x % 300,
                    delay == 300 - x % 300,
            ;
        }
    }
    delay
}

/// What one tick looks at, all in Oslo: today's date and weekday, and the
/// stretch of the clock from `LOOKAHEAD_SECS` to `LOOKAHEAD_SECS` plus one
/// tick after now, in which a departure makes a user due.
#[derive(Clone, Copy, Debug, PartialEq, Eq, Structural)]
pub struct TickWindow {
    pub today: CalendarDate,
    pub weekday: usize,
    pub window_start: WallClock,
    pub window_end: WallClock,
}

/// The tick window of the instant `now`.
pub open spec fn tick_window_spec(now: Timestamp) -> TickWindow {
    TickWindow {
        today: oslo_date(now),
        weekday: weekday_from_monday_spec(oslo_date(now)) as usize,
        window_start: oslo_clock(now.shifted(LOOKAHEAD_SECS as int)),
        window_end: oslo_clock(now.shifted(LOOKAHEAD_SECS + TICK_INTERVAL_SECS)),
    }
}

/// Oslo's date and weekday at `now`, and the alert window: the Oslo times of
/// day `LOOKAHEAD_SECS` and `LOOKAHEAD_SECS` plus one tick after `now`.
pub fn tick_window(now: Timestamp) -> (r: TickWindow)
    requires
        now.valid(),
        now.secs <= MAX_OSLO_TIMESTAMP,
    ensures
        r == tick_window_spec(now),
        r.weekday < 7,
        r.today.valid(),
        r.window_start.valid(),
        r.window_end.valid(),
{
    let today = oslo_date_of(now);
    let weekday = today.weekday_from_monday();
    let window_start = oslo_time_of_day(now.plus_secs(LOOKAHEAD_SECS));
    let window_end = oslo_time_of_day(now.plus_secs(LOOKAHEAD_SECS + TICK_INTERVAL_SECS as i64));
    TickWindow { today, weekday, window_start, window_end }
}

/// A user is due for an alert when alerts are on for the weekday, no alert
/// went out today, and a departure falls in the alert window.
pub open spec fn alert_due_spec(
    alert_days: Seq<Option<bool>>,
    weekday: int,
    last_alerted: Option<CalendarDate>,
    today: CalendarDate,
    home_time: WallClock,
    work_time: WallClock,
    window_start: WallClock,
    window_end: WallClock,
) -> bool {
    &&& alerts_on_spec(alert_days, weekday)
    &&& last_alerted != Some(today)
    &&& WeatherClient::in_range_spec(home_time, window_start, window_end)
        || WeatherClient::in_range_spec(work_time, window_start, window_end)
}

/// Whether the user should be checked for rain on this tick: alerts on for
/// `weekday`, not yet alerted `today`, and home or work departure in the window.
pub fn alert_due(
    alert_days: &BitVec,
    weekday: usize,
    last_alerted: Option<CalendarDate>,
    today: CalendarDate,
    home_time: WallClock,
    work_time: WallClock,
    window_start: WallClock,
    window_end: WallClock,
) -> (r: bool)
    ensures
        r == alert_due_spec(bit_reads(*alert_days), weekday as int, last_alerted, today, home_time, work_time, window_start, window_end),
{
    if !alerts_on(alert_days, weekday) {
        return false;
    }
    match last_alerted {
        Some(day) => {
            if day.days_from_ce == today.days_from_ce {
                return false;
            }
        },
        None => {},
    }
    let home_due = WeatherClient::in_range(home_time, window_start, window_end);
    let work_due = WeatherClient::in_range(work_time, window_start, window_end);
    home_due || work_due
}

/// Where one user's alert stands.
#[derive(Clone, Copy, Debug, PartialEq, Eq, Structural)]
pub enum NotifyState {
    Start,
    FetchingWeather,
    Sending,
    Recording,
    Done,
}

/// What the outside world reported back.
#[derive(Clone, Copy, Debug, PartialEq, Eq, Structural)]
pub enum NotifyEvent {
    /// The alert begins; whether the user has a push token.
    Began { has_push_token: bool },
    /// The commute weather arrived (`None`: fetching it failed).
    WeatherFetched { weather: Option<Weather> },
    /// The push notification went out (`ok`) or failed.
    PushSent { ok: bool },
    /// Recording today's alert finished, whatever its outcome.
    AlertRecorded,
}

/// What to do next.
#[derive(Clone, Copy, Debug, PartialEq, Eq, Structural)]
pub enum NotifyAction {
    FetchWeather,
    SendRainAlert,
    RecordAlert,
    Stop,
}

/// One step of an alert: sends a rain alert if — and only if — rain is forecast
/// for the commute, and marks the user as alerted for today only once the push
/// went out.
pub open spec fn notify_step_spec(state: NotifyState, event: NotifyEvent) -> (NotifyState, NotifyAction) {
    match (state, event) {
        (NotifyState::Start, NotifyEvent::Began { has_push_token: true }) => (NotifyState::FetchingWeather, NotifyAction::FetchWeather),
        (NotifyState::FetchingWeather, NotifyEvent::WeatherFetched { weather: Some(Weather::Rainy) }) => (NotifyState::Sending, NotifyAction::SendRainAlert),
        (NotifyState::Sending, NotifyEvent::PushSent { ok: true }) => (NotifyState::Recording, NotifyAction::RecordAlert),
        _ => (NotifyState::Done, NotifyAction::Stop),
    }
}

/// The next state and action of an alert, given what just happened.
pub fn notify_step(state: NotifyState, event: NotifyEvent) -> (r: (NotifyState, NotifyAction))
    ensures
        r == notify_step_spec(state, event),
        (r.1 == NotifyAction::SendRainAlert) == (state == NotifyState::FetchingWeather
            && event == (NotifyEvent::WeatherFetched { weather: Some(Weather::Rainy) })),
        (r.1 == NotifyAction::RecordAlert) == (state == NotifyState::Sending && event == (NotifyEvent::PushSent { ok: true })),
        (r.1 == NotifyAction::Stop) == (r.0 == NotifyState::Done),
{
    match (state, event) {
        (NotifyState::Start, NotifyEvent::Began { has_push_token: true }) => (NotifyState::FetchingWeather, NotifyAction::FetchWeather),
        (NotifyState::FetchingWeather, NotifyEvent::WeatherFetched { weather: Some(Weather::Rainy) }) => (NotifyState::Sending, NotifyAction::SendRainAlert),
        (NotifyState::Sending, NotifyEvent::PushSent { ok: true }) => (NotifyState::Recording, NotifyAction::RecordAlert),
        _ => (NotifyState::Done, NotifyAction::Stop),
    }
}

/// What one tick brought for a user: the tick's alert window, the weather the
/// fetch reported (`None` when it failed), whether a push went out, and whether
/// recording an alert (when one was recorded) was stored.
#[derive(Clone, Copy, Debug, PartialEq, Eq, Structural)]
pub struct TickOutcome {
    pub window_start: WallClock,
    pub window_end: WallClock,
    pub weather: Option<Weather>,
    pub push_ok: bool,
    pub record_ok: bool,
}

/// One alert driven through `notify_step`: whether a rain alert was pushed
/// successfully, and whether the alert was recorded.
pub open spec fn alert_run(has_push_token: bool, weather: Option<Weather>, push_ok: bool) -> (bool, bool) {
    let (s1, _a1) = notify_step_spec(NotifyState::Start, NotifyEvent::Began { has_push_token });
    let (s2, a2) = notify_step_spec(s1, NotifyEvent::WeatherFetched { weather });
    let (_s3, a3) = notify_step_spec(s2, NotifyEvent::PushSent { ok: push_ok });
    (a2 == NotifyAction::SendRainAlert && push_ok, a3 == NotifyAction::RecordAlert)
}

/// The rain alerts a user successfully receives over the ticks of `today`:
/// on each tick where the user is due (`alert_due_spec`), one alert is run,
/// and an alert whose record is stored sets the user's last alert date to `today`.
pub open spec fn alerts_over_day(
    alert_days: Seq<Option<bool>>,
    weekday: int,
    today: CalendarDate,
    home_time: WallClock,
    work_time: WallClock,
    has_push_token: bool,
    last_alerted: Option<CalendarDate>,
    ticks: Seq<TickOutcome>,
) -> nat
    decreases ticks.len(),
{
    if ticks.len() == 0 {
        0
    } else {
        let t = ticks[0];
        if alert_due_spec(alert_days, weekday, last_alerted, today, home_time, work_time, t.window_start, t.window_end) {
            let (pushed, recorded) = alert_run(has_push_token, t.weather, t.push_ok);
            (if pushed { 1nat } else { 0nat }) + alerts_over_day(
                alert_days, weekday, today, home_time, work_time, has_push_token,
                if recorded && t.record_ok { Some(today) } else { last_alerted },
                ticks.drop_first(),
            )
        } else {
            alerts_over_day(alert_days, weekday, today, home_time, work_time, has_push_token, last_alerted, ticks.drop_first())
        }
    }
}

/// How many ticks failed to store a record.
pub open spec fn failed_records(ticks: Seq<TickOutcome>) -> nat
    decreases ticks.len(),
{
    if ticks.len() == 0 {
        0
    } else {
        (if ticks[0].record_ok { 0nat } else { 1nat }) + failed_records(ticks.drop_first())
    }
}

/// A user gets at most one rain alert a day when recording alerts succeeds,
/// and in general at most one more than the records that failed to be stored;
/// none at all once an alert is already recorded for today.
pub proof fn lemma_at_most_one_alert_per_day(
    alert_days: Seq<Option<bool>>,
    weekday: int,
    today: CalendarDate,
    home_time: WallClock,
    work_time: WallClock,
    has_push_token: bool,
    last_alerted: Option<CalendarDate>,
    ticks: Seq<TickOutcome>,
)
    ensures
        alerts_over_day(alert_days, weekday, today, home_time, work_time, has_push_token, last_alerted, ticks)
            <= 1 + failed_records(ticks),
        failed_records(ticks) == 0 ==> alerts_over_day(
            alert_days, weekday, today, home_time, work_time, has_push_token, last_alerted, ticks,
        ) <= 1,
        last_alerted == Some(today) ==> alerts_over_day(
            alert_days, weekday, today, home_time, work_time, has_push_token, last_alerted, ticks,
        ) == 0,
    decreases ticks.len(),
{
    if ticks.len() > 0 {
        let t = ticks[0];
        let (pushed, recorded) = alert_run(has_push_token, t.weather, t.push_ok);
        assert(pushed ==> recorded);
        lemma_at_most_one_alert_per_day(alert_days, weekday, today, home_time, work_time, has_push_token, last_alerted, ticks.drop_first());
        lemma_at_most_one_alert_per_day(alert_days, weekday, today, home_time, work_time, has_push_token, Some(today), ticks.drop_first());
    }
}

/// The last alert date only ever blocks an alert on that very date: a user is
/// due exactly when alerts are on for the weekday (its bit reads as set) and the
/// home or the work departure lies in the window, unless an alert already went
/// out today; any other last alert date, earlier or later, changes nothing.
pub proof fn lemma_only_todays_alert_blocks(
    alert_days: Seq<Option<bool>>,
    weekday: int,
    last_alerted: Option<CalendarDate>,
    today: CalendarDate,
    home_time: WallClock,
    work_time: WallClock,
    window_start: WallClock,
    window_end: WallClock,
)
    ensures
        alert_due_spec(alert_days, weekday, None, today, home_time, work_time, window_start, window_end) == (
            0 <= weekday < alert_days.len() && alert_days[weekday] == Some(true)
            && (WeatherClient::in_range_spec(home_time, window_start, window_end)
                || WeatherClient::in_range_spec(work_time, window_start, window_end))),
        last_alerted != Some(today) ==> alert_due_spec(
            alert_days, weekday, last_alerted, today, home_time, work_time, window_start, window_end,
        ) == alert_due_spec(alert_days, weekday, None, today, home_time, work_time, window_start, window_end),
        !alert_due_spec(alert_days, weekday, Some(today), today, home_time, work_time, window_start, window_end),
{
}

} // verus!
