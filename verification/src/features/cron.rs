//! Decisions of the first alert job: which legs are due, and the wording.
use vstd::prelude::*;
use bit_vec::BitVec;
use crate::alert_days::{alerts_on, alerts_on_spec, bit_reads};
use crate::features::clients::weather_client::{Weather, WeatherClient};
use crate::clock::WallClock;

verus! {

/// Which departure of the commute an alert is for.
#[derive(Clone, Copy, Debug, PartialEq, Eq, Structural)]
pub enum Leg {
    Home,
    Work,
}

/// Title and body of the push notification for a forecast.
pub open spec fn copy_for_spec(weather: Weather) -> (Seq<char>, Seq<char>) {
    match weather {
        Weather::Rainy => ("Ta med regnjakka"@, "Regn er ventet på turen din."@),
        Weather::Sunny => ("La regnjakka ligge hjemme"@, "Tørt vær på turen din."@),
        Weather::Cloudy => ("Jakke ja, regnjakke nei"@, "Overskyet og tørt på turen din."@),
    }
}

/// The notification title and body for a forecast.
pub fn copy_for(weather: Weather) -> (r: (&'static str, &'static str))
    ensures
        (r.0@, r.1@) == copy_for_spec(weather),
{
    match weather {
        Weather::Rainy => ("Ta med regnjakka", "Regn er ventet på turen din."),
        Weather::Sunny => ("La regnjakka ligge hjemme", "Tørt vær på turen din."),
        Weather::Cloudy => ("Jakke ja, regnjakke nei", "Overskyet og tørt på turen din."),
    }
}

/// Whether the home leg and the work leg are due: alerts on for `weekday`
/// and the leg's departure inside the window.
pub fn legs_due(
    alert_days: &BitVec,
    weekday: usize,
    home_time: WallClock,
    work_time: WallClock,
    window_start: WallClock,
    window_end: WallClock,
) -> (r: (bool, bool))
    ensures
        r.0 == (alerts_on_spec(bit_reads(*alert_days), weekday as int)
            && crate::clients::weather_client::WeatherClient::in_range_spec(home_time, window_start, window_end)),
        r.1 == (alerts_on_spec(bit_reads(*alert_days), weekday as int)
            && crate::clients::weather_client::WeatherClient::in_range_spec(work_time, window_start, window_end)),
{
    if !alerts_on(alert_days, weekday) {
        return (false, false);
    }
    (
        WeatherClient::in_range(home_time, window_start, window_end),
        WeatherClient::in_range(work_time, window_start, window_end),
    )
}

/// What the outside world reported back while alerting one leg.
#[derive(Clone, Copy, Debug, PartialEq, Eq, Structural)]
pub enum LegNotifyEvent {
    /// The alert begins; whether the user has a push token.
    Began { has_push_token: bool },
    /// The weather arrived (`None`: fetching it failed).
    WeatherFetched { weather: Option<Weather> },
    /// The push went out or failed; either way the alert is over.
    PushSent,
}

/// What to do next while alerting one leg.
#[derive(Clone, Copy, Debug, PartialEq, Eq, Structural)]
pub enum LegNotifyAction {
    FetchWeather,
    /// Push the message `copy_for` gives for this weather.
    Send { weather: Weather },
    Stop,
}

/// The next step of a leg's alert: without a push token nothing happens;
/// otherwise the weather is fetched, and once it arrives the message for it is
/// pushed; a failed fetch ends the alert.
pub open spec fn leg_notify_step_spec(event: LegNotifyEvent) -> LegNotifyAction {
    match event {
        LegNotifyEvent::Began { has_push_token: true } => LegNotifyAction::FetchWeather,
        LegNotifyEvent::WeatherFetched { weather: Some(w) } => LegNotifyAction::Send { weather: w },
        _ => LegNotifyAction::Stop,
    }
}

/// The next step of a leg's alert, given what just happened.
pub fn leg_notify_step(event: LegNotifyEvent) -> (r: LegNotifyAction)
    ensures
        r == leg_notify_step_spec(event),
{
    match event {
        LegNotifyEvent::Began { has_push_token: true } => LegNotifyAction::FetchWeather,
        LegNotifyEvent::WeatherFetched { weather: Some(w) } => LegNotifyAction::Send { weather: w },
        _ => LegNotifyAction::Stop,
    }
}

/// A leg's alert pushes the message for exactly the weather that arrived, for
/// every weather; it starts only with a push token, and a failed fetch or a
/// finished push ends it.
pub proof fn lemma_leg_alert_sends_the_fetched_weather(weather: Weather, has_push_token: bool)
    ensures
        leg_notify_step_spec(LegNotifyEvent::WeatherFetched { weather: Some(weather) })
            == (LegNotifyAction::Send { weather }),
        leg_notify_step_spec(LegNotifyEvent::WeatherFetched { weather: None }) == LegNotifyAction::Stop,
        leg_notify_step_spec(LegNotifyEvent::Began { has_push_token }) == (if has_push_token {
            LegNotifyAction::FetchWeather
        } else {
            LegNotifyAction::Stop
        }),
        leg_notify_step_spec(LegNotifyEvent::PushSent) == LegNotifyAction::Stop,
{
}

/// Rain gets the rain-jacket message; dry weather never does, and sunny and
/// cloudy weather get different messages.
pub proof fn lemma_copy_matches_weather()
    ensures
        copy_for_spec(Weather::Rainy).0 == "Ta med regnjakka"@,
        copy_for_spec(Weather::Sunny) != copy_for_spec(Weather::Rainy),
        copy_for_spec(Weather::Cloudy) != copy_for_spec(Weather::Rainy),
        copy_for_spec(Weather::Sunny) != copy_for_spec(Weather::Cloudy),
{
    reveal_strlit("Ta med regnjakka");
    reveal_strlit("La regnjakka ligge hjemme");
    reveal_strlit("Jakke ja, regnjakke nei");
    assert("Ta med regnjakka"@[0] != "La regnjakka ligge hjemme"@[0]);
    assert("Ta med regnjakka"@[0] != "Jakke ja, regnjakke nei"@[0]);
    assert("La regnjakka ligge hjemme"@[0] != "Jakke ja, regnjakke nei"@[0]);
}

} // verus!
