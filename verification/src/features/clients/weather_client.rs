//! The first weather client: fixed windows around each departure, matched
//! against the forecast's UTC time of day.
use vstd::prelude::*;
pub use crate::clients::weather_client::Weather;
use crate::clients::weather_client::{classify_codes, code_texts, TimeseriesData, TimeseriesEntry};
use crate::clock::{utc_time_of_day, utc_time_of_day_spec, WallClock};

verus! {

/// Seconds a window opens before its anchor.
pub const WINDOW_BEFORE_SECS: i64 = 1800;

/// Seconds a window stays open after its anchor.
pub const WINDOW_AFTER_SECS: i64 = 3600;

/// The symbol of a time step: the hourly period's, else the six-hour one's.
pub open spec fn first_symbol(data: TimeseriesData) -> Option<String> {
    match data.next_1_hours {
        Some(period) => Some(period.summary.symbol_code),
        None => match data.next_6_hours {
            Some(period) => Some(period.summary.symbol_code),
            None => None,
        },
    }
}

/// The window around a departure: half an hour before to an hour after,
/// wrapping around midnight.
pub open spec fn anchor_window(anchor: WallClock) -> (WallClock, WallClock) {
    (
        WallClock { secs: ((anchor.secs - WINDOW_BEFORE_SECS) % 86_400) as u32, nanos: anchor.nanos },
        WallClock { secs: ((anchor.secs + WINDOW_AFTER_SECS) % 86_400) as u32, nanos: anchor.nanos },
    )
}

/// A time step whose UTC time of day falls in the window around `home` or `work`.
pub open spec fn in_some_window(entry: TimeseriesEntry, home: WallClock, work: WallClock) -> bool {
    let t = utc_time_of_day_spec(entry.time);
    crate::clients::weather_client::WeatherClient::in_range_spec(t, anchor_window(home).0, anchor_window(home).1)
        || crate::clients::weather_client::WeatherClient::in_range_spec(t, anchor_window(work).0, anchor_window(work).1)
}

/// The symbols of the time steps inside either window, in order.
pub open spec fn window_symbols(entries: Seq<TimeseriesEntry>, home: WallClock, work: WallClock) -> Seq<String>
    decreases entries.len(),
{
    if entries.len() == 0 {
        seq![]
    } else {
        let rest = window_symbols(entries.drop_last(), home, work);
        if in_some_window(entries.last(), home, work) {
            match first_symbol(entries.last().data) {
                Some(code) => rest.push(code),
                None => rest,
            }
        } else {
            rest
        }
    }
}

/// The owner of the first weather rules; the HTTP side lives with the application.
pub struct WeatherClient {
    client: reqwest::Client,
}

impl WeatherClient {
    pub closed spec fn http_client(&self) -> reqwest::Client {
        self.client
    }

    pub fn new(client: reqwest::Client) -> (r: Self)
        ensures
            r.http_client() == client,
    {
        Self { client }
    }

    /// The HTTP client this weather client fetches with.
    pub fn http(&self) -> (r: &reqwest::Client)
        ensures
            *r == self.http_client(),
    {
        &self.client
    }

    /// Half an hour before `anchor` to an hour after it, wrapping around midnight.
    pub fn time_window(anchor: WallClock) -> (r: (WallClock, WallClock))
        requires
            anchor.valid(),
        ensures
            r == anchor_window(anchor),
            r.0.valid(),
            r.1.valid(),
    {
        (anchor.wrapping_add_secs(-WINDOW_BEFORE_SECS), anchor.wrapping_add_secs(WINDOW_AFTER_SECS))
    }

    /// `time` lies in the window from `start` to `end` (wrapping around midnight).
    pub fn in_range(time: WallClock, start: WallClock, end: WallClock) -> (r: bool)
        ensures
            r == crate::clients::weather_client::WeatherClient::in_range_spec(time, start, end),
    {
        crate::clients::weather_client::WeatherClient::in_range(time, start, end)
    }

    /// Rain anywhere wins; otherwise sunny only by a strict majority over cloudy.
    pub fn classify(symbol_codes: &[String]) -> (r: Weather)
        ensures
            r == classify_codes(code_texts(symbol_codes@)),
    {
        crate::clients::weather_client::WeatherClient::classify(symbol_codes)
    }

    /// The symbols of the forecast steps whose UTC time of day lies within half
    /// an hour before to an hour after the home or the work departure.
    pub fn window_symbols(entries: Vec<TimeseriesEntry>, home: WallClock, work: WallClock) -> (r: Vec<String>)
        requires
            home.valid(),
            work.valid(),
            forall|i: int| 0 <= i < entries@.len() ==> (#[trigger] entries@[i]).time.valid(),
        ensures
            r@ == window_symbols(entries@, home, work),
    {
        let windows = [Self::time_window(home), Self::time_window(work)];
        let ghost all = entries@;
        let mut entries = entries;
        let mut codes: Vec<String> = Vec::new();
        let ghost mut k: int = 0;
        while entries.len() > 0
            invariant
                0 <= k <= all.len(),
                entries@ == all.skip(k),
                codes@ == window_symbols(all.take(k), home, work),
                windows@ == seq![anchor_window(home), anchor_window(work)],
                forall|i: int| 0 <= i < all.len() ==> (#[trigger] all[i]).time.valid(),
            decreases entries@.len(),
        {
            let entry = entries.remove(0);
            assert(entry == all[k]);
            assert(all.take(k + 1).drop_last() == all.take(k));
            assert(all.take(k + 1).last() == entry);
            assert(all[k].time.valid());
            let t = utc_time_of_day(entry.time);
            let inside = Self::in_range(t, windows[0].0, windows[0].1) || Self::in_range(t, windows[1].0, windows[1].1);
            if inside {
                let period = match entry.data.next_1_hours {
                    Some(period) => Some(period),
                    None => entry.data.next_6_hours,
                };
                match period {
                    Some(period) => codes.push(period.summary.symbol_code),
                    None => {},
                }
            }
            proof {
                k = k + 1;
            }
            assert(entries@ == all.skip(k));
        }
        assert(all.take(all.len() as int) == all);
        codes
    }

    /// The commute weather from the forecast steps around both departures.
    pub fn weather_around(entries: Vec<TimeseriesEntry>, home: WallClock, work: WallClock) -> (r: Weather)
        requires
            home.valid(),
            work.valid(),
            forall|i: int| 0 <= i < entries@.len() ==> (#[trigger] entries@[i]).time.valid(),
        ensures
            r == classify_codes(code_texts(window_symbols(entries@, home, work))),
    {
        let codes = Self::window_symbols(entries, home, work);
        Self::classify(codes.as_slice())
    }
}

/// The symbols taken around the departures are, in order, one per time step
/// inside either window that has a period: its hourly symbol when it has one,
/// its six-hour symbol otherwise.
pub proof fn lemma_window_symbols_prefer_hourly(entries: Seq<TimeseriesEntry>, home: WallClock, work: WallClock)
    ensures
        window_symbols(entries, home, work) == entries.filter_map(|e: TimeseriesEntry| (if !in_some_window(e, home, work) {
                None
            } else if e.data.next_1_hours is Some {
                Some(e.data.next_1_hours->0.summary.symbol_code)
            } else if e.data.next_6_hours is Some {
                Some(e.data.next_6_hours->0.summary.symbol_code)
            } else {
                None
            })),
    decreases entries.len(),
{
    if entries.len() > 0 {
        lemma_window_symbols_prefer_hourly(entries.drop_last(), home, work);
        let f = |e: TimeseriesEntry| (if !in_some_window(e, home, work) {
                None
            } else if e.data.next_1_hours is Some {
                Some(e.data.next_1_hours->0.summary.symbol_code)
            } else if e.data.next_6_hours is Some {
                Some(e.data.next_6_hours->0.summary.symbol_code)
            } else {
                None
            });
        let rest = entries.drop_last().filter_map(f);
        match f(entries.last()) {
            Some(code) => {
                assert(rest.push(code) =~= rest + seq![code]);
            },
            None => {},
        }
    }
}

} // verus!
