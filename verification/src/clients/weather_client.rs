//! Forecast slots, weather classification and the commute/jacket views.
use vstd::prelude::*;
use crate::clients::spans::{
    all_covered_by, bridge, cap, capped, clamp_all, clamped, covered_by, forward, is_some_end,
    is_some_start, joined, lemma_capped_covers, lemma_capped_keeps_separation, lemma_capped_shape,
    lemma_covered_transitive, lemma_joined_covers, lemma_joined_ends, lemma_joined_order,
    lemma_joined_separated, lemma_joined_starts, separated_by_more_than, sorted_by_start, to_spans,
    Span,
};
use crate::clock::{
    oslo_clock, oslo_earliest, oslo_gap_end, oslo_jump_after_gap, oslo_time_of_day, oslo_to_utc_earliest, utc_instant,
    utc_instant_spec, CalendarDate, Timestamp, WallClock, MAX_DAY, NANOS_PER_SEC,
};
use crate::text::{contains, text_contains};

verus! {

/// The outcome shown for a commute.
#[derive(Clone, Copy, Debug, PartialEq, Eq, Structural)]
pub enum Weather {
    Rainy,
    Cloudy,
    Sunny,
}

/// A symbol code that promises precipitation.
pub open spec fn is_wet_code(code: Seq<char>) -> bool {
    text_contains(code, "rain"@) || text_contains(code, "sleet"@) || text_contains(code, "snow"@)
}

/// A symbol code for clear or fair sky.
pub open spec fn is_sunny_code(code: Seq<char>) -> bool {
    text_contains(code, "clearsky"@) || text_contains(code, "fair"@)
}

/// A symbol code for cloud or fog.
pub open spec fn is_cloudy_code(code: Seq<char>) -> bool {
    text_contains(code, "cloudy"@) || text_contains(code, "fog"@)
}

/// How many codes are sunny.
pub open spec fn count_sunny(codes: Seq<Seq<char>>) -> nat
    decreases codes.len(),
{
    if codes.len() == 0 {
        0
    } else {
        count_sunny(codes.drop_last()) + if is_sunny_code(codes.last()) { 1nat } else { 0nat }
    }
}

/// How many codes are cloudy.
pub open spec fn count_cloudy(codes: Seq<Seq<char>>) -> nat
    decreases codes.len(),
{
    if codes.len() == 0 {
        0
    } else {
        count_cloudy(codes.drop_last()) + if is_cloudy_code(codes.last()) { 1nat } else { 0nat }
    }
}

/// Some code promises precipitation.
pub open spec fn any_wet(codes: Seq<Seq<char>>) -> bool {
    exists|i: int| 0 <= i < codes.len() && is_wet_code(#[trigger] codes[i])
}

/// Rain anywhere wins; otherwise sunny beats cloudy only by a strict majority.
pub open spec fn classify_codes(codes: Seq<Seq<char>>) -> Weather {
    if any_wet(codes) {
        Weather::Rainy
    } else if count_sunny(codes) > count_cloudy(codes) {
        Weather::Sunny
    } else {
        Weather::Cloudy
    }
}

/// What matters is whether rain shows up anywhere: the outcome is rainy exactly
/// when some code promises precipitation, and sunny or cloudy otherwise.
pub proof fn lemma_rainy_iff_some_code_wet(codes: Seq<Seq<char>>)
    ensures
        (classify_codes(codes) == Weather::Rainy) == any_wet(codes),
        !any_wet(codes) ==> (classify_codes(codes) == Weather::Sunny) == (count_sunny(codes) > count_cloudy(codes)),
{
}

/// How many codes satisfy `p`.
pub open spec fn count_where(codes: Seq<Seq<char>>, p: spec_fn(Seq<char>) -> bool) -> nat
    decreases codes.len(),
{
    if codes.len() == 0 {
        0
    } else {
        count_where(codes.drop_last(), p) + if p(codes.last()) { 1nat } else { 0nat }
    }
}

proof fn lemma_counts_are_count_where(codes: Seq<Seq<char>>)
    ensures
        count_sunny(codes) == count_where(codes, |c: Seq<char>| is_sunny_code(c)),
        count_cloudy(codes) == count_where(codes, |c: Seq<char>| is_cloudy_code(c)),
    decreases codes.len(),
{
    if codes.len() > 0 {
        lemma_counts_are_count_where(codes.drop_last());
    }
}

proof fn lemma_count_where_remove(codes: Seq<Seq<char>>, p: spec_fn(Seq<char>) -> bool, j: int)
    requires
        0 <= j < codes.len(),
    ensures
        count_where(codes, p) == count_where(codes.remove(j), p) + if p(codes[j]) { 1nat } else { 0nat },
    decreases codes.len(),
{
    if j == codes.len() - 1 {
        assert(codes.remove(j) =~= codes.drop_last());
    } else {
        let rest = codes.remove(j);
        assert(rest.drop_last() =~= codes.drop_last().remove(j));
        assert(rest.last() == codes.last());
        lemma_count_where_remove(codes.drop_last(), p, j);
    }
}

proof fn lemma_remove_then_insert<V>(m: vstd::multiset::Multiset<V>, v: V)
    requires
        m.count(v) > 0,
    ensures
        m.remove(v).insert(v) =~= m,
{
    broadcast use vstd::multiset::group_multiset_axioms;
}

proof fn lemma_count_where_permuted(a: Seq<Seq<char>>, b: Seq<Seq<char>>, p: spec_fn(Seq<char>) -> bool)
    requires
        a.to_multiset() =~= b.to_multiset(),
    ensures
        count_where(a, p) == count_where(b, p),
    decreases a.len(),
{
    broadcast use vstd::seq_lib::group_to_multiset_ensures, vstd::multiset::group_multiset_axioms;
    if a.len() == 0 {
        assert(b.to_multiset().len() == 0);
        assert(b.len() == 0);
    } else {
        let x = a.last();
        let front = a.drop_last();
        assert(front.push(x) =~= a);
        assert(a.to_multiset() =~= front.to_multiset().insert(x));
        assert(a.contains(x)) by {
            assert(a[a.len() - 1] == x);
        }
        assert(b.to_multiset().count(x) > 0);
        assert(b.contains(x));
        let j = choose|j: int| 0 <= j < b.len() && b[j] == x;
        assert(b.remove(j).to_multiset() =~= b.to_multiset().remove(x));
        assert(front.to_multiset() =~= a.to_multiset().remove(x));
        lemma_count_where_permuted(front, b.remove(j), p);
        lemma_count_where_remove(b, p, j);
    }
}

proof fn lemma_texts_permuted(a: Seq<String>, b: Seq<String>)
    requires
        a.to_multiset() =~= b.to_multiset(),
    ensures
        code_texts(a).to_multiset() =~= code_texts(b).to_multiset(),
    decreases a.len(),
{
    broadcast use vstd::seq_lib::group_to_multiset_ensures, vstd::multiset::group_multiset_axioms;
    if a.len() == 0 {
        assert(b.to_multiset().len() == 0);
        assert(b.len() == 0);
        assert(code_texts(a) =~= code_texts(b));
    } else {
        let x = a.last();
        let front = a.drop_last();
        assert(front.push(x) =~= a);
        assert(a.to_multiset() =~= front.to_multiset().insert(x));
        assert(a.contains(x)) by {
            assert(a[a.len() - 1] == x);
        }
        assert(b.to_multiset().count(x) > 0);
        assert(b.contains(x));
        let j = choose|j: int| 0 <= j < b.len() && b[j] == x;
        assert(b.remove(j).to_multiset() =~= b.to_multiset().remove(x));
        assert(front.to_multiset() =~= a.to_multiset().remove(x));
        lemma_texts_permuted(front, b.remove(j));
        let tb = code_texts(b);
        assert(code_texts(b.remove(j)) =~= tb.remove(j));
        assert(tb.remove(j).to_multiset() =~= tb.to_multiset().remove(x@));
        assert(code_texts(a) =~= code_texts(front).push(x@));
        assert(tb.contains(x@)) by {
            assert(tb[j] == x@);
        }
        lemma_remove_then_insert(tb.to_multiset(), x@);
    }
}

proof fn lemma_any_wet_permuted(a: Seq<Seq<char>>, b: Seq<Seq<char>>)
    requires
        a.to_multiset() =~= b.to_multiset(),
    ensures
        any_wet(a) ==> any_wet(b),
{
    broadcast use vstd::seq_lib::group_to_multiset_ensures;
    if any_wet(a) {
        let i = choose|i: int| 0 <= i < a.len() && is_wet_code(#[trigger] a[i]);
        assert(a.contains(a[i]));
        assert(a.to_multiset().count(a[i]) > 0);
        assert(b.to_multiset().count(a[i]) > 0);
        assert(b.contains(a[i]));
        let j = choose|j: int| 0 <= j < b.len() && b[j] == a[i];
        assert(is_wet_code(b[j]));
    }
}

/// The classification does not depend on the order of the codes: any
/// rearrangement of the same symbol codes is classified alike.
pub proof fn lemma_classify_ignores_order(codes: Seq<String>, other: Seq<String>)
    requires
        other.to_multiset() =~= codes.to_multiset(),
    ensures
        classify_codes(code_texts(other)) == classify_codes(code_texts(codes)),
{
    lemma_texts_permuted(codes, other);
    let a = code_texts(codes);
    let b = code_texts(other);
    lemma_any_wet_permuted(a, b);
    lemma_any_wet_permuted(b, a);
    lemma_counts_are_count_where(a);
    lemma_counts_are_count_where(b);
    lemma_count_where_permuted(a, b, |c: Seq<char>| is_sunny_code(c));
    lemma_count_where_permuted(a, b, |c: Seq<char>| is_cloudy_code(c));
}

/// The texts of a list of symbol codes.
pub open spec fn code_texts(codes: Seq<String>) -> Seq<Seq<char>> {
    codes.map_values(|c: String| c@)
}

fn is_wet(code: &str) -> (r: bool)
    ensures
        r == is_wet_code(code@),
{
    contains(code, "rain") || contains(code, "sleet") || contains(code, "snow")
}

fn is_sunny(code: &str) -> (r: bool)
    ensures
        r == is_sunny_code(code@),
{
    contains(code, "clearsky") || contains(code, "fair")
}

fn is_cloudy(code: &str) -> (r: bool)
    ensures
        r == is_cloudy_code(code@),
{
    contains(code, "cloudy") || contains(code, "fog")
}

/// One forecast step: the period it covers and its met.no symbol code.
pub struct Slot {
    pub start: Timestamp,
    pub end: Timestamp,
    pub symbol_code: String,
}

impl Slot {
    /// The slot and `[start, end]` share more than a boundary point.
    pub open spec fn overlaps_spec(self, start: Timestamp, end: Timestamp) -> bool {
        self.start.at() < end.at() && self.end.at() > start.at()
    }

    /// Half-open on both sides so a slot merely touching a boundary doesn't count.
    pub fn overlaps(&self, start: &Timestamp, end: &Timestamp) -> (r: bool)
        ensures
            r == self.overlaps_spec(*start, *end),
    {
        self.start.is_before(end) && start.is_before(&self.end)
    }

    /// The slot's symbol promises precipitation.
    pub fn is_wet(&self) -> (r: bool)
        ensures
            r == is_wet_code(self.symbol_code@),
    {
        is_wet(self.symbol_code.as_str())
    }
}

/// The summary of a forecast period: its met.no symbol code.
pub struct Summary {
    pub symbol_code: String,
}

/// A forecast period ahead of a time step.
pub struct NextPeriod {
    pub summary: Summary,
}

/// The forecast periods attached to one time step.
pub struct TimeseriesData {
    pub next_1_hours: Option<NextPeriod>,
    pub next_6_hours: Option<NextPeriod>,
}

/// One time step of the forecast.
pub struct TimeseriesEntry {
    pub time: Timestamp,
    pub data: TimeseriesData,
}

/// Seconds in one hour.
pub const HOUR_SECS: i64 = 3600;

/// Seconds in six hours.
pub const SIX_HOURS_SECS: i64 = 21_600;

impl TimeseriesData {
    /// The symbol and coverage (in seconds) of a time step: the hourly period
    /// when present, else the six-hour one.
    pub open spec fn symbol_and_coverage_spec(self) -> Option<(String, i64)> {
        match self.next_1_hours {
            Some(period) => Some((period.summary.symbol_code, HOUR_SECS)),
            None => match self.next_6_hours {
                Some(period) => Some((period.summary.symbol_code, SIX_HOURS_SECS)),
                None => None,
            },
        }
    }

    /// The forecast symbol plus how long it covers (in seconds). met.no drops from hourly to
    /// 6-hour steps a few days out, so the coverage has to travel with the code.
    pub fn symbol_and_coverage(self) -> (r: Option<(String, i64)>)
        ensures
            r == self.symbol_and_coverage_spec(),
    {
        match self.next_1_hours {
            Some(period) => Some((period.summary.symbol_code, HOUR_SECS)),
            None => match self.next_6_hours {
                Some(period) => Some((period.summary.symbol_code, SIX_HOURS_SECS)),
                None => None,
            },
        }
    }
}

/// reqwest's HTTP client, carried through untouched.
#[verifier::external_type_specification]
#[verifier::external_body]
pub struct ExHttpClient(reqwest::Client);

/// The owner of the weather rules; the HTTP side lives with the application.
pub struct WeatherClient {
    client: reqwest::Client,
}

impl WeatherClient {
    pub closed spec fn http_client(&self) -> reqwest::Client {
        self.client
    }

    pub fn new(client: reqwest::Client) -> (r: Self)
        ensures
            r.http_client() == client,
    {
        Self { client }
    }

    /// The HTTP client this weather client fetches with.
    pub fn http(&self) -> (r: &reqwest::Client)
        ensures
            *r == self.http_client(),
    {
        &self.client
    }

    /// `time` lies in the window from `start` to `end`, both ends included;
    /// a window whose end comes before its start wraps around midnight.
    pub open spec fn in_range_spec(time: WallClock, start: WallClock, end: WallClock) -> bool {
        if start.of_day() <= end.of_day() {
            start.of_day() <= time.of_day() <= end.of_day()
        } else {
            time.of_day() >= start.of_day() || time.of_day() <= end.of_day()
        }
    }

    pub fn in_range(time: WallClock, start: WallClock, end: WallClock) -> (r: bool)
        ensures
            r == Self::in_range_spec(time, start, end),
    {
        if start.not_after(&end) {
            return start.not_after(&time) && time.not_after(&end);
        }
        start.not_after(&time) || time.not_after(&end)
    }

    /// Rain in any code makes the commute rainy; otherwise it is sunny only
    /// when sunny codes outnumber cloudy ones.
    pub fn classify(symbol_codes: &[String]) -> (r: Weather)
        ensures
            r == classify_codes(code_texts(symbol_codes@)),
    {
        let ghost texts = code_texts(symbol_codes@);
        let mut i: usize = 0;
        while i < symbol_codes.len()
            invariant
                i <= symbol_codes@.len(),
                texts == code_texts(symbol_codes@),
                forall|j: int| 0 <= j < i ==> !is_wet_code(#[trigger] texts[j]),
            decreases symbol_codes@.len() - i,
        {
            if is_wet(symbol_codes[i].as_str()) {
                assert(is_wet_code(texts[i as int]));
                return Weather::Rainy;
            }
            i = i + 1;
        }
        let mut sunny: usize = 0;
        let mut cloudy: usize = 0;
        let mut k: usize = 0;
        while k < symbol_codes.len()
            invariant
                k <= symbol_codes@.len(),
                texts == code_texts(symbol_codes@),
                sunny == count_sunny(texts.take(k as int)),
                cloudy == count_cloudy(texts.take(k as int)),
                sunny <= k,
                cloudy <= k,
            decreases symbol_codes@.len() - k,
        {
            assert(texts.take(k + 1).drop_last() == texts.take(k as int));
            assert(texts.take(k + 1).last() == symbol_codes@[k as int]@);
            if is_sunny(symbol_codes[k].as_str()) {
                sunny = sunny + 1;
            }
            if is_cloudy(symbol_codes[k].as_str()) {
                cloudy = cloudy + 1;
            }
            k = k + 1;
        }
        assert(texts.take(symbol_codes@.len() as int) == texts);
        if sunny > cloudy {
            Weather::Sunny
        } else {
            Weather::Cloudy
        }
    }
}

/// The slot a time step yields, if it carries a symbol.
pub open spec fn slot_of(entry: TimeseriesEntry) -> Option<Slot> {
    match entry.data.symbol_and_coverage_spec() {
        Some((code, coverage)) => Some(
            Slot { start: entry.time, end: entry.time.shifted(coverage as int), symbol_code: code },
        ),
        None => None,
    }
}

/// A time step whose slot stays within chrono's range.
pub open spec fn entry_fits(entry: TimeseriesEntry) -> bool {
    &&& entry.time.valid()
    &&& match entry.data.symbol_and_coverage_spec() {
        Some((_, coverage)) => entry.time.can_shift(coverage as int),
        None => true,
    }
}

/// The slots of a forecast, in order, skipping steps without a symbol.
pub open spec fn forecast_slots_spec(entries: Seq<TimeseriesEntry>) -> Seq<Slot>
    decreases entries.len(),
{
    if entries.len() == 0 {
        seq![]
    } else {
        match slot_of(entries.last()) {
            Some(slot) => forecast_slots_spec(entries.drop_last()).push(slot),
            None => forecast_slots_spec(entries.drop_last()),
        }
    }
}

/// Both ends of every slot are valid instants.
pub open spec fn slots_valid(slots: Seq<Slot>) -> bool {
    forall|i: int| 0 <= i < slots.len() ==> (#[trigger] slots[i]).start.valid() && slots[i].end.valid()
}

/// Every slot ends after it starts.
pub open spec fn slots_run_forward(slots: Seq<Slot>) -> bool {
    forall|i: int| 0 <= i < slots.len() ==> (#[trigger] slots[i]).start.at() < slots[i].end.at()
}

proof fn lemma_forecast_slots_valid(entries: Seq<TimeseriesEntry>)
    requires
        forall|i: int| 0 <= i < entries.len() ==> entry_fits(#[trigger] entries[i]),
    ensures
        slots_valid(forecast_slots_spec(entries)),
        slots_run_forward(forecast_slots_spec(entries)),
    decreases entries.len(),
{
    if entries.len() > 0 {
        let prefix = entries.drop_last();
        assert forall|i: int| 0 <= i < prefix.len() implies entry_fits(#[trigger] prefix[i]) by {
            assert(prefix[i] == entries[i]);
        }
        lemma_forecast_slots_valid(prefix);
        assert(entry_fits(entries[entries.len() - 1]));
    }
}

/// Turns forecast time steps into slots: each step with a symbol becomes a slot
/// from its time to its time plus the symbol's coverage.
#[verifier::spinoff_prover]
#[verifier::rlimit(50)]
pub fn forecast_slots(entries: Vec<TimeseriesEntry>) -> (r: Vec<Slot>)
    requires
        forall|i: int| 0 <= i < entries@.len() ==> entry_fits(#[trigger] entries@[i]),
    ensures
        r@ == forecast_slots_spec(entries@),
        slots_valid(r@),
        slots_run_forward(r@),
{
    let ghost original = entries@;
    let mut entries = entries;
    let mut slots: Vec<Slot> = Vec::new();
    let ghost mut k: int = 0;
    while entries.len() > 0
        invariant
            0 <= k <= original.len(),
            entries@ == original.skip(k),
            slots@ == forecast_slots_spec(original.take(k)),
            forall|i: int| 0 <= i < original.len() ==> entry_fits(#[trigger] original[i]),
        decreases entries@.len(),
    {
        let entry = entries.remove(0);
        assert(entry == original[k]);
        assert(original.take(k + 1).drop_last() == original.take(k));
        assert(original.take(k + 1).last() == entry);
        assert(entry_fits(original[k]));
        let time = entry.time;
        match entry.data.symbol_and_coverage() {
            Some((symbol_code, coverage)) => {
                let end = time.plus_secs(coverage);
                slots.push(Slot { start: time, end, symbol_code });
            },
            None => {},
        }
        proof {
            k = k + 1;
        }
        assert(entries@ == original.skip(k));
    }
    assert(original.take(original.len() as int) == original);
    proof {
        lemma_forecast_slots_valid(original);
    }
    slots
}

/// Where a commute window starts: the first instant the Oslo reading occurs;
/// for a reading inside a daylight-saving gap, the moment the clocks jump past
/// it (either side of the jump is close enough for a commute window); and the
/// reading taken as UTC only when chrono-tz knows neither.
pub open spec fn window_start(date: CalendarDate, departure: WallClock) -> Timestamp {
    match oslo_earliest(date, departure) {
        Some(t) => t,
        None => match oslo_gap_end(date, departure) {
            Some(jump) => jump,
            None => utc_instant_spec(date, departure),
        },
    }
}

/// Whether a window of `commute_minutes` from `departure` stays within chrono's range.
pub open spec fn window_fits(date: CalendarDate, departure: WallClock, commute_minutes: i32) -> bool {
    window_start(date, departure).can_shift(commute_minutes * 60)
}

fn resolve_start(date: CalendarDate, departure: WallClock) -> (r: Timestamp)
    requires
        date.valid(),
        departure.valid(),
    ensures
        r == window_start(date, departure),
        r.valid(),
{
    match oslo_to_utc_earliest(date, departure) {
        Some(t) => t,
        None => match oslo_jump_after_gap(date, departure) {
            Some(jump) => jump,
            None => utc_instant(date, departure),
        },
    }
}

impl WeatherClient {
    /// Precise commute window on `date`: departure through departure + commute duration,
    /// no padding either side. Departures are Oslo wall-clock, resolved to real instants
    /// so they can be compared against the forecast's UTC timestamps.
    fn time_window(date: CalendarDate, departure: WallClock, commute_minutes: i32) -> (r: (Timestamp, Timestamp))
        requires
            date.valid(),
            departure.valid(),
            window_fits(date, departure, commute_minutes),
        ensures
            r.0 == window_start(date, departure),
            r.1 == window_start(date, departure).shifted(commute_minutes * 60),
            r.0.valid(),
            r.1.valid(),
    {
        let start = resolve_start(date, departure);
        let end = start.plus_secs(commute_minutes as i64 * 60);
        (start, end)
    }

    /// The commute window, or `None` when its end would leave chrono's range.
    pub fn checked_time_window(date: CalendarDate, departure: WallClock, commute_minutes: i32) -> (r: Option<(Timestamp, Timestamp)>)
        requires
            date.valid(),
            departure.valid(),
        ensures
            r == (if window_fits(date, departure, commute_minutes) {
                Some((window_start(date, departure), window_start(date, departure).shifted(commute_minutes * 60)))
            } else {
                None
            }),
    {
        let start = resolve_start(date, departure);
        let delta: i64 = commute_minutes as i64 * 60;
        if crate::clock::MIN_TIMESTAMP <= start.secs + delta && start.secs + delta <= crate::clock::MAX_TIMESTAMP {
            Some(Self::time_window(date, departure, commute_minutes))
        } else {
            None
        }
    }

    /// Oslo-local midnight to midnight, as real instants.
    pub fn day_bounds(date: CalendarDate) -> (r: (Timestamp, Timestamp))
        requires
            date.valid(),
            date.days_from_ce < MAX_DAY,
        ensures
            r.0 == window_start(date, WallClock { secs: 0, nanos: 0 }),
            r.1 == window_start(CalendarDate { days_from_ce: (date.days_from_ce + 1) as i32 }, WallClock { secs: 0, nanos: 0 }),
            r.0.valid(),
            r.1.valid(),
    {
        let start = resolve_start(date, WallClock::midnight());
        let end = resolve_start(date.next_day(), WallClock::midnight());
        (start, end)
    }
}

impl TimeseriesEntry {
    /// Whether this step's time and slot stay within chrono's range.
    pub fn fits(&self) -> (r: bool)
        ensures
            r == entry_fits(*self),
    {
        let t = self.time;
        if !(crate::clock::MIN_TIMESTAMP <= t.secs && t.secs <= crate::clock::MAX_TIMESTAMP && t.nanos < crate::clock::NANOS_PER_SEC) {
            return false;
        }
        let coverage: i64 = match &self.data.next_1_hours {
            Some(_) => HOUR_SECS,
            None => match &self.data.next_6_hours {
                Some(_) => SIX_HOURS_SECS,
                None => 0,
            },
        };
        t.secs + coverage <= crate::clock::MAX_TIMESTAMP
    }
}

/// The symbol codes of the slots that overlap `[start, end]`, in order.
pub open spec fn codes_in_window_spec(slots: Seq<Slot>, start: Timestamp, end: Timestamp) -> Seq<Seq<char>>
    decreases slots.len(),
{
    if slots.len() == 0 {
        seq![]
    } else if slots.last().overlaps_spec(start, end) {
        codes_in_window_spec(slots.drop_last(), start, end).push(slots.last().symbol_code@)
    } else {
        codes_in_window_spec(slots.drop_last(), start, end)
    }
}

/// The symbol codes of the forecast slots that overlap the window.
pub fn codes_in_window(slots: &Vec<Slot>, start: Timestamp, end: Timestamp) -> (r: Vec<String>)
    ensures
        code_texts(r@) == codes_in_window_spec(slots@, start, end),
{
    let mut codes: Vec<String> = Vec::new();
    let mut i: usize = 0;
    while i < slots.len()
        invariant
            i <= slots@.len(),
            code_texts(codes@) == codes_in_window_spec(slots@.take(i as int), start, end),
        decreases slots@.len() - i,
    {
        assert(slots@.take(i + 1).drop_last() == slots@.take(i as int));
        assert(slots@.take(i + 1).last() == slots@[i as int]);
        if slots[i].overlaps(&start, &end) {
            let code = slots[i].symbol_code.clone();
            codes.push(code);
            assert(code_texts(codes@) =~= codes_in_window_spec(slots@.take(i as int), start, end).push(code@));
        }
        i = i + 1;
    }
    assert(slots@.take(slots@.len() as int) == slots@);
    codes
}

/// The codes a commute looks at: for the home departure window, then the work
/// departure window, the home forecast's codes followed by the work forecast's.
pub open spec fn commute_codes(
    date: CalendarDate,
    home_time: WallClock,
    work_time: WallClock,
    commute_minutes: i32,
    home_slots: Seq<Slot>,
    work_slots: Seq<Slot>,
) -> Seq<Seq<char>> {
    let h0 = window_start(date, home_time);
    let h1 = h0.shifted(commute_minutes * 60);
    let w0 = window_start(date, work_time);
    let w1 = w0.shifted(commute_minutes * 60);
    codes_in_window_spec(home_slots, h0, h1) + codes_in_window_spec(work_slots, h0, h1)
        + codes_in_window_spec(home_slots, w0, w1) + codes_in_window_spec(work_slots, w0, w1)
}

impl WeatherClient {
    /// Checks weather across both commute legs (home->work and work->home) on `date`,
    /// covering both the departure and arrival locations over each precise
    /// departure -> departure+commute window. `None` when a window would leave
    /// chrono's range.
    pub fn commute_weather(
        date: CalendarDate,
        home_time: WallClock,
        work_time: WallClock,
        commute_minutes: i32,
        home_slots: &Vec<Slot>,
        work_slots: &Vec<Slot>,
    ) -> (r: Option<Weather>)
        requires
            date.valid(),
            home_time.valid(),
            work_time.valid(),
        ensures
            r == (if window_fits(date, home_time, commute_minutes) && window_fits(date, work_time, commute_minutes) {
                Some(classify_codes(commute_codes(date, home_time, work_time, commute_minutes, home_slots@, work_slots@)))
            } else {
                None
            }),
    {
        let home_window = match Self::checked_time_window(date, home_time, commute_minutes) {
            Some(w) => w,
            None => return None,
        };
        let work_window = match Self::checked_time_window(date, work_time, commute_minutes) {
            Some(w) => w,
            None => return None,
        };
        let mut codes = codes_in_window(home_slots, home_window.0, home_window.1);
        let mut more = codes_in_window(work_slots, home_window.0, home_window.1);
        codes.append(&mut more);
        let mut more = codes_in_window(home_slots, work_window.0, work_window.1);
        codes.append(&mut more);
        let mut more = codes_in_window(work_slots, work_window.0, work_window.1);
        codes.append(&mut more);
        assert(code_texts(codes@) =~= commute_codes(date, home_time, work_time, commute_minutes, home_slots@, work_slots@));
        Some(Self::classify(codes.as_slice()))
    }
}

/// A dry spell this short (in seconds) between two showers isn't worth its own row — met.no is
/// hourly, so this is what collapses "shower, dry hour, shower" into one stretch.
pub const GAP_TOLERANCE: i64 = 3600;

/// Past this many rows the screen stops being glanceable, so the narrowest gaps
/// get closed until the list fits — better to overstate a little rain than to
/// hand someone a timetable.
pub const MAX_INTERVALS: usize = 4;

/// A stretch of the day worth carrying a jacket for, in Oslo wall-clock.
#[derive(Clone, Copy, Debug, PartialEq, Eq, Structural)]
pub struct JacketInterval {
    pub from: WallClock,
    pub to: WallClock,
}

/// The character of a decimal digit.
pub open spec fn digit_char(d: int) -> char {
    if d == 0 { '0' } else if d == 1 { '1' } else if d == 2 { '2' } else if d == 3 { '3' }
    else if d == 4 { '4' } else if d == 5 { '5' } else if d == 6 { '6' } else if d == 7 { '7' }
    else if d == 8 { '8' } else { '9' }
}

/// A time of day as `HH:MM`, both zero-padded to two digits.
pub open spec fn hhmm_spec(time: WallClock) -> Seq<char> {
    let hour = time.secs as int / 3600;
    let minute = (time.secs as int % 3600) / 60;
    seq![digit_char(hour / 10), digit_char(hour % 10), ':', digit_char(minute / 10), digit_char(minute % 10)]
}

fn digit(d: u32) -> (r: &'static str)
    requires
        d < 10,
    ensures
        r@ == seq![digit_char(d as int)],
{
    proof {
        reveal_strlit("0");
        reveal_strlit("1");
        reveal_strlit("2");
        reveal_strlit("3");
        reveal_strlit("4");
        reveal_strlit("5");
        reveal_strlit("6");
        reveal_strlit("7");
        reveal_strlit("8");
        reveal_strlit("9");
    }
    match d {
        0 => "0",
        1 => "1",
        2 => "2",
        3 => "3",
        4 => "4",
        5 => "5",
        6 => "6",
        7 => "7",
        8 => "8",
        _ => "9",
    }
}

/// Formats a time of day as `HH:MM`, as chrono's `%H:%M` does.
pub fn hhmm(time: &WallClock) -> (r: String)
    requires
        time.valid(),
    ensures
        r@ == hhmm_spec(*time),
{
    let hour = time.secs / 3600;
    let minute = (time.secs % 3600) / 60;
    proof {
        reveal_strlit(":");
    }
    let mut text = String::from_str(digit(hour / 10));
    text.append(digit(hour % 10));
    text.append(":");
    text.append(digit(minute / 10));
    text.append(digit(minute % 10));
    assert(text@ =~= hhmm_spec(*time));
    text
}

/// The wet slots that overlap `[day_start, day_end]`, in order.
pub open spec fn wet_in_day(slots: Seq<Slot>, day_start: Timestamp, day_end: Timestamp) -> Seq<Slot>
    decreases slots.len(),
{
    if slots.len() == 0 {
        seq![]
    } else if is_wet_code(slots.last().symbol_code@) && slots.last().overlaps_spec(day_start, day_end) {
        wet_in_day(slots.drop_last(), day_start, day_end).push(slots.last())
    } else {
        wet_in_day(slots.drop_last(), day_start, day_end)
    }
}

/// Oslo midnight at the start of `date`.
pub open spec fn day_start(date: CalendarDate) -> Timestamp {
    window_start(date, WallClock { secs: 0, nanos: 0 })
}

/// Oslo midnight at the end of `date`.
pub open spec fn day_end(date: CalendarDate) -> Timestamp {
    window_start(CalendarDate { days_from_ce: (date.days_from_ce + 1) as i32 }, WallClock { secs: 0, nanos: 0 })
}

/// The wet stretches of `date`: wet slots clamped to the day and joined where they
/// touch, dry gaps up to `GAP_TOLERANCE` closed, then capped at `MAX_INTERVALS`.
pub open spec fn jacket_spans(slots: Seq<Slot>, date: CalendarDate) -> Seq<Span> {
    let wet = wet_in_day(slots, day_start(date), day_end(date));
    let touching = joined(clamp_all(wet, day_start(date), day_end(date)), 0);
    capped(joined(touching, GAP_TOLERANCE * NANOS_PER_SEC), MAX_INTERVALS as int)
}

/// Every span begins and ends at a valid instant.
pub open spec fn spans_valid(spans: Seq<Span>) -> bool {
    forall|j: int| 0 <= j < spans.len() ==> (#[trigger] spans[j]).from.valid() && spans[j].to.valid()
}

proof fn lemma_endpoints_keep_validity(input: Seq<Span>, output: Seq<Span>)
    requires
        spans_valid(input),
        forall|j: int| 0 <= j < output.len() ==> is_some_start(input, #[trigger] output[j].from),
        forall|j: int| 0 <= j < output.len() ==> is_some_end(input, #[trigger] output[j].to),
    ensures
        spans_valid(output),
{
    assert forall|j: int| 0 <= j < output.len() implies (#[trigger] output[j]).from.valid() && output[j].to.valid() by {
        assert(is_some_start(input, output[j].from));
        assert(is_some_end(input, output[j].to));
        let a = choose|k: int| 0 <= k < input.len() && input[k].from == output[j].from;
        let b = choose|k: int| 0 <= k < input.len() && input[k].to == output[j].to;
        assert(input[a].from.valid());
        assert(input[b].to.valid());
    }
}

proof fn lemma_wet_in_day_subset(slots: Seq<Slot>, day_start: Timestamp, day_end: Timestamp)
    ensures
        forall|i: int| 0 <= i < wet_in_day(slots, day_start, day_end).len()
            ==> slots.contains(#[trigger] wet_in_day(slots, day_start, day_end)[i]),
    decreases slots.len(),
{
    if slots.len() > 0 {
        let prefix = slots.drop_last();
        lemma_wet_in_day_subset(prefix, day_start, day_end);
        let w = wet_in_day(slots, day_start, day_end);
        assert forall|i: int| 0 <= i < w.len() implies slots.contains(#[trigger] w[i]) by {
            let wp = wet_in_day(prefix, day_start, day_end);
            if i < wp.len() {
                assert(prefix.contains(wp[i]));
                let k = choose|k: int| 0 <= k < prefix.len() && prefix[k] == wp[i];
                assert(slots[k] == prefix[k]);
            } else {
                assert(slots[slots.len() - 1] == w[i]);
            }
        }
    }
}

/// The jacket view of any forecast fits the screen, and its rows are separated
/// by dry gaps longer than `GAP_TOLERANCE`.
pub proof fn lemma_jacket_spans_glanceable(slots: Seq<Slot>, date: CalendarDate)
    ensures
        jacket_spans(slots, date).len() <= MAX_INTERVALS,
        separated_by_more_than(jacket_spans(slots, date), GAP_TOLERANCE * NANOS_PER_SEC),
{
    let wet = wet_in_day(slots, day_start(date), day_end(date));
    let touching = joined(clamp_all(wet, day_start(date), day_end(date)), 0);
    let bridged = joined(touching, GAP_TOLERANCE * NANOS_PER_SEC);
    lemma_joined_separated(touching, GAP_TOLERANCE * NANOS_PER_SEC);
    lemma_capped_keeps_separation(bridged, GAP_TOLERANCE * NANOS_PER_SEC, MAX_INTERVALS as int);
    lemma_capped_shape(bridged, MAX_INTERVALS as int);
}

impl WeatherClient {
    /// Off-day view: the stretches of `date` you'd want a jacket for, at a single
    /// location. Not a general forecast — only wet intervals, merged so an
    /// all-morning drizzle reads as one row rather than six.
    #[verifier::spinoff_prover]
    #[verifier::rlimit(50)]
    pub fn jacket_intervals_from_forecast(date: CalendarDate, slots: Vec<Slot>) -> (r: Vec<JacketInterval>)
        requires
            date.valid(),
            date.days_from_ce < MAX_DAY,
            slots_valid(slots@),
        ensures
            r@.len() == jacket_spans(slots@, date).len(),
            r@.len() <= MAX_INTERVALS,
            forall|i: int| 0 <= i < r@.len() ==> #[trigger] r@[i] == (JacketInterval {
                from: oslo_clock(jacket_spans(slots@, date)[i].from),
                to: oslo_clock(jacket_spans(slots@, date)[i].to),
            }),
    {
        let (day_start, day_end) = Self::day_bounds(date);
        let ghost all = slots@;
        let mut wet: Vec<Slot> = Vec::new();
        let mut slots = slots;
        let ghost mut k: int = 0;
        while slots.len() > 0
            invariant
                0 <= k <= all.len(),
                slots@ == all.skip(k),
                wet@ == wet_in_day(all.take(k), day_start, day_end),
            decreases slots@.len(),
        {
            let slot = slots.remove(0);
            assert(slot == all[k]);
            assert(all.take(k + 1).drop_last() == all.take(k));
            assert(all.take(k + 1).last() == slot);
            if slot.is_wet() && slot.overlaps(&day_start, &day_end) {
                wet.push(slot);
            }
            proof {
                k = k + 1;
            }
            assert(slots@ == all.skip(k));
        }
        assert(all.take(all.len() as int) == all);
        let ghost wet_view = wet@;
        let ghost clamped = clamp_all(wet_view, day_start, day_end);
        let touching = to_spans(wet, day_start, day_end);
        let bridged = bridge(touching, GAP_TOLERANCE);
        let spans = cap(bridged, MAX_INTERVALS);
        proof {
            lemma_wet_in_day_subset(all, day_start, day_end);
            assert(spans_valid(clamped)) by {
                assert forall|j: int| 0 <= j < clamped.len() implies (#[trigger] clamped[j]).from.valid() && clamped[j].to.valid() by {
                    assert(all.contains(wet_view[j]));
                    let m = choose|m: int| 0 <= m < all.len() && all[m] == wet_view[j];
                    assert(all[m].start.valid() && all[m].end.valid());
                }
            }
            lemma_joined_starts(clamped, 0);
            lemma_joined_ends(clamped, 0);
            lemma_endpoints_keep_validity(clamped, touching@);
            lemma_endpoints_keep_validity(touching@, bridged@);
            lemma_endpoints_keep_validity(bridged@, spans@);
        }
        let mut intervals: Vec<JacketInterval> = Vec::new();
        let mut i: usize = 0;
        while i < spans.len()
            invariant
                i <= spans@.len(),
                spans_valid(spans@),
                intervals@.len() == i,
                forall|j: int| 0 <= j < i ==> #[trigger] intervals@[j] == (JacketInterval {
                    from: oslo_clock(spans@[j].from),
                    to: oslo_clock(spans@[j].to),
                }),
            decreases spans@.len() - i,
        {
            let span = spans[i];
            assert(spans@[i as int].from.valid() && spans@[i as int].to.valid());
            let from = oslo_time_of_day(span.from);
            let to = oslo_time_of_day(span.to);
            intervals.push(JacketInterval { from, to });
            i = i + 1;
        }
        intervals
    }
}

/// Slots start in non-decreasing order.
pub open spec fn slots_sorted(slots: Seq<Slot>) -> bool {
    forall|i: int, j: int| 0 <= i < j < slots.len() ==> slots[i].start.at() <= slots[j].start.at()
}

/// A slot the jacket view must show: wet, and overlapping the day.
pub open spec fn shows_in_day(slot: Slot, day_start: Timestamp, day_end: Timestamp) -> bool {
    is_wet_code(slot.symbol_code@) && slot.overlaps_spec(day_start, day_end)
}

#[verifier::spinoff_prover]
#[verifier::rlimit(50)]
proof fn lemma_wet_in_day_order(slots: Seq<Slot>, day_start: Timestamp, day_end: Timestamp)
    requires
        slots_sorted(slots),
    ensures
        slots_sorted(wet_in_day(slots, day_start, day_end)),
        forall|i: int| 0 <= i < wet_in_day(slots, day_start, day_end).len()
            ==> shows_in_day(#[trigger] wet_in_day(slots, day_start, day_end)[i], day_start, day_end),
        forall|k: int| 0 <= k < slots.len() && shows_in_day(#[trigger] slots[k], day_start, day_end)
            ==> wet_in_day(slots, day_start, day_end).contains(slots[k]),
    decreases slots.len(),
{
    if slots.len() > 0 {
        let prefix = slots.drop_last();
        let last = slots.last();
        assert(slots_sorted(prefix));
        lemma_wet_in_day_order(prefix, day_start, day_end);
        lemma_wet_in_day_subset(prefix, day_start, day_end);
        let wp = wet_in_day(prefix, day_start, day_end);
        let w = wet_in_day(slots, day_start, day_end);
        if shows_in_day(last, day_start, day_end) {
            assert(w == wp.push(last));
            assert forall|i: int, j: int| 0 <= i < j < w.len() implies w[i].start.at() <= w[j].start.at() by {
                if j == w.len() - 1 {
                    assert(prefix.contains(wp[i]));
                    let m = choose|m: int| 0 <= m < prefix.len() && prefix[m] == wp[i];
                    assert(slots[m] == prefix[m]);
                    assert(slots[slots.len() - 1] == last);
                }
            }
        }
        assert forall|k: int| 0 <= k < slots.len() && shows_in_day(#[trigger] slots[k], day_start, day_end)
            implies w.contains(slots[k]) by {
            if k < prefix.len() {
                assert(prefix[k] == slots[k]);
                assert(wp.contains(prefix[k]));
                let i = choose|i: int| 0 <= i < wp.len() && wp[i] == prefix[k];
                assert(w[i] == wp[i]);
            } else {
                assert(w[w.len() - 1] == slots[k]);
            }
        }
    }
}

/// Every wet slot that overlaps the day lies, clamped to the day, within one of the
/// day's jacket rows: nothing wet is left out. This holds for a forecast in time order
/// whose slots run forward, on a day whose Oslo midnight comes before the next one.
#[verifier::spinoff_prover]
#[verifier::rlimit(50)]
pub proof fn lemma_jacket_spans_cover_rain(slots: Seq<Slot>, date: CalendarDate)
    requires
        slots_sorted(slots),
        slots_run_forward(slots),
        day_start(date).at() < day_end(date).at(),
    ensures
        forall|k: int| 0 <= k < slots.len() && shows_in_day(#[trigger] slots[k], day_start(date), day_end(date))
            ==> covered_by(jacket_spans(slots, date), clamped(slots[k], day_start(date), day_end(date))),
{
    let ds = day_start(date);
    let de = day_end(date);
    let wet = wet_in_day(slots, ds, de);
    let clamped_wet = clamp_all(wet, ds, de);
    let slack = GAP_TOLERANCE * NANOS_PER_SEC;
    let touching = joined(clamped_wet, 0);
    let bridged = joined(touching, slack);
    let rows = capped(bridged, MAX_INTERVALS as int);
    lemma_wet_in_day_order(slots, ds, de);
    lemma_wet_in_day_subset(slots, ds, de);
    assert(sorted_by_start(clamped_wet)) by {
        assert forall|i: int, j: int| 0 <= i < j < clamped_wet.len() implies clamped_wet[i].from.at() <= clamped_wet[j].from.at() by {
            assert(wet[i].start.at() <= wet[j].start.at());
        }
    }
    assert(forward(clamped_wet)) by {
        assert forall|j: int| 0 <= j < clamped_wet.len() implies (#[trigger] clamped_wet[j]).from.at() <= clamped_wet[j].to.at() by {
            assert(shows_in_day(wet[j], ds, de));
            assert(slots.contains(wet[j]));
            let m = choose|m: int| 0 <= m < slots.len() && slots[m] == wet[j];
            assert(slots[m].start.at() < slots[m].end.at());
        }
    }
    lemma_joined_covers(clamped_wet, 0);
    lemma_joined_order(clamped_wet, 0);
    lemma_joined_covers(touching, slack);
    lemma_joined_order(touching, slack);
    lemma_joined_separated(touching, slack);
    lemma_capped_covers(bridged, MAX_INTERVALS as int);
    assert(all_covered_by(touching, clamped_wet));
    assert(all_covered_by(bridged, touching));
    lemma_covered_transitive(clamped_wet, touching, bridged);
    lemma_covered_transitive(clamped_wet, bridged, rows);
    assert forall|k: int| 0 <= k < slots.len() && shows_in_day(#[trigger] slots[k], ds, de)
        implies covered_by(rows, clamped(slots[k], ds, de)) by {
        assert(wet.contains(slots[k]));
        let i = choose|i: int| 0 <= i < wet.len() && wet[i] == slots[k];
        assert(clamped_wet[i] == clamped(slots[k], ds, de));
        assert(covered_by(rows, clamped_wet[i]));
    }
}

/// Every jacket row starts where some wet slot of the day starts (clamped to the
/// day) and ends where some wet slot of the day ends: the view shows only rain.
#[verifier::spinoff_prover]
#[verifier::rlimit(50)]
pub proof fn lemma_jacket_rows_come_from_rain(slots: Seq<Slot>, date: CalendarDate)
    ensures
        forall|j: int| 0 <= j < jacket_spans(slots, date).len() ==> exists|k: int|
            0 <= k < slots.len() && shows_in_day(slots[k], day_start(date), day_end(date))
                && #[trigger] jacket_spans(slots, date)[j].from == clamped(slots[k], day_start(date), day_end(date)).from,
        forall|j: int| 0 <= j < jacket_spans(slots, date).len() ==> exists|k: int|
            0 <= k < slots.len() && shows_in_day(slots[k], day_start(date), day_end(date))
                && #[trigger] jacket_spans(slots, date)[j].to == clamped(slots[k], day_start(date), day_end(date)).to,
{
    let ds = day_start(date);
    let de = day_end(date);
    let wet = wet_in_day(slots, ds, de);
    let clamped_wet = clamp_all(wet, ds, de);
    let slack = GAP_TOLERANCE * NANOS_PER_SEC;
    let touching = joined(clamped_wet, 0);
    let bridged = joined(touching, slack);
    let rows = capped(bridged, MAX_INTERVALS as int);
    lemma_wet_in_day_shows(slots, ds, de);
    lemma_wet_in_day_subset(slots, ds, de);
    lemma_joined_starts(clamped_wet, 0);
    lemma_joined_ends(clamped_wet, 0);
    lemma_joined_starts(touching, slack);
    lemma_joined_ends(touching, slack);
    lemma_capped_shape(bridged, MAX_INTERVALS as int);
    assert forall|j: int| 0 <= j < rows.len() implies exists|k: int|
        0 <= k < slots.len() && shows_in_day(slots[k], ds, de) && #[trigger] rows[j].from == clamped(slots[k], ds, de).from by {
        assert(is_some_start(bridged, rows[j].from));
        let a = choose|a: int| 0 <= a < bridged.len() && bridged[a].from == rows[j].from;
        assert(is_some_start(touching, bridged[a].from));
        let b = choose|b: int| 0 <= b < touching.len() && touching[b].from == bridged[a].from;
        assert(is_some_start(clamped_wet, touching[b].from));
        let c = choose|c: int| 0 <= c < clamped_wet.len() && clamped_wet[c].from == touching[b].from;
        assert(slots.contains(wet[c]));
        let k = choose|k: int| 0 <= k < slots.len() && slots[k] == wet[c];
        assert(shows_in_day(wet[c], ds, de));
    }
    assert forall|j: int| 0 <= j < rows.len() implies exists|k: int|
        0 <= k < slots.len() && shows_in_day(slots[k], ds, de) && #[trigger] rows[j].to == clamped(slots[k], ds, de).to by {
        assert(is_some_end(bridged, rows[j].to));
        let a = choose|a: int| 0 <= a < bridged.len() && bridged[a].to == rows[j].to;
        assert(is_some_end(touching, bridged[a].to));
        let b = choose|b: int| 0 <= b < touching.len() && touching[b].to == bridged[a].to;
        assert(is_some_end(clamped_wet, touching[b].to));
        let c = choose|c: int| 0 <= c < clamped_wet.len() && clamped_wet[c].to == touching[b].to;
        assert(slots.contains(wet[c]));
        let k = choose|k: int| 0 <= k < slots.len() && slots[k] == wet[c];
        assert(shows_in_day(wet[c], ds, de));
    }
}

proof fn lemma_wet_in_day_shows(slots: Seq<Slot>, day_start: Timestamp, day_end: Timestamp)
    ensures
        forall|i: int| 0 <= i < wet_in_day(slots, day_start, day_end).len()
            ==> shows_in_day(#[trigger] wet_in_day(slots, day_start, day_end)[i], day_start, day_end),
    decreases slots.len(),
{
    if slots.len() > 0 {
        let prefix = slots.drop_last();
        lemma_wet_in_day_shows(prefix, day_start, day_end);
        let wp = wet_in_day(prefix, day_start, day_end);
        let w = wet_in_day(slots, day_start, day_end);
        assert forall|i: int| 0 <= i < w.len() implies shows_in_day(#[trigger] w[i], day_start, day_end) by {
            if i < wp.len() {
                assert(w[i] == wp[i]);
            }
        }
    }
}

/// Some wet slot overlaps the window.
pub open spec fn rain_in_window(slots: Seq<Slot>, start: Timestamp, end: Timestamp) -> bool {
    exists|k: int| 0 <= k < slots.len() && (#[trigger] slots[k]).overlaps_spec(start, end) && is_wet_code(slots[k].symbol_code@)
}

#[verifier::spinoff_prover]
#[verifier::rlimit(50)]
proof fn lemma_window_codes_wet(slots: Seq<Slot>, start: Timestamp, end: Timestamp)
    ensures
        any_wet(codes_in_window_spec(slots, start, end)) == rain_in_window(slots, start, end),
    decreases slots.len(),
{
    if slots.len() > 0 {
        let prefix = slots.drop_last();
        let last = slots.last();
        lemma_window_codes_wet(prefix, start, end);
        let cp = codes_in_window_spec(prefix, start, end);
        let c = codes_in_window_spec(slots, start, end);
        if rain_in_window(slots, start, end) {
            let k = choose|k: int| 0 <= k < slots.len() && (#[trigger] slots[k]).overlaps_spec(start, end) && is_wet_code(slots[k].symbol_code@);
            if k < prefix.len() {
                assert(prefix[k] == slots[k]);
                assert(rain_in_window(prefix, start, end));
                let i = choose|i: int| 0 <= i < cp.len() && is_wet_code(#[trigger] cp[i]);
                assert(c[i] == cp[i]);
            } else {
                assert(c[c.len() - 1] == last.symbol_code@);
            }
        }
        if any_wet(c) {
            let i = choose|i: int| 0 <= i < c.len() && is_wet_code(#[trigger] c[i]);
            if i < cp.len() {
                assert(c[i] == cp[i]);
                assert(any_wet(cp));
                let k = choose|k: int| 0 <= k < prefix.len() && (#[trigger] prefix[k]).overlaps_spec(start, end) && is_wet_code(prefix[k].symbol_code@);
                assert(slots[k] == prefix[k]);
            } else {
                assert(slots[slots.len() - 1] == last);
            }
        }
    }
}

proof fn lemma_any_wet_concat(a: Seq<Seq<char>>, b: Seq<Seq<char>>)
    ensures
        any_wet(a + b) == (any_wet(a) || any_wet(b)),
{
    if any_wet(a) {
        let i = choose|i: int| 0 <= i < a.len() && is_wet_code(#[trigger] a[i]);
        assert((a + b)[i] == a[i]);
    }
    if any_wet(b) {
        let i = choose|i: int| 0 <= i < b.len() && is_wet_code(#[trigger] b[i]);
        assert((a + b)[a.len() + i] == b[i]);
    }
    if any_wet(a + b) {
        let i = choose|i: int| 0 <= i < (a + b).len() && is_wet_code(#[trigger] (a + b)[i]);
        if i < a.len() {
            assert((a + b)[i] == a[i]);
        } else {
            assert((a + b)[i] == b[i - a.len()]);
        }
    }
}

/// The commute is rainy exactly when a wet forecast slot, at home or at work,
/// overlaps the home departure's window or the work departure's window.
pub proof fn lemma_commute_rainy_iff_rain_on_the_way(
    date: CalendarDate,
    home_time: WallClock,
    work_time: WallClock,
    commute_minutes: i32,
    home_slots: Seq<Slot>,
    work_slots: Seq<Slot>,
)
    ensures
        (classify_codes(commute_codes(date, home_time, work_time, commute_minutes, home_slots, work_slots)) == Weather::Rainy) == {
            let h0 = window_start(date, home_time);
            let h1 = h0.shifted(commute_minutes * 60);
            let w0 = window_start(date, work_time);
            let w1 = w0.shifted(commute_minutes * 60);
            rain_in_window(home_slots, h0, h1) || rain_in_window(work_slots, h0, h1)
                || rain_in_window(home_slots, w0, w1) || rain_in_window(work_slots, w0, w1)
        },
{
    let h0 = window_start(date, home_time);
    let h1 = h0.shifted(commute_minutes * 60);
    let w0 = window_start(date, work_time);
    let w1 = w0.shifted(commute_minutes * 60);
    let a = codes_in_window_spec(home_slots, h0, h1);
    let b = codes_in_window_spec(work_slots, h0, h1);
    let c = codes_in_window_spec(home_slots, w0, w1);
    let d = codes_in_window_spec(work_slots, w0, w1);
    lemma_window_codes_wet(home_slots, h0, h1);
    lemma_window_codes_wet(work_slots, h0, h1);
    lemma_window_codes_wet(home_slots, w0, w1);
    lemma_window_codes_wet(work_slots, w0, w1);
    lemma_any_wet_concat(a, b);
    lemma_any_wet_concat(a + b, c);
    lemma_any_wet_concat(a + b + c, d);
    assert(commute_codes(date, home_time, work_time, commute_minutes, home_slots, work_slots) == a + b + c + d);
}

/// A time step's symbol and coverage: the hourly period's symbol and one hour
/// when it has an hourly period; the six-hour one's and six hours only without.
pub proof fn lemma_hourly_symbol_first(data: TimeseriesData)
    ensures
        data.next_1_hours matches Some(p) ==> data.symbol_and_coverage_spec() == Some((p.summary.symbol_code, 3600i64)),
        data.next_1_hours is None ==> (data.next_6_hours matches Some(p)
            ==> data.symbol_and_coverage_spec() == Some((p.summary.symbol_code, 21_600i64))),
        data.next_1_hours is None && data.next_6_hours is None ==> data.symbol_and_coverage_spec() is None,
{
}

/// The forecast's slots are one per time step that carries a symbol, in order,
/// each from the step's time over its coverage with the step's symbol.
pub proof fn lemma_one_slot_per_step(entries: Seq<TimeseriesEntry>)
    ensures
        forecast_slots_spec(entries) == entries.filter_map(|e: TimeseriesEntry| match e.data.next_1_hours {
            Some(p) => Some(Slot { start: e.time, end: e.time.shifted(3600), symbol_code: p.summary.symbol_code }),
            None => match e.data.next_6_hours {
                Some(p) => Some(Slot { start: e.time, end: e.time.shifted(21_600), symbol_code: p.summary.symbol_code }),
                None => None,
            },
        }),
    decreases entries.len(),
{
    if entries.len() > 0 {
        lemma_one_slot_per_step(entries.drop_last());
        let f = |e: TimeseriesEntry| match e.data.next_1_hours {
            Some(p) => Some(Slot { start: e.time, end: e.time.shifted(3600), symbol_code: p.summary.symbol_code }),
            None => match e.data.next_6_hours {
                Some(p) => Some(Slot { start: e.time, end: e.time.shifted(21_600), symbol_code: p.summary.symbol_code }),
                None => None,
            },
        };
        let rest = entries.drop_last().filter_map(f);
        match f(entries.last()) {
            Some(slot) => {
                assert(rest.push(slot) =~= rest + seq![slot]);
            },
            None => {},
        }
    }
}

/// The codes taken for a window are exactly the symbol codes of the slots that
/// overlap it (start before the window's end, end after its start), in order.
pub proof fn lemma_window_codes_are_overlapping_slots(slots: Seq<Slot>, start: Timestamp, end: Timestamp)
    ensures
        codes_in_window_spec(slots, start, end) == slots.filter_map(|sl: Slot|
            if sl.start.at() < end.at() && sl.end.at() > start.at() { Some(sl.symbol_code@) } else { None }),
    decreases slots.len(),
{
    if slots.len() > 0 {
        lemma_window_codes_are_overlapping_slots(slots.drop_last(), start, end);
        let rest = slots.drop_last().filter_map(|sl: Slot|
            if sl.start.at() < end.at() && sl.end.at() > start.at() { Some(sl.symbol_code@) } else { None });
        let code = slots.last().symbol_code@;
        assert(rest.push(code) =~= rest + seq![code]);
    }
}

/// The window from `start` to `end` holds both ends; when the end comes before
/// the start it wraps around midnight and holds everything outside the open
/// stretch from `end` to `start`.
pub proof fn lemma_in_range_window(time: WallClock, start: WallClock, end: WallClock)
    ensures
        start.of_day() <= end.of_day() ==> WeatherClient::in_range_spec(time, start, end)
            == (start.of_day() <= time.of_day() && time.of_day() <= end.of_day()),
        end.of_day() < start.of_day() ==> WeatherClient::in_range_spec(time, start, end)
            == !(end.of_day() < time.of_day() && time.of_day() < start.of_day()),
        WeatherClient::in_range_spec(start, start, end),
        WeatherClient::in_range_spec(end, start, end),
{
}

} // verus!
