//! Plain-value models of calendar dates, wall-clock times and instants,
//! and the conversions between them that need the Oslo time zone.
use vstd::prelude::*;
use chrono::Datelike;
use chrono::Timelike;

verus! {

/// Day number (counted from the common era) of 1 January 1970.
pub const UNIX_EPOCH_DAY: i64 = 719_163;

/// Seconds in a civil day.
pub const SECS_PER_DAY: u32 = 86_400;

/// Nanoseconds in a second.
pub const NANOS_PER_SEC: u32 = 1_000_000_000;

/// Earliest day number chrono can represent (1 January, year -262143).
pub const MIN_DAY: i32 = -95_746_129;

/// Latest day number chrono can represent (31 December, year 262142).
pub const MAX_DAY: i32 = 95_745_399;

/// Earliest representable instant, in seconds since the Unix epoch.
pub const MIN_TIMESTAMP: i64 = -8_334_601_228_800;

/// Latest representable instant, in whole seconds since the Unix epoch.
pub const MAX_TIMESTAMP: i64 = 8_210_266_876_799;

/// A calendar date, as its day number from the common era
/// (1 January of year 1 is day 1).
#[derive(Clone, Copy, Debug, PartialEq, Eq, Structural)]
pub struct CalendarDate {
    pub days_from_ce: i32,
}

impl CalendarDate {
    pub open spec fn valid(self) -> bool {
        MIN_DAY <= self.days_from_ce <= MAX_DAY
    }

    /// The date with the given day number, if it lies in the supported range.
    pub fn from_days_from_ce(days_from_ce: i32) -> (r: Option<CalendarDate>)
        ensures
            r == (if MIN_DAY <= days_from_ce <= MAX_DAY {
                Some(CalendarDate { days_from_ce })
            } else {
                None
            }),
    {
        if MIN_DAY <= days_from_ce && days_from_ce <= MAX_DAY {
            Some(CalendarDate { days_from_ce })
        } else {
            None
        }
    }

    /// The following day.
    pub fn next_day(self) -> (r: CalendarDate)
        requires
            self.valid(),
            self.days_from_ce < MAX_DAY,
        ensures
            r.valid(),
            r.days_from_ce == self.days_from_ce + 1,
    {
        CalendarDate { days_from_ce: self.days_from_ce + 1 }
    }
}

/// A time of day (no leap seconds), as whole seconds since midnight and
/// the nanoseconds past that second.
#[derive(Clone, Copy, Debug, PartialEq, Eq, Structural)]
pub struct WallClock {
    pub secs: u32,
    pub nanos: u32,
}

impl WallClock {
    pub open spec fn valid(self) -> bool {
        self.secs < SECS_PER_DAY && self.nanos < NANOS_PER_SEC
    }

    /// Position within the day in nanoseconds; the order of times of day.
    pub open spec fn of_day(self) -> int {
        self.secs * NANOS_PER_SEC + self.nanos
    }

    /// Midnight, the start of the day.
    pub fn midnight() -> (r: WallClock)
        ensures
            r.valid(),
            r.secs == 0,
            r.nanos == 0,
    {
        WallClock { secs: 0, nanos: 0 }
    }

    /// The time of day `secs` seconds and `nanos` nanoseconds past midnight, if valid.
    pub fn from_secs_nanos(secs: u32, nanos: u32) -> (r: Option<WallClock>)
        ensures
            r == (if secs < SECS_PER_DAY && nanos < NANOS_PER_SEC {
                Some(WallClock { secs, nanos })
            } else {
                None
            }),
    {
        if secs < SECS_PER_DAY && nanos < NANOS_PER_SEC {
            Some(WallClock { secs, nanos })
        } else {
            None
        }
    }

    /// The sub-second part with a leap second (chrono's nanoseconds of one
    /// second and above) read as the last nanosecond of the second it extends.
    pub open spec fn leap_clamped(nanos: u32) -> u32 {
        if nanos < NANOS_PER_SEC { nanos } else { (NANOS_PER_SEC - 1) as u32 }
    }

    /// The time of day `secs` seconds past midnight and `nanos` nanoseconds past
    /// that, with a leap second clamped to the end of its second; `None` when
    /// `secs` is not within a day.
    pub fn from_secs_nanos_clamped(secs: u32, nanos: u32) -> (r: Option<WallClock>)
        ensures
            r == (if secs < SECS_PER_DAY {
                Some(WallClock { secs, nanos: WallClock::leap_clamped(nanos) })
            } else {
                None
            }),
            r matches Some(t) ==> t.valid(),
    {
        if secs >= SECS_PER_DAY {
            return None;
        }
        let nanos = if nanos < NANOS_PER_SEC { nanos } else { NANOS_PER_SEC - 1 };
        Some(WallClock { secs, nanos })
    }

    /// `self <= other` in the order of the day.
    pub fn not_after(&self, other: &WallClock) -> (r: bool)
        ensures
            r == (self.of_day() <= other.of_day()),
    {
        let a: u64 = self.secs as u64 * 1_000_000_000u64 + self.nanos as u64;
        let b: u64 = other.secs as u64 * 1_000_000_000u64 + other.nanos as u64;
        a <= b
    }

    /// This time of day shifted by `delta` seconds, wrapping around midnight.
    pub fn wrapping_add_secs(&self, delta: i64) -> (r: WallClock)
        requires
            self.valid(),
            -86_400 <= delta <= 86_400,
        ensures
            r.valid(),
            r.nanos == self.nanos,
            r.secs == (self.secs + delta) % (SECS_PER_DAY as int),
    {
        let shifted: i64 = self.secs as i64 + delta + 86_400;
        assert(0 <= shifted);
        let s: u64 = (shifted as u64) % 86_400;
        proof {
            let x = self.secs + delta;
            assert((86_400 + x) % 86_400 == x % 86_400) by {
                vstd::arithmetic::div_mod::lemma_mod_add_multiples_vanish(x, 86_400);
            }
        }
        WallClock { secs: s as u32, nanos: self.nanos }
    }
}

/// An instant on the UTC time line, as whole seconds since the Unix epoch
/// and the nanoseconds past that second.
#[derive(Clone, Copy, Debug, PartialEq, Eq, Structural)]
pub struct Timestamp {
    pub secs: i64,
    pub nanos: u32,
}

impl Timestamp {
    /// In chrono's range, with a sub-second part below one second.
    pub open spec fn valid(self) -> bool {
        &&& MIN_TIMESTAMP <= self.secs <= MAX_TIMESTAMP
        &&& self.nanos < NANOS_PER_SEC
    }

    /// Nanoseconds since the Unix epoch; the order of the time line.
    pub open spec fn at(self) -> int {
        self.secs * NANOS_PER_SEC + self.nanos
    }

    /// The instant `secs` seconds and `nanos` nanoseconds after the epoch, if valid.
    pub fn from_secs_nanos(secs: i64, nanos: u32) -> (r: Option<Timestamp>)
        ensures
            r == (if MIN_TIMESTAMP <= secs <= MAX_TIMESTAMP && nanos < NANOS_PER_SEC {
                Some(Timestamp { secs, nanos })
            } else {
                None
            }),
    {
        if MIN_TIMESTAMP <= secs && secs <= MAX_TIMESTAMP && nanos < NANOS_PER_SEC {
            Some(Timestamp { secs, nanos })
        } else {
            None
        }
    }

    /// The instant `secs` seconds and `nanos` nanoseconds after the epoch, with
    /// a leap second clamped to the end of its second; `None` when `secs` is
    /// outside chrono's range.
    pub fn from_secs_nanos_clamped(secs: i64, nanos: u32) -> (r: Option<Timestamp>)
        ensures
            r == (if MIN_TIMESTAMP <= secs <= MAX_TIMESTAMP {
                Some(Timestamp { secs, nanos: WallClock::leap_clamped(nanos) })
            } else {
                None
            }),
            r matches Some(t) ==> t.valid(),
    {
        if secs < MIN_TIMESTAMP || secs > MAX_TIMESTAMP {
            return None;
        }
        let nanos = if nanos < NANOS_PER_SEC { nanos } else { NANOS_PER_SEC - 1 };
        Some(Timestamp { secs, nanos })
    }

    fn total(&self) -> (r: i128)
        ensures
            r == self.at(),
    {
        self.secs as i128 * 1_000_000_000i128 + self.nanos as i128
    }

    /// `self < other` on the time line.
    pub fn is_before(&self, other: &Timestamp) -> (r: bool)
        ensures
            r == (self.at() < other.at()),
    {
        self.total() < other.total()
    }

    /// `self <= other` on the time line.
    pub fn not_after(&self, other: &Timestamp) -> (r: bool)
        ensures
            r == (self.at() <= other.at()),
    {
        self.total() <= other.total()
    }

    /// Signed nanoseconds from `self` to `later`.
    pub fn nanos_until(&self, later: &Timestamp) -> (r: i128)
        ensures
            r == later.at() - self.at(),
    {
        later.total() - self.total()
    }

    /// The later of two instants (the first on a tie).
    pub open spec fn latest(a: Timestamp, b: Timestamp) -> Timestamp {
        if b.at() > a.at() { b } else { a }
    }

    /// The earlier of two instants (the first on a tie).
    pub open spec fn earliest(a: Timestamp, b: Timestamp) -> Timestamp {
        if b.at() < a.at() { b } else { a }
    }

    /// The later of the two instants (`self` on a tie).
    pub fn later_of(self, other: Timestamp) -> (r: Timestamp)
        ensures
            r == Timestamp::latest(self, other),
    {
        if self.is_before(&other) {
            other
        } else {
            self
        }
    }

    /// The earlier of the two instants (`self` on a tie).
    pub fn earlier_of(self, other: Timestamp) -> (r: Timestamp)
        ensures
            r == Timestamp::earliest(self, other),
    {
        if other.is_before(&self) {
            other
        } else {
            self
        }
    }

    /// This instant moved by `delta` whole seconds.
    pub open spec fn shifted(self, delta: int) -> Timestamp {
        Timestamp { secs: (self.secs + delta) as i64, nanos: self.nanos }
    }

    /// Whether shifting by `delta` seconds stays in chrono's range.
    pub open spec fn can_shift(self, delta: int) -> bool {
        MIN_TIMESTAMP <= self.secs + delta <= MAX_TIMESTAMP
    }

    /// This instant shifted by `delta` whole seconds.
    pub fn plus_secs(&self, delta: i64) -> (r: Timestamp)
        requires
            self.valid(),
            self.can_shift(delta as int),
        ensures
            r.valid(),
            r == self.shifted(delta as int),
            r.secs == self.secs + delta,
            r.nanos == self.nanos,
            r.at() == self.at() + delta * NANOS_PER_SEC,
    {
        Timestamp { secs: self.secs + delta, nanos: self.nanos }
    }
}

/// The instant a date and time of day name when read as UTC
/// (the same arithmetic as chrono's `NaiveDateTime::and_utc`).
pub open spec fn utc_instant_spec(date: CalendarDate, time: WallClock) -> Timestamp {
    Timestamp {
        secs: ((date.days_from_ce - UNIX_EPOCH_DAY) * SECS_PER_DAY + time.secs) as i64,
        nanos: time.nanos,
    }
}

/// Reads a date and time of day as UTC.
pub fn utc_instant(date: CalendarDate, time: WallClock) -> (r: Timestamp)
    requires
        date.valid(),
        time.valid(),
    ensures
        r == utc_instant_spec(date, time),
        r.valid(),
{
    let days: i64 = date.days_from_ce as i64 - UNIX_EPOCH_DAY;
    Timestamp { secs: days * 86_400 + time.secs as i64, nanos: time.nanos }
}

/// The UTC time of day of an instant (chrono's `DateTime::<Utc>::time`).
pub open spec fn utc_time_of_day_spec(t: Timestamp) -> WallClock {
    WallClock { secs: ((t.secs as int) % (SECS_PER_DAY as int)) as u32, nanos: t.nanos }
}

/// The UTC time of day of an instant.
pub fn utc_time_of_day(t: Timestamp) -> (r: WallClock)
    requires
        t.valid(),
    ensures
        r == utc_time_of_day_spec(t),
        r.valid(),
{
    let shifted: i64 = t.secs - MIN_TIMESTAMP;
    let s: u64 = (shifted as u64) % 86_400;
    proof {
        let x = t.secs as int;
        let k: int = MIN_TIMESTAMP / 86_400;
        assert(MIN_TIMESTAMP == k * 86_400);
        assert((86_400 * (-k) + x) % 86_400 == x % 86_400) by {
            vstd::arithmetic::div_mod::lemma_mod_multiples_vanish(-k, x, 86_400);
        }
    }
    WallClock { secs: s as u32, nanos: t.nanos }
}

/// The instant at which the Oslo wall-clock reading `date` `time` first occurs,
/// or `None` when that reading falls in a daylight-saving gap.
/// Its value rests on chrono-tz's copy of the time-zone database.
pub uninterp spec fn oslo_earliest(date: CalendarDate, time: WallClock) -> Option<Timestamp>;

/// Calls chrono's `NaiveDateTime::and_local_timezone(Oslo)` followed by
/// `MappedLocalTime::earliest`. Claimed: the result is `oslo_earliest` of the
/// arguments; a found instant is a valid chrono UTC instant, and since Oslo's
/// offsets are whole seconds it keeps the sub-second part of `time`.
#[verifier::external_body]
pub(crate) fn oslo_to_utc_earliest(date: CalendarDate, time: WallClock) -> (r: Option<Timestamp>)
    requires
        date.valid(),
        time.valid(),
    ensures
        r == oslo_earliest(date, time),
        r matches Some(t) ==> t.valid() && t.nanos == time.nanos,
{
    let d = chrono::NaiveDate::from_num_days_from_ce_opt(date.days_from_ce).unwrap();
    let t = chrono::NaiveTime::from_num_seconds_from_midnight_opt(time.secs, time.nanos).unwrap();
    match d.and_time(t).and_local_timezone(chrono_tz::Europe::Oslo).earliest() {
        Some(dt) => Some(Timestamp { secs: dt.timestamp(), nanos: dt.timestamp_subsec_nanos() }),
        None => None,
    }
}

/// For an Oslo wall-clock reading `date` `time` that falls in a daylight-saving
/// gap, the first instant after the gap (the moment the clocks jump); `None`
/// when the reading is not in a gap, or the gap's end lies outside the table.
/// Its value rests on chrono-tz's copy of the time-zone database.
pub uninterp spec fn oslo_gap_end(date: CalendarDate, time: WallClock) -> Option<Timestamp>;

/// Calls chrono-tz's `GapInfo::new(&reading, &Oslo)` and takes its `end`.
/// Claimed: the result is `oslo_gap_end` of the arguments; a found instant is a
/// valid instant on a whole second (chrono-tz builds it from a whole-second
/// timestamp). `GapInfo::new` returns information only for a reading that no
/// Oslo offset maps, that is one for which `oslo_earliest` finds nothing.
#[verifier::external_body]
pub(crate) fn oslo_jump_after_gap(date: CalendarDate, time: WallClock) -> (r: Option<Timestamp>)
    requires
        date.valid(),
        time.valid(),
    ensures
        r == oslo_gap_end(date, time),
        r matches Some(t) ==> t.valid() && t.nanos == 0 && oslo_earliest(date, time) is None,
{
    let d = chrono::NaiveDate::from_num_days_from_ce_opt(date.days_from_ce).unwrap();
    let t = chrono::NaiveTime::from_num_seconds_from_midnight_opt(time.secs, time.nanos).unwrap();
    match chrono_tz::GapInfo::new(&d.and_time(t), &chrono_tz::Europe::Oslo).and_then(|gap| gap.end) {
        Some(end) => Some(Timestamp { secs: end.timestamp(), nanos: end.timestamp_subsec_nanos() }),
        None => None,
    }
}

/// The Oslo wall-clock time of day at an instant.
/// Its value rests on chrono-tz's copy of the time-zone database.
pub uninterp spec fn oslo_clock(t: Timestamp) -> WallClock;

/// Calls chrono's `DateTime::<Utc>::with_timezone(&Oslo)` followed by `time()`.
/// Claimed: the result is `oslo_clock` of the argument, a time of day below
/// 24 hours with the sub-second part of `t` (Oslo's offsets are whole seconds).
#[verifier::external_body]
pub(crate) fn oslo_time_of_day(t: Timestamp) -> (r: WallClock)
    requires
        t.valid(),
    ensures
        r == oslo_clock(t),
        r.valid(),
        r.nanos == t.nanos,
{
    let utc = chrono::DateTime::from_timestamp(t.secs, t.nanos).unwrap();
    let local = utc.with_timezone(&chrono_tz::Europe::Oslo).time();
    WallClock { secs: local.num_seconds_from_midnight(), nanos: local.nanosecond() }
}

/// Latest instant whose Oslo reading chrono can still represent: Oslo's offset
/// from UTC never exceeds three hours (CEMT, in chrono-tz's table).
pub const MAX_OSLO_TIMESTAMP: i64 = 8_210_266_865_999;

/// The Oslo calendar date at an instant.
/// Its value rests on chrono-tz's copy of the time-zone database.
pub uninterp spec fn oslo_date(t: Timestamp) -> CalendarDate;

/// Calls chrono's `DateTime::<Utc>::with_timezone(&Oslo)` followed by
/// `date_naive()`. Claimed: the result is `oslo_date` of the argument, a date
/// in chrono's range. chrono panics when the local reading leaves its range,
/// which `requires` rules out.
#[verifier::external_body]
pub(crate) fn oslo_date_of(t: Timestamp) -> (r: CalendarDate)
    requires
        t.valid(),
        t.secs <= MAX_OSLO_TIMESTAMP,
    ensures
        r == oslo_date(t),
        r.valid(),
{
    let utc = chrono::DateTime::from_timestamp(t.secs, t.nanos).unwrap();
    let local = utc.with_timezone(&chrono_tz::Europe::Oslo).date_naive();
    CalendarDate { days_from_ce: local.num_days_from_ce() }
}

/// The day of the week of a date, counted from Monday as 0
/// (1 January of year 1 was a Monday).
pub open spec fn weekday_from_monday_spec(date: CalendarDate) -> int {
    (date.days_from_ce - 1) % 7
}

impl CalendarDate {
    /// The day of the week, Monday being 0 and Sunday 6 (chrono's
    /// `num_days_from_monday`).
    pub fn weekday_from_monday(&self) -> (r: usize)
        ensures
            r == weekday_from_monday_spec(*self),
            r < 7,
    {
        // Shift by a multiple of seven that makes every `i32` day count non-negative.
        let shifted: i64 = self.days_from_ce as i64 - 1 + 2_147_483_653;
        let r: i64 = shifted % 7;
        proof {
            let x = self.days_from_ce - 1;
            assert((7 * 306_783_379 + x) % 7 == x % 7) by {
                vstd::arithmetic::div_mod::lemma_mod_multiples_vanish(306_783_379, x, 7);
            }
        }
        r as usize
    }
}

} // verus!
