//! The expiry window of a moment: from the first instant of the local
//! calendar month in which the moment lies to the first instant of the month
//! three months later.

use crate::window::ExpiryWindow;
use vstd::prelude::*;

verus! {

/// How many calendar months the expiry window spans.
pub const WINDOW_MONTHS: u32 = 3;

/// An instant, in milliseconds since the Unix epoch, together with the
/// number of seconds by which local time is ahead of UTC.
#[derive(Debug, Clone, Copy, PartialEq, Eq)]
pub struct Moment {
    pub epoch_millis: i64,
    pub utc_offset_seconds: i32,
}

/// A calendar month of the proleptic Gregorian calendar.
#[derive(Debug, Clone, Copy, PartialEq, Eq)]
pub struct YearMonth {
    pub year: i32,
    pub month: u32,
}

/// A date and time of day on the clock, without a zone.
#[derive(Debug, Clone, Copy, PartialEq, Eq)]
pub struct CivilTime {
    pub year: i32,
    pub month: u32,
    pub day: u32,
    pub hour: u32,
    pub minute: u32,
    pub second: u32,
}

/// The months between which an expiry window lies: it starts with the first
/// instant of `first` and ends with the first instant of `last`.
#[derive(Debug, Clone, Copy, PartialEq, Eq)]
pub struct WindowMonths {
    pub first: YearMonth,
    pub last: YearMonth,
}

/// Why a moment has no expiry window.
#[derive(Debug, Clone, Copy, PartialEq, Eq)]
pub enum WindowError {
    /// The moment has no local calendar date.
    NoLocalDate,
    /// The first instant of the month of the moment cannot be told.
    NoWindowStart,
    /// The first instant of the month in which the window ends cannot be told.
    NoWindowEnd,
    /// The window would end no later than it starts.
    EmptyWindow,
}

impl YearMonth {
    /// The month number lies between 1 and 12.
    pub open spec fn well_formed(self) -> bool {
        1 <= self.month <= 12
    }

    /// The number of the month when months are counted on from January of
    /// the year 0.
    pub open spec fn ordinal(self) -> int {
        self.year * 12 + (self.month - 1)
    }

    /// The year of the month that lies `months` months later.
    pub open spec fn later_year(self, months: nat) -> int {
        (self.ordinal() + months) / 12
    }

    /// The number, from 1 to 12, of the month that lies `months` months later.
    pub open spec fn later_month(self, months: nat) -> int {
        (self.ordinal() + months) % 12 + 1
    }

    /// The first instant of the month on the local clock: midnight of its
    /// first day.
    pub open spec fn first_instant(self) -> CivilTime {
        CivilTime { year: self.year, month: self.month, day: 1, hour: 0, minute: 0, second: 0 }
    }

    /// The first instant of the month on the local clock.
    pub fn start(&self) -> (at: CivilTime)
        ensures
            at == self.first_instant(),
    {
        CivilTime { year: self.year, month: self.month, day: 1, hour: 0, minute: 0, second: 0 }
    }

    /// The month of the given year and number, if the number names a month.
    pub fn new(year: i32, month: u32) -> (made: Option<Self>)
        ensures
            made == if 1 <= month <= 12 {
                Some(YearMonth { year, month })
            } else {
                None
            },
    {
        if 1 <= month && month <= 12 {
            Some(YearMonth { year, month })
        } else {
            None
        }
    }

    /// The month that lies `months` months later, or `None` where its year
    /// is beyond the years that can be written.
    pub fn advance(&self, months: u32) -> (later: Option<Self>)
        requires
            self.well_formed(),
        ensures
            match later {
                Some(found) => {
                    &&& found.well_formed()
                    &&& found.year == self.later_year(months as nat)
                    &&& found.month == self.later_month(months as nat)
                },
                None => self.later_year(months as nat) > i32::MAX,
            },
    {
        let run: u64 = (self.month as u64 - 1) + months as u64;
        let carried: u64 = run / 12;
        let month: u64 = run % 12 + 1;
        let year: i64 = self.year as i64 + carried as i64;
        assert(self.ordinal() + months == year * 12 + (month - 1));
        if year > i32::MAX as i64 {
            None
        } else {
            Some(YearMonth { year: year as i32, month: month as u32 })
        }
    }
}

/// The year and the month number of the local calendar date of an instant,
/// where local time is the given number of seconds ahead of UTC; `None`
/// where the offset or the instant is out of the calendar's range.
pub uninterp spec fn civil_month(epoch_millis: i64, utc_offset_seconds: i32) -> Option<(i32, u32)>;

/// The instant, in milliseconds since the Unix epoch, at which the local
/// clock shows the given date and time of day, where local time is the
/// given number of seconds ahead of UTC; `None` where there is no such date
/// or time of day, or the offset or the instant is out of range.
pub uninterp spec fn local_instant(
    year: i32,
    month: u32,
    day: u32,
    hour: u32,
    minute: u32,
    second: u32,
    utc_offset_seconds: i32,
) -> Option<i64>;

/// Asks chrono for the local calendar month of an instant: the zone is
/// `FixedOffset::east_opt`, the date and time `TimeZone::timestamp_millis_opt`,
/// and year and month are read with `Datelike::year` and `Datelike::month`.
/// The contract gives the answer its name, and says of it what chrono
/// documents: a month number lies between 1 and 12, and an offset of a day
/// or more is refused.
#[verifier::external_body]
fn civil_month_at(epoch_millis: i64, utc_offset_seconds: i32) -> (found: Option<(i32, u32)>)
    ensures
        found == civil_month(epoch_millis, utc_offset_seconds),
        found matches Some((_, month)) ==> 1 <= month <= 12,
        found is Some ==> -86_400 < utc_offset_seconds < 86_400,
{
    let zone = chrono::FixedOffset::east_opt(utc_offset_seconds)?;
    let local = chrono::TimeZone::timestamp_millis_opt(&zone, epoch_millis).single()?;
    Some((chrono::Datelike::year(&local), chrono::Datelike::month(&local)))
}

/// Asks chrono for the instant at which the local clock shows a date and
/// time of day: the zone is `FixedOffset::east_opt`, the date and time
/// `TimeZone::with_ymd_and_hms`, and the instant is read with
/// `DateTime::timestamp_millis`. The contract gives the answer its name,
/// and says of it that an offset of a day or more is refused.
#[verifier::external_body]
fn local_instant_at(
    year: i32,
    month: u32,
    day: u32,
    hour: u32,
    minute: u32,
    second: u32,
    utc_offset_seconds: i32,
) -> (found: Option<i64>)
    ensures
        found == local_instant(year, month, day, hour, minute, second, utc_offset_seconds),
        found is Some ==> -86_400 < utc_offset_seconds < 86_400,
{
    let zone = chrono::FixedOffset::east_opt(utc_offset_seconds)?;
    let shown = chrono::TimeZone::with_ymd_and_hms(&zone, year, month, day, hour, minute, second);
    Some(shown.single()?.timestamp_millis())
}

/// The instant of a date and time of day on the local clock.
pub open spec fn instant_of(at: CivilTime, utc_offset_seconds: i32) -> Option<i64> {
    local_instant(at.year, at.month, at.day, at.hour, at.minute, at.second, utc_offset_seconds)
}

/// The window between two instants, where both are known and the first is
/// the earlier one.
pub open spec fn bounded_by(start: Option<i64>, end: Option<i64>) -> Result<
    ExpiryWindow,
    WindowError,
> {
    match (start, end) {
        (None, _) => Err(WindowError::NoWindowStart),
        (Some(_), None) => Err(WindowError::NoWindowEnd),
        (Some(from), Some(to)) => if from < to {
            Ok(ExpiryWindow { start: from, end: to })
        } else {
            Err(WindowError::EmptyWindow)
        },
    }
}

/// The months of the expiry window of a moment: the local calendar month in
/// which the moment lies, and the month `WINDOW_MONTHS` months later.
pub open spec fn months_at(now: Moment) -> Result<WindowMonths, WindowError> {
    match civil_month(now.epoch_millis, now.utc_offset_seconds) {
        None => Err(WindowError::NoLocalDate),
        Some((year, month)) => {
            let first = YearMonth { year, month };
            if first.later_year(WINDOW_MONTHS as nat) > i32::MAX {
                Err(WindowError::NoWindowEnd)
            } else {
                Ok(
                    WindowMonths {
                        first,
                        last: YearMonth {
                            year: first.later_year(WINDOW_MONTHS as nat) as i32,
                            month: first.later_month(WINDOW_MONTHS as nat) as u32,
                        },
                    },
                )
            }
        },
    }
}

/// The window between the first instants of two months, where local time
/// is `start_offset` seconds ahead of UTC at the first and `end_offset`
/// seconds at the second.
pub open spec fn window_of(months: WindowMonths, start_offset: i32, end_offset: i32) -> Result<
    ExpiryWindow,
    WindowError,
> {
    bounded_by(
        instant_of(months.first.first_instant(), start_offset),
        instant_of(months.last.first_instant(), end_offset),
    )
}

/// The expiry window of a moment, where local time keeps the offset of the
/// moment. It starts with the first instant of the local calendar month of
/// the moment, midnight of its first day, and ends with the first instant
/// of the month `WINDOW_MONTHS` months later.
pub open spec fn window_at(now: Moment) -> Result<ExpiryWindow, WindowError> {
    match months_at(now) {
        Ok(months) => window_of(months, now.utc_offset_seconds, now.utc_offset_seconds),
        Err(reason) => Err(reason),
    }
}

/// Makes the window between two instants; fails where one of them is
/// unknown or the second is not later than the first.
pub fn window_between(start: Option<i64>, end: Option<i64>) -> (window: Result<
    ExpiryWindow,
    WindowError,
>)
    ensures
        window == bounded_by(start, end),
{
    match (start, end) {
        (None, _) => Err(WindowError::NoWindowStart),
        (Some(_), None) => Err(WindowError::NoWindowEnd),
        (Some(from), Some(to)) => if from < to {
            Ok(ExpiryWindow { start: from, end: to })
        } else {
            Err(WindowError::EmptyWindow)
        },
    }
}

/// Finds the months of the expiry window of a moment.
pub fn window_months(now: Moment) -> (months: Result<WindowMonths, WindowError>)
    ensures
        months == months_at(now),
        months matches Ok(found) ==> found.first.well_formed() && found.last.well_formed(),
{
    let first = match civil_month_at(now.epoch_millis, now.utc_offset_seconds) {
        Some((year, month)) => YearMonth { year, month },
        None => {
            return Err(WindowError::NoLocalDate);
        },
    };
    match first.advance(WINDOW_MONTHS) {
        Some(last) => Ok(WindowMonths { first, last }),
        None => Err(WindowError::NoWindowEnd),
    }
}

/// Finds the instant of a date and time of day on the local clock.
pub fn instant_at(at: CivilTime, utc_offset_seconds: i32) -> (found: Option<i64>)
    ensures
        found == instant_of(at, utc_offset_seconds),
{
    local_instant_at(at.year, at.month, at.day, at.hour, at.minute, at.second, utc_offset_seconds)
}

/// Computes the window between the first instants of two months, for a
/// zone whose offset differs between them: local time is `start_offset`
/// seconds ahead of UTC at the first and `end_offset` seconds at the second.
pub fn window_with_offsets(months: WindowMonths, start_offset: i32, end_offset: i32) -> (window:
    Result<ExpiryWindow, WindowError>)
    ensures
        window == window_of(months, start_offset, end_offset),
{
    window_between(
        instant_at(months.first.start(), start_offset),
        instant_at(months.last.start(), end_offset),
    )
}

/// Computes the expiry window of a moment, for a zone that keeps the
/// offset of the moment.
pub fn expiry_window(now: Moment) -> (window: Result<ExpiryWindow, WindowError>)
    ensures
        window == window_at(now),
{
    match window_months(now) {
        Ok(months) => window_with_offsets(months, now.utc_offset_seconds, now.utc_offset_seconds),
        Err(reason) => Err(reason),
    }
}

} // verus!
