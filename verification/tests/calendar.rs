use chrono::{Datelike, TimeZone};
use option_filter::calendar::{
    expiry_window, instant_at, window_between, window_months, window_with_offsets, CivilTime,
    Moment, WindowError, WindowMonths, YearMonth, WINDOW_MONTHS,
};
use option_filter::window::ExpiryWindow;

fn at(offset: i32, y: i32, m: u32, d: u32, h: u32, min: u32) -> i64 {
    chrono::FixedOffset::east_opt(offset)
        .unwrap()
        .with_ymd_and_hms(y, m, d, h, min, 0)
        .unwrap()
        .timestamp_millis()
}

#[test]
fn window_runs_from_the_start_of_the_month_for_three_months() {
    let now = Moment { epoch_millis: 1_715_747_400_000, utc_offset_seconds: 19_800 };
    let window = expiry_window(now).unwrap();
    assert_eq!(window, ExpiryWindow { start: 1_714_501_800_000, end: 1_722_450_600_000 });
    assert_eq!(window.start, at(19_800, 2024, 5, 1, 0, 0));
    assert_eq!(window.end, at(19_800, 2024, 8, 1, 0, 0));
}

#[test]
fn window_is_the_same_for_every_moment_of_a_month() {
    let first = Moment { epoch_millis: at(0, 2023, 2, 1, 0, 0), utc_offset_seconds: 0 };
    let last = Moment { epoch_millis: at(0, 2023, 2, 28, 23, 59) + 59_999, utc_offset_seconds: 0 };
    let expected = ExpiryWindow { start: at(0, 2023, 2, 1, 0, 0), end: at(0, 2023, 5, 1, 0, 0) };
    assert_eq!(expiry_window(first), Ok(expected));
    assert_eq!(expiry_window(last), Ok(expected));
}

#[test]
fn window_goes_across_the_end_of_the_year() {
    let now = Moment { epoch_millis: at(-18_000, 2024, 11, 20, 9, 30), utc_offset_seconds: -18_000 };
    let window = expiry_window(now).unwrap();
    assert_eq!(window.start, at(-18_000, 2024, 11, 1, 0, 0));
    assert_eq!(window.end, at(-18_000, 2025, 2, 1, 0, 0));
}

#[test]
fn window_goes_by_the_local_date() {
    // 2024-04-30T20:00:00Z is already the first of May at +05:30.
    let instant = at(0, 2024, 4, 30, 20, 0);
    let local = expiry_window(Moment { epoch_millis: instant, utc_offset_seconds: 19_800 }).unwrap();
    assert_eq!(local.start, at(19_800, 2024, 5, 1, 0, 0));
    assert_eq!(local.end, at(19_800, 2024, 8, 1, 0, 0));
    let utc = expiry_window(Moment { epoch_millis: instant, utc_offset_seconds: 0 }).unwrap();
    assert_eq!(utc.start, at(0, 2024, 4, 1, 0, 0));
    assert_eq!(utc.end, at(0, 2024, 7, 1, 0, 0));
}

#[test]
fn window_before_the_epoch() {
    let now = Moment { epoch_millis: -1, utc_offset_seconds: 0 };
    let window = expiry_window(now).unwrap();
    assert_eq!(window.start, at(0, 1969, 12, 1, 0, 0));
    assert_eq!(window.end, at(0, 1970, 3, 1, 0, 0));
    assert!(window.start < -1 && -1 < window.end);
}

#[test]
fn offset_of_a_day_or_more_gives_no_window() {
    let east = Moment { epoch_millis: 0, utc_offset_seconds: 86_400 };
    let west = Moment { epoch_millis: 0, utc_offset_seconds: -86_400 };
    assert_eq!(expiry_window(east), Err(WindowError::NoLocalDate));
    assert_eq!(expiry_window(west), Err(WindowError::NoLocalDate));
}

#[test]
fn instant_beyond_the_calendar_gives_no_window() {
    let now = Moment { epoch_millis: i64::MAX, utc_offset_seconds: 0 };
    assert_eq!(expiry_window(now), Err(WindowError::NoLocalDate));
    let now = Moment { epoch_millis: i64::MIN, utc_offset_seconds: 0 };
    assert_eq!(expiry_window(now), Err(WindowError::NoLocalDate));
}

#[test]
fn window_at_the_end_of_the_calendar_has_no_end() {
    let last = chrono::DateTime::<chrono::Utc>::MAX_UTC;
    assert_eq!(last.month(), 12);
    let now = Moment { epoch_millis: last.timestamp_millis(), utc_offset_seconds: 0 };
    assert_eq!(expiry_window(now), Err(WindowError::NoWindowEnd));
}

#[test]
fn window_between_wants_two_instants_in_order() {
    assert_eq!(window_between(Some(1), Some(2)), Ok(ExpiryWindow { start: 1, end: 2 }));
    assert_eq!(window_between(Some(2), Some(2)), Err(WindowError::EmptyWindow));
    assert_eq!(window_between(Some(3), Some(2)), Err(WindowError::EmptyWindow));
    assert_eq!(window_between(None, Some(2)), Err(WindowError::NoWindowStart));
    assert_eq!(window_between(None, None), Err(WindowError::NoWindowStart));
    assert_eq!(window_between(Some(1), None), Err(WindowError::NoWindowEnd));
}

#[test]
fn year_month_wants_a_month_number() {
    assert_eq!(YearMonth::new(2024, 1), Some(YearMonth { year: 2024, month: 1 }));
    assert_eq!(YearMonth::new(2024, 12), Some(YearMonth { year: 2024, month: 12 }));
    assert_eq!(YearMonth::new(2024, 0), None);
    assert_eq!(YearMonth::new(2024, 13), None);
}

#[test]
fn advance_counts_months_across_years() {
    let october = YearMonth { year: 2024, month: 10 };
    assert_eq!(october.advance(0), Some(october));
    assert_eq!(october.advance(2), Some(YearMonth { year: 2024, month: 12 }));
    assert_eq!(october.advance(WINDOW_MONTHS), Some(YearMonth { year: 2025, month: 1 }));
    assert_eq!(october.advance(27), Some(YearMonth { year: 2027, month: 1 }));
    let before = YearMonth { year: -1, month: 11 };
    assert_eq!(before.advance(3), Some(YearMonth { year: 0, month: 2 }));
    let january = YearMonth { year: 2024, month: 1 };
    assert_eq!(january.advance(3), Some(YearMonth { year: 2024, month: 4 }));
    assert_eq!(january.advance(u32::MAX), Some(YearMonth { year: 357_915_965, month: 4 }));
}

#[test]
fn advance_stops_at_the_last_year() {
    let last = YearMonth { year: i32::MAX, month: 10 };
    assert_eq!(last.advance(2), Some(YearMonth { year: i32::MAX, month: 12 }));
    assert_eq!(last.advance(3), None);
}

#[test]
fn month_that_starts_before_the_calendar_has_no_start() {
    let first = chrono::DateTime::<chrono::Utc>::MIN_UTC;
    let now = Moment { epoch_millis: first.timestamp_millis(), utc_offset_seconds: 3_600 };
    assert_eq!(expiry_window(now), Err(WindowError::NoWindowStart));
}

#[test]
fn months_of_the_window_are_three_apart() {
    let now = Moment { epoch_millis: at(19_800, 2024, 11, 30, 23, 59), utc_offset_seconds: 19_800 };
    assert_eq!(
        window_months(now),
        Ok(WindowMonths {
            first: YearMonth { year: 2024, month: 11 },
            last: YearMonth { year: 2025, month: 2 },
        })
    );
    let nowhere = Moment { epoch_millis: 0, utc_offset_seconds: -90_000 };
    assert_eq!(window_months(nowhere), Err(WindowError::NoLocalDate));
}

#[test]
fn month_starts_at_midnight_of_its_first_day() {
    let march = YearMonth { year: 2024, month: 3 };
    assert_eq!(
        march.start(),
        CivilTime { year: 2024, month: 3, day: 1, hour: 0, minute: 0, second: 0 }
    );
    assert_eq!(instant_at(march.start(), 3_600), Some(at(3_600, 2024, 3, 1, 0, 0)));
}

#[test]
fn instant_is_that_of_the_date_and_time_given() {
    let shown = CivilTime { year: 2024, month: 2, day: 29, hour: 13, minute: 45, second: 10 };
    assert_eq!(instant_at(shown, 0), Some(1_709_214_310_000));
    assert_eq!(instant_at(shown, 19_800), Some(1_709_214_310_000 - 19_800_000));
    let none = CivilTime { year: 2023, month: 2, day: 29, hour: 0, minute: 0, second: 0 };
    assert_eq!(instant_at(none, 0), None);
    let late = CivilTime { year: 2024, month: 1, day: 1, hour: 24, minute: 0, second: 0 };
    assert_eq!(instant_at(late, 0), None);
    assert_eq!(instant_at(shown, 86_400), None);
}

#[test]
fn window_takes_the_offset_of_each_end() {
    // Central European time: an hour ahead in winter, two in summer.
    let months = WindowMonths {
        first: YearMonth { year: 2024, month: 3 },
        last: YearMonth { year: 2024, month: 6 },
    };
    let window = window_with_offsets(months, 3_600, 7_200).unwrap();
    assert_eq!(window.start, at(3_600, 2024, 3, 1, 0, 0));
    assert_eq!(window.end, at(7_200, 2024, 6, 1, 0, 0));
    assert_eq!(window.end, at(3_600, 2024, 6, 1, 0, 0) - 3_600_000);
    assert_eq!(window_with_offsets(months, 86_400, 0), Err(WindowError::NoWindowStart));
    assert_eq!(window_with_offsets(months, 0, 86_400), Err(WindowError::NoWindowEnd));
    let backwards = WindowMonths { first: months.last, last: months.first };
    assert_eq!(window_with_offsets(backwards, 0, 0), Err(WindowError::EmptyWindow));
}
