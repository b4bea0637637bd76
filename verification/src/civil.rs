use vstd::prelude::*;

verus! {

/// A date and time of day on the proleptic Gregorian calendar, as the fields
/// that chrono reads from its date-time values. `nanosecond` runs past
/// 999_999_999 only within a leap second, which chrono keeps as second 59.
#[derive(Debug, Clone, Copy, PartialEq, Eq, Structural)]
pub struct CivilTime {
    pub year: i32,
    pub month: u32,
    pub day: u32,
    pub hour: u32,
    pub minute: u32,
    pub second: u32,
    pub nanosecond: u32,
}

/// The earliest year that chrono's dates reach.
pub open spec fn min_year() -> int {
    -262143
}

/// The latest year that chrono's dates reach.
pub open spec fn max_year() -> int {
    262142
}

/// Whether `year` (0 being 1 BCE) is a leap year.
pub open spec fn is_leap_year(year: int) -> bool {
    year % 4 == 0 && (year % 100 != 0 || year % 400 == 0)
}

/// The number of days in a month of a year.
pub open spec fn days_in_month(year: int, month: int) -> int {
    if month == 2 {
        if is_leap_year(year) { 29 } else { 28 }
    } else if month == 4 || month == 6 || month == 9 || month == 11 {
        30
    } else {
        31
    }
}

/// Whether the fields name a date and time that chrono can hold.
pub open spec fn valid_civil(t: CivilTime) -> bool {
    &&& min_year() <= t.year <= max_year()
    &&& 1 <= t.month <= 12
    &&& 1 <= t.day <= days_in_month(t.year as int, t.month as int)
    &&& t.hour < 24
    &&& t.minute < 60
    &&& t.second < 60
    &&& t.nanosecond < 2_000_000_000
    &&& t.nanosecond >= 1_000_000_000 ==> t.second == 59
}

/// The start of the ten-minute slot that holds `t`: the minute rounded down
/// to a multiple of ten, seconds and their fraction dropped.
pub open spec fn ten_minute_slot(t: CivilTime) -> CivilTime {
    CivilTime { minute: (t.minute - t.minute % 10) as u32, second: 0, nanosecond: 0, ..t }
}

/// The start of the ten-minute slot that holds `t`; the archive publishes a
/// picture every ten minutes.
pub fn slot_start(t: &CivilTime) -> (r: CivilTime)
    ensures
        r == ten_minute_slot(*t),
{
    CivilTime {
        year: t.year,
        month: t.month,
        day: t.day,
        hour: t.hour,
        minute: t.minute - t.minute % 10,
        second: 0,
        nanosecond: 0,
    }
}

/// A slot start is a valid time, on the same day and hour as the time it
/// holds, on a minute that is a multiple of ten, less than ten minutes
/// before it; and it is its own slot.
pub proof fn lemma_slot_start(t: CivilTime)
    requires
        valid_civil(t),
    ensures
        valid_civil(ten_minute_slot(t)),
        ten_minute_slot(t).year == t.year && ten_minute_slot(t).month == t.month,
        ten_minute_slot(t).day == t.day && ten_minute_slot(t).hour == t.hour,
        ten_minute_slot(t).minute % 10 == 0,
        ten_minute_slot(t).minute <= t.minute < ten_minute_slot(t).minute + 10,
        ten_minute_slot(t).second == 0 && ten_minute_slot(t).nanosecond == 0,
        ten_minute_slot(ten_minute_slot(t)) == ten_minute_slot(t),
{
}

} // verus!
