//! The calendar that the simulation clock stands for.
//!
//! A tick is fifteen minutes. A day has 24 hours, a month 30 days and a year
//! 12 months; the clock starts on the first of January 1900 at midnight.

use vstd::prelude::*;

verus! {

/// Ticks in an hour. The power network is computed once an hour.
pub const TICKS_PER_HOUR: u64 = 4;

/// Ticks in a day. The census is taken once a day.
pub const TICKS_PER_DAY: u64 = 96;

/// Ticks in a month of 30 days.
pub const TICKS_PER_MONTH: u64 = 2880;

/// Ticks in a year of 12 months.
pub const TICKS_PER_YEAR: u64 = 34560;

/// The year in which the clock starts.
pub const FIRST_YEAR: u64 = 1900;

/// A moment of the simulation as date and time of day.
#[derive(Debug, Clone, Copy, PartialEq, Eq, Structural)]
pub struct Calendar {
    pub year: u64,
    /// Months since January: 0 to 11.
    pub month: u64,
    /// Day of the month: 1 to 30.
    pub day: u64,
    /// Hour of the day: 0 to 23.
    pub hour: u64,
    /// Minute of the hour: 0, 15, 30 or 45.
    pub minute: u64,
}

/// The date and the time of day at a tick.
pub open spec fn calendar_at(tick: u64) -> Calendar {
    Calendar {
        year: (FIRST_YEAR + tick / TICKS_PER_YEAR) as u64,
        month: (tick % TICKS_PER_YEAR) / TICKS_PER_MONTH,
        day: ((tick % TICKS_PER_MONTH) / TICKS_PER_DAY + 1) as u64,
        hour: (tick % TICKS_PER_DAY) / TICKS_PER_HOUR,
        minute: ((tick % TICKS_PER_HOUR) * 15) as u64,
    }
}

/// The date and the time of day at a tick.
pub fn calendar(tick: u64) -> (date: Calendar)
    ensures
        date == calendar_at(tick),
        date.month < 12,
        1 <= date.day <= 30,
        date.hour < 24,
        date.minute < 60,
{
    Calendar {
        year: FIRST_YEAR + tick / TICKS_PER_YEAR,
        month: (tick % TICKS_PER_YEAR) / TICKS_PER_MONTH,
        day: (tick % TICKS_PER_MONTH) / TICKS_PER_DAY + 1,
        hour: (tick % TICKS_PER_DAY) / TICKS_PER_HOUR,
        minute: (tick % TICKS_PER_HOUR) * 15,
    }
}

/// The short English name of a month, counted from 0 for January.
pub open spec fn month_label(month: u64) -> Seq<char> {
    if month == 0 {
        "Jan"@
    } else if month == 1 {
        "Feb"@
    } else if month == 2 {
        "Mar"@
    } else if month == 3 {
        "Apr"@
    } else if month == 4 {
        "May"@
    } else if month == 5 {
        "Jun"@
    } else if month == 6 {
        "Jul"@
    } else if month == 7 {
        "Aug"@
    } else if month == 8 {
        "Sep"@
    } else if month == 9 {
        "Oct"@
    } else if month == 10 {
        "Nov"@
    } else {
        "Dec"@
    }
}

/// The short English name of a month, counted from 0 for January.
pub fn month_name(month: u64) -> (name: &'static str)
    requires
        month < 12,
    ensures
        name@ == month_label(month),
{
    if month == 0 {
        "Jan"
    } else if month == 1 {
        "Feb"
    } else if month == 2 {
        "Mar"
    } else if month == 3 {
        "Apr"
    } else if month == 4 {
        "May"
    } else if month == 5 {
        "Jun"
    } else if month == 6 {
        "Jul"
    } else if month == 7 {
        "Aug"
    } else if month == 8 {
        "Sep"
    } else if month == 9 {
        "Oct"
    } else if month == 10 {
        "Nov"
    } else {
        "Dec"
    }
}

} // verus!
