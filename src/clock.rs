//! The league clock: civil dates on a fixed UTC-5 offset, without daylight saving.

use vstd::prelude::*;
use chrono::Datelike;

verus! {

/// Seconds in one civil day.
pub const SECONDS_PER_DAY: i64 = 86400;

/// How far the league clock runs behind UTC, in seconds.
pub const LEAGUE_OFFSET_SECONDS: i64 = 18000;

/// Day number of 1970-01-01, counting 0001-01-01 as day 1.
pub const UNIX_EPOCH_DAY: i64 = 719163;

/// A civil date on the league clock, held as its day number in the proleptic
/// Gregorian calendar (0001-01-01 is day 1, as chrono counts).
#[derive(Clone, Copy, Debug, PartialEq, Eq, Structural)]
pub struct LeagueDate {
    pub day: i64,
}

/// The league-local day number of an instant given in seconds since the Unix epoch.
pub open spec fn league_day_of(instant: int) -> int {
    (instant - LEAGUE_OFFSET_SECONDS) / (SECONDS_PER_DAY as int) + UNIX_EPOCH_DAY
}

/// What chrono's `NaiveDate::from_ymd_opt(..).num_days_from_ce()` gives for a year,
/// month and day: `None` where no such date exists.
pub uninterp spec fn ce_day_of_ymd(year: int, month: int, day: int) -> Option<int>;

/// Relies on chrono's `NaiveDate::from_ymd_opt` and `Datelike::num_days_from_ce`:
/// the day number of a calendar date, or `None` for an invalid or out-of-range date.
#[verifier::external_body]
fn ymd_to_day_number(year: i32, month: u32, day: u32) -> (r: Option<i32>)
    ensures
        r.is_some() == ce_day_of_ymd(year as int, month as int, day as int).is_some(),
        r.is_some() ==> ce_day_of_ymd(year as int, month as int, day as int) == Some(
            r.unwrap() as int,
        ),
{
    chrono::NaiveDate::from_ymd_opt(year, month, day).map(|d| d.num_days_from_ce())
}

impl LeagueDate {
    /// The date with the given day number.
    pub fn from_day_number(day: i64) -> (r: LeagueDate)
        ensures
            r.day == day,
    {
        LeagueDate { day }
    }

    /// The date with the given year, month (1 to 12) and day of month, if it exists.
    pub fn from_ymd(year: i32, month: u32, day: u32) -> (r: Option<LeagueDate>)
        ensures
            r.is_some() == ce_day_of_ymd(year as int, month as int, day as int).is_some(),
            r.is_some() ==> ce_day_of_ymd(year as int, month as int, day as int) == Some(
                r.unwrap().day as int,
            ),
    {
        match ymd_to_day_number(year, month, day) {
            Some(d) => Some(LeagueDate { day: d as i64 }),
            None => None,
        }
    }

    /// The league-local date of an instant (seconds since the Unix epoch).
    pub fn from_instant(instant: i64) -> (r: LeagueDate)
        ensures
            r.day == league_day_of(instant as int),
    {
        let shifted: i128 = instant as i128 - LEAGUE_OFFSET_SECONDS as i128;
        let per_day: i128 = SECONDS_PER_DAY as i128;
        let days: i128 = if shifted >= 0 {
            shifted / per_day
        } else {
            let q = (-shifted - 1) / per_day;
            proof {
                let s = shifted as int;
                assert(s / 86400 == -(((-s - 1) / 86400) as int) - 1) by (nonlinear_arith)
                    requires
                        s < 0,
                        q == (-s - 1) / 86400,
                ;
            }
            -q - 1
        };
        proof {
            assert(days == (instant as int - 18000) / 86400);
            assert(-106751991167301 <= days <= 106751991167300) by (nonlinear_arith)
                requires
                    days == (instant as int - 18000) / 86400,
                    i64::MIN <= instant <= i64::MAX,
            ;
        }
        LeagueDate { day: (days + UNIX_EPOCH_DAY as i128) as i64 }
    }

    /// The date `days` days after this one, or `None` where the day number would overflow.
    pub fn plus_days(self, days: i64) -> (r: Option<LeagueDate>)
        ensures
            r.is_some() == (i64::MIN <= self.day + days <= i64::MAX),
            r.is_some() ==> r.unwrap().day == self.day + days,
    {
        match self.day.checked_add(days) {
            Some(d) => Some(LeagueDate { day: d }),
            None => None,
        }
    }

    /// The date `days` days before this one, or `None` where the day number would overflow.
    pub fn minus_days(self, days: i64) -> (r: Option<LeagueDate>)
        ensures
            r.is_some() == (i64::MIN <= self.day - days <= i64::MAX),
            r.is_some() ==> r.unwrap().day == self.day - days,
    {
        match self.day.checked_sub(days) {
            Some(d) => Some(LeagueDate { day: d }),
            None => None,
        }
    }

    /// Whether this date comes strictly after `other`.
    pub fn is_after(self, other: LeagueDate) -> (r: bool)
        ensures
            r == (self.day > other.day),
    {
        self.day > other.day
    }
}

/// The league-local date of the instant `now` (seconds since the Unix epoch).
pub fn east_coast_date_today(now: i64) -> (r: LeagueDate)
    ensures
        r.day == league_day_of(now as int),
{
    LeagueDate::from_instant(now)
}

/// The league-local date `days` days after (`past == false`) or before
/// (`past == true`) the league-local date of `now`; `None` where that would overflow.
pub fn east_coast_date_in_x_days(now: i64, days: i64, past: bool) -> (r: Option<LeagueDate>)
    ensures
        ({
            let target = if past {
                league_day_of(now as int) - days
            } else {
                league_day_of(now as int) + days
            };
            &&& r.is_some() == (i64::MIN <= target <= i64::MAX)
            &&& r.is_some() ==> r.unwrap().day == target
        }),
{
    let today = LeagueDate::from_instant(now);
    if past {
        today.minus_days(days)
    } else {
        today.plus_days(days)
    }
}

} // verus!
