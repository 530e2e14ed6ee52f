use vstd::prelude::*;

verus! {

/// Earliest year that a calendar date may carry.
pub const MIN_YEAR: i32 = -262143;

/// Latest year that a calendar date may carry.
pub const MAX_YEAR: i32 = 262142;

/// Leap years of the proleptic Gregorian calendar.
pub open spec fn is_leap_year(year: int) -> bool {
    year % 4 == 0 && (year % 100 != 0 || year % 400 == 0)
}

pub open spec fn days_in_month(year: int, month: int) -> int {
    if month == 2 {
        if is_leap_year(year) { 29 } else { 28 }
    } else if month == 4 || month == 6 || month == 9 || month == 11 {
        30
    } else {
        31
    }
}

/// A day that exists in the proleptic Gregorian calendar, within the year range.
pub open spec fn is_valid_date(year: int, month: int, day: int) -> bool {
    &&& MIN_YEAR <= year <= MAX_YEAR
    &&& 1 <= month <= 12
    &&& 1 <= day <= days_in_month(year, month)
}

/// Days of the year that lie before the first of `month`.
pub open spec fn days_before_month(year: int, month: int) -> int
    decreases month,
{
    if month <= 1 {
        0
    } else {
        days_before_month(year, month - 1) + days_in_month(year, month - 1)
    }
}

/// Serial day number, 0001-01-01 being day 1 (earlier days count down through 0).
pub open spec fn day_number(year: int, month: int, day: int) -> int {
    let y = year - 1;
    365 * y + y / 4 - y / 100 + y / 400 + days_before_month(year, month) + day
}

/// A calendar day: always one that exists.
#[derive(Debug, Clone, Copy, PartialEq, Eq, Structural)]
pub struct CalendarDate {
    year: i32,
    month: u32,
    day: u32,
}

impl CalendarDate {
    #[verifier::type_invariant]
    closed spec fn inv(self) -> bool {
        is_valid_date(self.year as int, self.month as int, self.day as int)
    }

    pub closed spec fn spec_year(self) -> int {
        self.year as int
    }

    pub closed spec fn spec_month(self) -> int {
        self.month as int
    }

    pub closed spec fn spec_day(self) -> int {
        self.day as int
    }

    /// The date's serial day number.
    pub open spec fn serial(self) -> int {
        day_number(self.spec_year(), self.spec_month(), self.spec_day())
    }

    /// The date `year-month-day`, or `None` where no such day exists.
    pub fn new(year: i32, month: u32, day: u32) -> (r: Option<CalendarDate>)
        ensures
            r.is_some() <==> is_valid_date(year as int, month as int, day as int),
            r matches Some(d) ==> d.spec_year() == year && d.spec_month() == month
                && d.spec_day() == day,
    {
        if date_exists(year, month, day) {
            Some(CalendarDate { year, month, day })
        } else {
            None
        }
    }

    pub fn year(&self) -> (r: i32)
        ensures
            r == self.spec_year(),
    {
        self.year
    }

    pub fn month(&self) -> (r: u32)
        ensures
            r == self.spec_month(),
    {
        self.month
    }

    pub fn day(&self) -> (r: u32)
        ensures
            r == self.spec_day(),
    {
        self.day
    }

    /// Whole days from `self` to `later`: negative where `later` comes first.
    pub fn days_until(&self, later: &CalendarDate) -> (r: i64)
        ensures
            r == later.serial() - self.serial(),
    {
        signed_days_since(later, self)
    }
}

/// Relies on chrono::NaiveDate::from_ymd_opt: it gives a date exactly where the
/// year lies in chrono's range and the month and day name a day of that year.
#[verifier::external_body]
fn date_exists(year: i32, month: u32, day: u32) -> (r: bool)
    ensures
        r == is_valid_date(year as int, month as int, day as int),
{
    chrono::NaiveDate::from_ymd_opt(year, month, day).is_some()
}

/// Relies on chrono::NaiveDate::signed_duration_since: the signed count of whole
/// days from `earlier` to `later`. Both dates exist (the type's invariant), so
/// chrono's `from_ymd_opt` gives each of them.
#[verifier::external_body]
fn signed_days_since(later: &CalendarDate, earlier: &CalendarDate) -> (r: i64)
    ensures
        r == later.serial() - earlier.serial(),
{
    let l = chrono::NaiveDate::from_ymd_opt(later.year, later.month, later.day).unwrap();
    let e = chrono::NaiveDate::from_ymd_opt(earlier.year, earlier.month, earlier.day).unwrap();
    l.signed_duration_since(e).num_days()
}

} // verus!
