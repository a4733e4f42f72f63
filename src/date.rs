use core::cmp::Ordering;
use vstd::prelude::*;

verus! {

/// A calendar date, without time of day.
#[derive(Clone, Copy, Debug, PartialEq, Eq, Structural)]
pub struct Date {
    pub year: i32,
    pub month: u32,
    pub day: u32,
}

/// Chronological order: by year, then month, then day.
pub open spec fn date_cmp(a: Date, b: Date) -> Ordering {
    if a.year < b.year {
        Ordering::Less
    } else if a.year > b.year {
        Ordering::Greater
    } else if a.month < b.month {
        Ordering::Less
    } else if a.month > b.month {
        Ordering::Greater
    } else if a.day < b.day {
        Ordering::Less
    } else if a.day > b.day {
        Ordering::Greater
    } else {
        Ordering::Equal
    }
}

/// Order of optional dates: an absent date comes before any present one.
pub open spec fn option_date_cmp(a: Option<Date>, b: Option<Date>) -> Ordering {
    match (a, b) {
        (None, None) => Ordering::Equal,
        (None, Some(_)) => Ordering::Less,
        (Some(_), None) => Ordering::Greater,
        (Some(x), Some(y)) => date_cmp(x, y),
    }
}

pub open spec fn reversed(o: Ordering) -> Ordering {
    match o {
        Ordering::Less => Ordering::Greater,
        Ordering::Equal => Ordering::Equal,
        Ordering::Greater => Ordering::Less,
    }
}

pub fn reverse(o: Ordering) -> (r: Ordering)
    ensures
        r == reversed(o),
{
    match o {
        Ordering::Less => Ordering::Greater,
        Ordering::Equal => Ordering::Equal,
        Ordering::Greater => Ordering::Less,
    }
}

pub open spec fn is_leap_year(year: int) -> bool {
    year % 4 == 0 && (year % 100 != 0 || year % 400 == 0)
}

pub open spec fn days_in_month(year: int, month: int) -> int {
    if month == 2 {
        if is_leap_year(year) {
            29
        } else {
            28
        }
    } else if month == 4 || month == 6 || month == 9 || month == 11 {
        30
    } else {
        31
    }
}

/// Whether `d` names a day of the proleptic Gregorian calendar within the
/// years -262143 to 262142.
pub open spec fn is_calendar_date(d: Date) -> bool {
    &&& -262143 <= d.year <= 262142
    &&& 1 <= d.month <= 12
    &&& 1 <= d.day <= days_in_month(d.year as int, d.month as int)
}

pub open spec fn is_calendar_option(d: Option<Date>) -> bool {
    match d {
        None => true,
        Some(x) => is_calendar_date(x),
    }
}

impl Date {
    /// Whether the date names a day of the calendar.
    pub fn is_valid(&self) -> (r: bool)
        ensures
            r == is_calendar_date(*self),
    {
        if self.year < -262143 || self.year > 262142 || self.month < 1 || self.month > 12
            || self.day < 1 {
            return false;
        }
        let leap = self.year % 4 == 0 && (self.year % 100 != 0 || self.year % 400 == 0);
        let days: u32 = if self.month == 2 {
            if leap {
                29
            } else {
                28
            }
        } else if self.month == 4 || self.month == 6 || self.month == 9 || self.month == 11 {
            30
        } else {
            31
        };
        self.day <= days
    }

    pub fn new(year: i32, month: u32, day: u32) -> (r: Date)
        ensures
            r == (Date { year, month, day }),
    {
        Date { year, month, day }
    }

    /// Compares two dates chronologically.
    pub fn cmp(&self, other: &Date) -> (r: Ordering)
        ensures
            r == date_cmp(*self, *other),
    {
        if self.year < other.year {
            Ordering::Less
        } else if self.year > other.year {
            Ordering::Greater
        } else if self.month < other.month {
            Ordering::Less
        } else if self.month > other.month {
            Ordering::Greater
        } else if self.day < other.day {
            Ordering::Less
        } else if self.day > other.day {
            Ordering::Greater
        } else {
            Ordering::Equal
        }
    }
}

/// Whether an optional date is absent or names a day of the calendar.
pub fn is_valid_option(d: &Option<Date>) -> (r: bool)
    ensures
        r == is_calendar_option(*d),
{
    match d {
        None => true,
        Some(x) => x.is_valid(),
    }
}

/// Compares two optional dates, an absent one first.
pub fn cmp_option_date(a: &Option<Date>, b: &Option<Date>) -> (r: Ordering)
    ensures
        r == option_date_cmp(*a, *b),
{
    match (a, b) {
        (None, None) => Ordering::Equal,
        (None, Some(_)) => Ordering::Less,
        (Some(_), None) => Ordering::Greater,
        (Some(x), Some(y)) => x.cmp(y),
    }
}

} // verus!
