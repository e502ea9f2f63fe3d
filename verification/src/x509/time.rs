//! Calendar instants of certificates.

use core::cmp::Ordering;
use vstd::prelude::*;

verus! {

/// A UTC instant between 1970 and 9999, to the second.
#[derive(Debug, Clone, Copy, PartialEq, Eq, Structural)]
pub struct DateTime {
    year: u16,
    month: u8,
    day: u8,
    hour: u8,
    minutes: u8,
    seconds: u8,
}

/// Year, month, day, hour, minute and second.
#[verifier::ext_equal]
pub struct DateTimeView {
    pub year: u16,
    pub month: u8,
    pub day: u8,
    pub hour: u8,
    pub minutes: u8,
    pub seconds: u8,
}

/// A year with 366 days.
pub open spec fn is_leap_year(year: u16) -> bool {
    year % 4 == 0 && (year % 100 != 0 || year % 400 == 0)
}

/// Number of days of a month.
pub open spec fn days_in_month(year: u16, month: u8) -> u8 {
    if month == 2 {
        if is_leap_year(year) {
            29
        } else {
            28
        }
    } else if month == 4 || month == 6 || month == 9 || month == 11 {
        30
    } else {
        31
    }
}

impl DateTimeView {
    /// The instant exists and lies in the range of the type.
    pub open spec fn valid(self) -> bool {
        &&& 1970 <= self.year <= 9999
        &&& 1 <= self.month <= 12
        &&& 1 <= self.day <= days_in_month(self.year, self.month)
        &&& self.hour < 24
        &&& self.minutes < 60
        &&& self.seconds < 60
    }

    /// The instant as a number that grows with time.
    pub open spec fn rank(self) -> int {
        ((((self.year * 16 + self.month) * 32 + self.day) * 32 + self.hour) * 64 + self.minutes)
            * 64 + self.seconds
    }

    /// Earlier than another instant.
    pub open spec fn before(self, other: DateTimeView) -> bool {
        self.rank() < other.rank()
    }
}

impl View for DateTime {
    type V = DateTimeView;

    closed spec fn view(&self) -> DateTimeView {
        DateTimeView {
            year: self.year,
            month: self.month,
            day: self.day,
            hour: self.hour,
            minutes: self.minutes,
            seconds: self.seconds,
        }
    }
}

impl DateTime {
    /// The instant exists.
    #[verifier::type_invariant]
    closed spec fn exists_in_calendar(&self) -> bool {
        self@.valid()
    }

    /// The instant with the given parts, `None` when it does not exist or is out of
    /// range.
    pub fn new(year: u16, month: u8, day: u8, hour: u8, minutes: u8, seconds: u8) -> (r: Option<
        DateTime,
    >)
        ensures
            r is Some <==> (DateTimeView { year, month, day, hour, minutes, seconds }).valid(),
            r matches Some(t) ==> t@ == (DateTimeView { year, month, day, hour, minutes, seconds }),
    {
        if year < 1970 || year > 9999 || month < 1 || month > 12 || hour > 23 || minutes > 59
            || seconds > 59 {
            return None;
        }
        let leap = year % 4 == 0 && (year % 100 != 0 || year % 400 == 0);
        let last: u8 = match month {
            2 => if leap {
                29
            } else {
                28
            },
            4 | 6 | 9 | 11 => 30,
            _ => 31,
        };
        if day < 1 || day > last {
            return None;
        }
        Some(DateTime { year, month, day, hour, minutes, seconds })
    }

    /// Year.
    pub fn year(&self) -> (r: u16)
        ensures
            r == self@.year,
    {
        self.year
    }

    /// Month, from one.
    pub fn month(&self) -> (r: u8)
        ensures
            r == self@.month,
    {
        self.month
    }

    /// Day of the month, from one.
    pub fn day(&self) -> (r: u8)
        ensures
            r == self@.day,
    {
        self.day
    }

    /// Hour.
    pub fn hour(&self) -> (r: u8)
        ensures
            r == self@.hour,
    {
        self.hour
    }

    /// Minute.
    pub fn minutes(&self) -> (r: u8)
        ensures
            r == self@.minutes,
    {
        self.minutes
    }

    /// Second.
    pub fn seconds(&self) -> (r: u8)
        ensures
            r == self@.seconds,
    {
        self.seconds
    }

    /// Whether the instant is earlier than another.
    pub fn is_before(&self, other: &DateTime) -> (r: bool)
        ensures
            r == self@.before(other@),
    {
        proof {
            use_type_invariant(self);
            use_type_invariant(other);
        }
        if self.year != other.year {
            self.year < other.year
        } else if self.month != other.month {
            self.month < other.month
        } else if self.day != other.day {
            self.day < other.day
        } else if self.hour != other.hour {
            self.hour < other.hour
        } else if self.minutes != other.minutes {
            self.minutes < other.minutes
        } else {
            self.seconds < other.seconds
        }
    }
}

impl PartialOrd for DateTime {
    fn partial_cmp(&self, other: &DateTime) -> (r: Option<Ordering>) {
        proof {
            use_type_invariant(self);
            use_type_invariant(other);
            law_rank_is_exact(self@, other@);
        }
        if self.is_before(other) {
            Some(Ordering::Less)
        } else if other.is_before(self) {
            Some(Ordering::Greater)
        } else {
            Some(Ordering::Equal)
        }
    }
}

impl vstd::std_specs::cmp::PartialOrdSpecImpl for DateTime {
    open spec fn obeys_partial_cmp_spec() -> bool {
        true
    }

    open spec fn partial_cmp_spec(&self, other: &DateTime) -> Option<Ordering> {
        if self@.before(other@) {
            Some(Ordering::Less)
        } else if other@.before(self@) {
            Some(Ordering::Greater)
        } else {
            Some(Ordering::Equal)
        }
    }
}

/// Instants that are not before one another are equal, so the order is total.
pub proof fn law_rank_is_exact(a: DateTimeView, b: DateTimeView)
    requires
        a.valid(),
        b.valid(),
    ensures
        a.rank() == b.rank() <==> a == b,
        a.before(b) <==> {
            ||| a.year < b.year
            ||| a.year == b.year && a.month < b.month
            ||| a.year == b.year && a.month == b.month && a.day < b.day
            ||| a.year == b.year && a.month == b.month && a.day == b.day && a.hour < b.hour
            ||| a.year == b.year && a.month == b.month && a.day == b.day && a.hour == b.hour
                && a.minutes < b.minutes
            ||| a.year == b.year && a.month == b.month && a.day == b.day && a.hour == b.hour
                && a.minutes == b.minutes && a.seconds < b.seconds
        },
{
}

/// The calendar: every fourth year has 366 days, but of the hundredth ones only every
/// fourth; the others have 365. Months have 31, 30 and, for February, 28 or 29 days.
pub proof fn law_calendar(year: u16)
    ensures
        is_leap_year(year) <==> year % 400 == 0 || year % 4 == 0 && year % 100 != 0,
        days_in_month(year, 1) == 31 && days_in_month(year, 3) == 31 && days_in_month(year, 5) == 31,
        days_in_month(year, 7) == 31 && days_in_month(year, 8) == 31,
        days_in_month(year, 10) == 31 && days_in_month(year, 12) == 31,
        days_in_month(year, 4) == 30 && days_in_month(year, 6) == 30,
        days_in_month(year, 9) == 30 && days_in_month(year, 11) == 30,
        days_in_month(year, 2) == 28 || days_in_month(year, 2) == 29,
        days_in_month(year, 2) == 29 <==> year % 4 == 0 && (year % 25 != 0 || year % 16 == 0),
{
}

/// The instants run from the first of January 1970 to the end of 9999.
pub proof fn law_range_of_time(t: DateTimeView)
    ensures
        t.valid() <==> {
            &&& 1970 <= t.year < 10000
            &&& 1 <= t.month && t.month <= 12
            &&& 1 <= t.day && t.day <= days_in_month(t.year, t.month)
            &&& t.hour <= 23 && t.minutes <= 59 && t.seconds <= 59
        },
{
}

/// An instant is made of parts that exist in the calendar and keeps them; it is before
/// another exactly if the first part in which they differ, from the year down, is less.
pub proof fn law_instants_compare(
    a: DateTime,
    b: DateTime,
    r: bool,
    parts: (u16, u8, u8, u8, u8, u8),
    made: Option<DateTime>,
)
    requires
        call_ensures(DateTime::is_before, (&a, &b), r),
        call_ensures(
            DateTime::new,
            (parts.0, parts.1, parts.2, parts.3, parts.4, parts.5),
            made,
        ),
        a@.valid(),
        b@.valid(),
    ensures
        r <==> {
            ||| a@.year < b@.year
            ||| a@.year == b@.year && a@.month < b@.month
            ||| a@.year == b@.year && a@.month == b@.month && a@.day < b@.day
            ||| a@.year == b@.year && a@.month == b@.month && a@.day == b@.day && a@.hour < b@.hour
            ||| a@.year == b@.year && a@.month == b@.month && a@.day == b@.day && a@.hour == b@.hour
                && a@.minutes < b@.minutes
            ||| a@.year == b@.year && a@.month == b@.month && a@.day == b@.day && a@.hour == b@.hour
                && a@.minutes == b@.minutes && a@.seconds < b@.seconds
        },
        made matches Some(t) ==> t@.year == parts.0 && t@.month == parts.1 && t@.day == parts.2
            && t@.hour == parts.3 && t@.minutes == parts.4 && t@.seconds == parts.5,
        parts.0 > 9999 || parts.0 < 1970 || parts.1 == 0 || parts.1 > 12 || parts.2 == 0 || parts.2
            > 31 || parts.3 > 23 || parts.4 > 59 || parts.5 > 59 ==> made is None,
{
    law_rank_is_exact(a@, b@);
}

} // verus!
