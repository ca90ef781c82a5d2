//! Dates as Julian day numbers, weekdays, and working-day arithmetic.

use vstd::prelude::*;
use crate::work_days::WorkDays;

verus! {

/// Julian day number of the first date that the `time` crate represents
/// (year -9999, January 1).
pub const MIN_JULIAN_DAY: i32 = -1_930_999;

/// Julian day number of the last date that the `time` crate represents
/// (year 9999, December 31).
pub const MAX_JULIAN_DAY: i32 = 5_373_484;

#[derive(Clone, Copy, Debug, PartialEq, Eq, Structural)]
pub enum Weekday {
    Monday,
    Tuesday,
    Wednesday,
    Thursday,
    Friday,
    Saturday,
    Sunday,
}

/// The weekday on which a Julian day number falls: day 0 is a Monday.
pub open spec fn weekday_of(julian_day: int) -> Weekday {
    let r = julian_day % 7;
    if r == 0 {
        Weekday::Monday
    } else if r == 1 {
        Weekday::Tuesday
    } else if r == 2 {
        Weekday::Wednesday
    } else if r == 3 {
        Weekday::Thursday
    } else if r == 4 {
        Weekday::Friday
    } else if r == 5 {
        Weekday::Saturday
    } else {
        Weekday::Sunday
    }
}

/// Effort accrues on Monday to Friday only.
pub open spec fn is_working_day(julian_day: int) -> bool {
    weekday_of(julian_day) != Weekday::Saturday && weekday_of(julian_day) != Weekday::Sunday
}

/// Number of working days `d` with `after < d <= until`.
pub open spec fn working_days_between(after: int, until: int) -> nat
    decreases until - after,
{
    if until <= after {
        0
    } else {
        working_days_between(after, until - 1) + if is_working_day(until) {
            1nat
        } else {
            0nat
        }
    }
}

/// The day reached from `start` once `work_days` working days have gone by,
/// walking one calendar day at a time. `start` itself never counts. `None`
/// where the walk would leave the calendar.
pub open spec fn spec_add_work_days(start: int, work_days: nat) -> Option<int>
    decreases MAX_JULIAN_DAY - start,
{
    if work_days == 0 {
        Some(start)
    } else if start >= MAX_JULIAN_DAY {
        None
    } else if is_working_day(start + 1) {
        spec_add_work_days(start + 1, (work_days - 1) as nat)
    } else {
        spec_add_work_days(start + 1, work_days)
    }
}

/// Whole working days still outstanding at `reference` of work that began
/// on `start`: the work rounded down, less the working days after `start`
/// up to and including `reference`, and never below zero. Work that has
/// not begun by `reference` is outstanding as a whole. `None` for work
/// without end.
pub open spec fn spec_days_remaining(start: int, reference: int, work: WorkDays) -> Option<nat> {
    if work.is_unbounded() {
        None
    } else if start >= reference {
        Some(work.whole())
    } else {
        let gone = working_days_between(start, reference);
        Some(
            if gone >= work.whole() {
                0nat
            } else {
                (work.whole() - gone) as nat
            },
        )
    }
}

/// More days in the span, no fewer working days.
pub proof fn lemma_working_days_monotonic(after: int, until: int, later: int)
    requires
        until <= later,
    ensures
        working_days_between(after, until) <= working_days_between(after, later),
    decreases later - until,
{
    if until < later {
        lemma_working_days_monotonic(after, until, later - 1);
    }
}

/// The working days of a span are those of its two parts.
pub proof fn lemma_working_days_split(after: int, middle: int, until: int)
    requires
        after <= middle <= until,
    ensures
        working_days_between(after, until) == working_days_between(after, middle)
            + working_days_between(middle, until),
    decreases until - middle,
{
    if middle < until {
        lemma_working_days_split(after, middle, until - 1);
    }
}

/// The walk over working days ends on the first day by which exactly
/// `work_days` working days have gone by: a working day itself, unless
/// there was nothing to walk. Weekend days on the way count for nothing.
pub proof fn lemma_add_work_days_counts(start: int, work_days: nat)
    ensures
        spec_add_work_days(start, work_days) matches Some(end) ==> {
            &&& start <= end
            &&& working_days_between(start, end) == work_days
            &&& work_days > 0 ==> is_working_day(end)
            &&& work_days == 0 ==> end == start
        },
    decreases MAX_JULIAN_DAY - start,
{
    if work_days != 0 && start < MAX_JULIAN_DAY {
        let left = if is_working_day(start + 1) {
            (work_days - 1) as nat
        } else {
            work_days
        };
        lemma_add_work_days_counts(start + 1, left);
        if let Some(end) = spec_add_work_days(start + 1, left) {
            lemma_working_days_split(start, start + 1, end);
            assert(working_days_between(start, start + 1) == if is_working_day(start + 1) {
                1nat
            } else {
                0nat
            }) by {
                assert(working_days_between(start, start) == 0);
            }
        }
    }
}

/// The walk over working days never goes back, and stays in the calendar
/// when it starts there.
pub proof fn lemma_add_work_days_bounds(start: int, work_days: nat)
    ensures
        spec_add_work_days(start, work_days) matches Some(end) ==> start <= end && (start
            <= MAX_JULIAN_DAY ==> end <= MAX_JULIAN_DAY),
    decreases MAX_JULIAN_DAY - start,
{
    if work_days != 0 && start < MAX_JULIAN_DAY {
        if is_working_day(start + 1) {
            lemma_add_work_days_bounds(start + 1, (work_days - 1) as nat);
        } else {
            lemma_add_work_days_bounds(start + 1, work_days);
        }
    }
}

/// A calendar date, held as its Julian day number. Every value lies
/// between `MIN_JULIAN_DAY` and `MAX_JULIAN_DAY`.
#[derive(Clone, Copy, Debug, PartialEq, Eq, Structural)]
pub struct Date {
    julian_day: i32,
}

impl View for Date {
    type V = int;

    closed spec fn view(&self) -> int {
        self.julian_day as int
    }
}

/// `time::Date::weekday` of the date with the given Julian day number, as
/// the number of days since Monday. The contract states what the method
/// computes: the day number modulo 7, with 0 for Monday.
#[verifier::external_body]
fn days_from_monday(julian_day: i32) -> (n: u8)
    requires
        MIN_JULIAN_DAY <= julian_day <= MAX_JULIAN_DAY,
    ensures
        n == (julian_day as int) % 7,
{
    time::Date::from_julian_day(julian_day).unwrap().weekday().number_days_from_monday()
}

/// `time::Date::checked_add` with a span of whole days, on Julian day
/// numbers. The contract states that the sum comes back where it is no
/// later than the last representable date, and `None` otherwise.
#[verifier::external_body]
fn julian_day_plus(julian_day: i32, days: u32) -> (r: Option<i32>)
    requires
        MIN_JULIAN_DAY <= julian_day <= MAX_JULIAN_DAY,
    ensures
        julian_day + days <= MAX_JULIAN_DAY ==> r == Some((julian_day + days) as i32),
        julian_day + days > MAX_JULIAN_DAY ==> r.is_none(),
{
    let date = time::Date::from_julian_day(julian_day).unwrap();
    match date.checked_add(time::Duration::days(days as i64)) {
        Some(sum) => Some(sum.to_julian_day()),
        None => None,
    }
}

impl Date {
    #[verifier::type_invariant]
    spec fn in_calendar(self) -> bool {
        MIN_JULIAN_DAY <= self.julian_day <= MAX_JULIAN_DAY
    }

    /// Two dates with the same Julian day number are the same date.
    pub proof fn lemma_same_day_same_date(self, other: Date)
        ensures
            self@ == other@ <==> self == other,
    {
    }

    /// The date with the given Julian day number, if the calendar has it.
    pub fn from_julian_day(julian_day: i32) -> (r: Option<Date>)
        ensures
            r.is_some() <==> MIN_JULIAN_DAY <= julian_day <= MAX_JULIAN_DAY,
            r matches Some(d) ==> d@ == julian_day,
    {
        if MIN_JULIAN_DAY <= julian_day && julian_day <= MAX_JULIAN_DAY {
            Some(Date { julian_day })
        } else {
            None
        }
    }

    pub fn to_julian_day(self) -> (j: i32)
        ensures
            j == self@,
            MIN_JULIAN_DAY <= j <= MAX_JULIAN_DAY,
    {
        proof {
            use_type_invariant(self);
        }
        self.julian_day
    }

    /// The weekday of this date.
    pub fn weekday(self) -> (w: Weekday)
        ensures
            w == weekday_of(self@),
    {
        proof {
            use_type_invariant(self);
        }
        let n: u8 = days_from_monday(self.julian_day);
        if n == 0 {
            Weekday::Monday
        } else if n == 1 {
            Weekday::Tuesday
        } else if n == 2 {
            Weekday::Wednesday
        } else if n == 3 {
            Weekday::Thursday
        } else if n == 4 {
            Weekday::Friday
        } else if n == 5 {
            Weekday::Saturday
        } else {
            Weekday::Sunday
        }
    }

    /// Whether effort accrues on this date.
    pub fn is_working_day(self) -> (b: bool)
        ensures
            b == is_working_day(self@),
    {
        let w = self.weekday();
        w != Weekday::Saturday && w != Weekday::Sunday
    }

    /// This date moved `days` days on, or `None` past the end of the
    /// calendar.
    pub fn checked_add_days(self, days: u32) -> (r: Option<Date>)
        ensures
            r.is_some() <==> self@ + days <= MAX_JULIAN_DAY,
            r matches Some(d) ==> d@ == self@ + days,
    {
        proof {
            use_type_invariant(self);
        }
        match julian_day_plus(self.julian_day, days) {
            Some(julian_day) => Some(Date { julian_day }),
            None => None,
        }
    }

    /// Whole days from `earlier` to this date; negative where this date is
    /// the earlier one.
    pub fn days_since(self, earlier: Date) -> (n: i64)
        ensures
            n == self@ - earlier@,
            MIN_JULIAN_DAY <= self@ <= MAX_JULIAN_DAY,
            MIN_JULIAN_DAY <= earlier@ <= MAX_JULIAN_DAY,
    {
        proof {
            use_type_invariant(self);
            use_type_invariant(earlier);
        }
        self.julian_day as i64 - earlier.julian_day as i64
    }

    /// The date by which `work_days` working days have gone by after this
    /// one. Saturdays and Sundays never count, nor does this date itself.
    /// `None` where the calendar ends first.
    pub fn add_work_days(self, work_days: u64) -> (r: Option<Date>)
        ensures
            date_view(r) == spec_add_work_days(self@, work_days as nat),
            r.is_some() <==> working_days_between(self@, MAX_JULIAN_DAY as int) >= work_days,
            r matches Some(end) ==> {
                &&& self@ <= end@
                &&& working_days_between(self@, end@) == work_days
                &&& work_days > 0 ==> is_working_day(end@)
                &&& work_days == 0 ==> end == self
            },
    {
        let mut current = self;
        let mut left: u64 = work_days;
        proof {
            use_type_invariant(self);
        }
        while left > 0
            invariant
                self@ <= current@ <= MAX_JULIAN_DAY,
                left <= work_days,
                working_days_between(self@, current@) + left == work_days,
                left == 0 && work_days > 0 ==> is_working_day(current@),
                work_days == 0 ==> current == self,
                spec_add_work_days(current@, left as nat) == spec_add_work_days(
                    self@,
                    work_days as nat,
                ),
            decreases MAX_JULIAN_DAY - current@,
        {
            match current.checked_add_days(1) {
                Some(next) => {
                    current = next;
                },
                None => {
                    return None;
                },
            }
            if current.is_working_day() {
                left = left - 1;
            }
        }
        proof {
            lemma_working_days_monotonic(self@, current@, MAX_JULIAN_DAY as int);
        }
        Some(current)
    }

    /// Whole working days still outstanding at `reference` of work that
    /// began on this date: the walk over working days stops on `reference`.
    pub fn work_days_remaining_at(self, reference: Date, work: WorkDays) -> (r: Option<u64>)
        ensures
            r.is_some() <==> !work.is_unbounded(),
            r matches Some(n) ==> spec_days_remaining(self@, reference@, work) == Some(n as nat),
            r.is_none() ==> spec_days_remaining(self@, reference@, work).is_none(),
    {
        if work.is_unbounded() {
            return None;
        }
        let whole: u64 = work.whole_days();
        let occupied: u64 = work.occupied_days();
        let mut current = self;
        let mut left: u64 = occupied;
        let mut gone: u64 = 0;
        proof {
            use_type_invariant(self);
            use_type_invariant(reference);
        }
        while left > 0 && current.julian_day < reference.julian_day
            invariant
                self@ <= current@ <= MAX_JULIAN_DAY,
                reference@ <= MAX_JULIAN_DAY,
                current@ > self@ ==> current@ <= reference@,
                gone == working_days_between(self@, current@),
                gone + left == occupied,
                !work.is_unbounded(),
                whole == work.whole(),
                occupied == work.occupied(),
            decreases MAX_JULIAN_DAY - current@,
        {
            // A later date exists, so the next day does too.
            match current.checked_add_days(1) {
                Some(next) => {
                    current = next;
                },
                None => {
                    return None;
                },
            }
            if current.is_working_day() {
                left = left - 1;
                gone = gone + 1;
            }
        }
        proof {
            if self@ < reference@ {
                lemma_working_days_monotonic(self@, current@, reference@);
            }
        }
        if gone >= whole {
            Some(0)
        } else {
            Some(whole - gone)
        }
    }
}

/// A date that may be missing, as the Julian day number that it stands for.
pub open spec fn date_view(date: Option<Date>) -> Option<int> {
    match date {
        Some(d) => Some(d@),
        None => None,
    }
}

} // verus!
