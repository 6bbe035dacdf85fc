//! Calendar days and the date cursor.
//!
//! A day is identified by its number in the proleptic Gregorian calendar,
//! where 1 January of year 1 is day 1. In this numbering the weekday of a day,
//! counted from Sunday, is the remainder of the day number by seven.

use chrono::Datelike;
use vstd::prelude::*;

verus! {

/// Number of the first day the calendar knows (1 January 262144 BCE).
pub const MIN_DAY: i32 = -95_746_129;

/// Number of the last day the calendar knows (31 December 262142 CE).
pub const MAX_DAY: i32 = 95_745_399;

/// Length in days of the visible window: 52 whole weeks.
pub const WINDOW_DAYS: i32 = 364;

/// Weekday of a day number, counted from Sunday (Sunday is 0, Saturday is 6).
pub open spec fn weekday_from_sunday(day: int) -> int {
    day % 7
}

/// Whether a day number falls on a Sunday.
pub open spec fn is_sunday(day: int) -> bool {
    weekday_from_sunday(day) == 0
}

/// The most recent Sunday on or before `day`.
pub open spec fn last_sunday(day: int) -> int {
    day - weekday_from_sunday(day)
}

/// The Sunday that opens the 52-week window ending in the week of `now`.
pub open spec fn window_start(now: int) -> int {
    last_sunday(now) - WINDOW_DAYS
}

/// How many days a cursor at `position` can still hand out when the last
/// permitted day is `today`.
pub open spec fn days_left(position: int, today: int) -> int {
    if position > today {
        0
    } else {
        today - position + 1
    }
}

/// Calls chrono's `NaiveDate::from_num_days_from_ce_opt`, then
/// `Datelike::weekday` and `Weekday::num_days_from_sunday` on the date.
///
/// Trusted: chrono accepts exactly the day numbers from `MIN_DAY` to
/// `MAX_DAY`, and the weekday it reports, counted from Sunday, is the day
/// number modulo seven.
#[verifier::external_body]
fn chrono_weekday(days: i32) -> (w: Option<u32>)
    ensures
        w is Some <==> MIN_DAY <= days <= MAX_DAY,
        w matches Some(n) ==> n as int == weekday_from_sunday(days as int),
{
    match chrono::NaiveDate::from_num_days_from_ce_opt(days) {
        Some(date) => Some(date.weekday().num_days_from_sunday()),
        None => None,
    }
}

/// A calendar day. Its time of day is of no concern here: whoever turns a day
/// into an instant places it at noon.
#[derive(Clone, Copy, Debug, PartialEq, Eq, Structural)]
pub struct CalendarDay {
    days: i32,
}

impl View for CalendarDay {
    type V = int;

    /// The day number.
    closed spec fn view(&self) -> int {
        self.days as int
    }
}

impl CalendarDay {
    #[verifier::type_invariant]
    spec fn in_calendar(self) -> bool {
        MIN_DAY <= self.days <= MAX_DAY
    }

    /// The day with the given number, if the calendar knows it.
    pub fn from_days(days: i32) -> (r: Option<CalendarDay>)
        ensures
            r is Some <==> MIN_DAY <= days <= MAX_DAY,
            r matches Some(day) ==> day@ == days,
    {
        if MIN_DAY <= days && days <= MAX_DAY {
            Some(CalendarDay { days })
        } else {
            None
        }
    }

    /// The day number.
    pub fn days(&self) -> (d: i32)
        ensures
            d == self@,
            MIN_DAY <= d <= MAX_DAY,
    {
        proof {
            use_type_invariant(self);
        }
        self.days
    }

    /// The day `delta` days after this one (before it, for a negative
    /// `delta`), if the calendar knows it.
    pub fn checked_add_days(&self, delta: i32) -> (r: Option<CalendarDay>)
        ensures
            r is Some <==> MIN_DAY <= self@ + delta <= MAX_DAY,
            r matches Some(day) ==> day@ == self@ + delta,
    {
        proof {
            use_type_invariant(self);
        }
        let target: i64 = self.days as i64 + delta as i64;
        if MIN_DAY as i64 <= target && target <= MAX_DAY as i64 {
            Some(CalendarDay { days: target as i32 })
        } else {
            None
        }
    }

    /// The weekday, counted from Sunday (Sunday is 0, Saturday is 6).
    pub fn weekday(&self) -> (w: u32)
        ensures
            w as int == weekday_from_sunday(self@),
            w < 7,
    {
        proof {
            use_type_invariant(self);
        }
        chrono_weekday(self.days).unwrap()
    }

    /// Whether this day is a Sunday.
    pub fn is_sunday(&self) -> (b: bool)
        ensures
            b == is_sunday(self@),
    {
        self.weekday() == 0
    }
}

/// The most recent Sunday on or before `from`, found by stepping back one day
/// at a time. The caller keeps clear of the first week of the calendar, in
/// which no earlier Sunday exists.
pub fn get_last_sunday(from: CalendarDay) -> (sunday: CalendarDay)
    requires
        last_sunday(from@) >= MIN_DAY,
    ensures
        sunday@ == last_sunday(from@),
        is_sunday(sunday@),
        from@ - 6 <= sunday@ <= from@,
{
    let mut day = from;
    while !day.is_sunday()
        invariant
            last_sunday(day@) == last_sunday(from@),
            last_sunday(from@) >= MIN_DAY,
            day@ <= from@,
        decreases weekday_from_sunday(day@),
    {
        proof {
            use_type_invariant(&day);
        }
        day = day.checked_add_days(-1).unwrap();
    }
    day
}

/// The seed of the date cursor: the Sunday 52 weeks before the most recent
/// Sunday on or before `now`. The caller keeps `now` far enough from the
/// first day of the calendar for that Sunday to exist.
pub fn seed_sunday(now: CalendarDay) -> (seed: CalendarDay)
    requires
        window_start(now@) >= MIN_DAY,
    ensures
        seed@ == window_start(now@),
        is_sunday(seed@),
        is_sunday(seed@ + WINDOW_DAYS),
        now@ - 370 <= seed@ <= now@ - 364,
{
    let sunday = get_last_sunday(now);
    proof {
        use_type_invariant(&sunday);
    }
    sunday.checked_add_days(-WINDOW_DAYS).unwrap()
}

/// The most recent Sunday on or before any day is a Sunday, lies within the
/// six days up to that day, and so does the day 52 weeks before it, which
/// opens the window: it is a Sunday too.
pub proof fn lemma_window_opens_on_sunday(now: int)
    ensures
        is_sunday(last_sunday(now)),
        now - 6 <= last_sunday(now) <= now,
        is_sunday(window_start(now)),
        window_start(now) == last_sunday(now) - 7 * 52,
        forall|day: int| last_sunday(now) < day <= now ==> !is_sunday(day),
{
}

/// The cursor found that its position lies after today.
#[derive(Clone, Copy, Debug, PartialEq, Eq, Structural)]
pub struct OutOfRange;

/// A day pointer that only moves forward and hands out no day after today.
#[derive(Clone, Copy, Debug)]
pub struct MovingDate {
    position: i32,
    today: CalendarDay,
}

impl MovingDate {
    #[verifier::type_invariant]
    spec fn within_reach(self) -> bool {
        MIN_DAY <= self.position <= MAX_DAY + 1
    }

    /// Number of the day that the next call of `next` looks at.
    pub closed spec fn position(&self) -> int {
        self.position as int
    }

    /// Number of the last day that the cursor hands out.
    pub closed spec fn today(&self) -> int {
        self.today@
    }

    /// A cursor that starts at `first` and stops after `today`.
    pub fn new(first: CalendarDay, today: CalendarDay) -> (cursor: MovingDate)
        ensures
            cursor.position() == first@,
            cursor.today() == today@,
    {
        MovingDate { position: first.days(), today }
    }

    /// A cursor seeded for the window that ends today: it starts at the
    /// Sunday 52 weeks before the most recent Sunday.
    pub fn seeded(today: CalendarDay) -> (cursor: MovingDate)
        requires
            window_start(today@) >= MIN_DAY,
        ensures
            cursor.position() == window_start(today@),
            cursor.today() == today@,
    {
        MovingDate::new(seed_sunday(today), today)
    }

    /// The last day that the cursor hands out.
    pub fn last_day(&self) -> (day: CalendarDay)
        ensures
            day@ == self.today(),
    {
        self.today
    }

    /// How many days the cursor can still hand out.
    pub fn remaining(&self) -> (n: u32)
        ensures
            n as int == days_left(self.position(), self.today()),
    {
        proof {
            use_type_invariant(self);
        }
        let today: i32 = self.today.days();
        if self.position > today {
            0
        } else {
            (today as i64 - self.position as i64 + 1) as u32
        }
    }

    /// Hands out the day at the current position and moves one day on, unless
    /// the position lies after today: then the cursor stays where it is.
    pub fn next(&mut self) -> (r: Result<CalendarDay, OutOfRange>)
        ensures
            final(self).today() == old(self).today(),
            old(self).position() > old(self).today() ==> r is Err && final(self).position() == old(
                self,
            ).position(),
            old(self).position() <= old(self).today() ==> r is Ok && r->Ok_0@ == old(
                self,
            ).position() && final(self).position() == old(self).position() + 1,
    {
        proof {
            use_type_invariant(&*self);
        }
        let today: i32 = self.today.days();
        if self.position > today {
            Err(OutOfRange)
        } else {
            let day = CalendarDay { days: self.position };
            self.position = self.position + 1;
            Ok(day)
        }
    }
}

} // verus!
