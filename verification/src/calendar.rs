//! The sessions of a month laid out as a calendar.

use crate::catalog::{find_block_by_id, locate_block};
use crate::dates::{calendar_day, day_number, day_of, day_of_time, weekday, weekday_of};
use crate::error::Error;
use crate::models::{Store, StoreView, TrainingSessionView};
use vstd::prelude::*;

verus! {

/// One session of a month.
#[derive(Clone, Debug, PartialEq, Eq)]
pub struct CalendarEntry {
    pub session_id: u128,
    pub start_time: u64,
    pub end_time: Option<u64>,
    /// The day of the month on which the session started, from 1.
    pub day: u32,
    /// How long the session ran, or has run at the time of asking where it is
    /// in progress.
    pub seconds: u64,
    pub program_name: Option<String>,
    pub block_name: Option<String>,
}

/// The view of a [`CalendarEntry`].
#[verifier::ext_equal]
pub struct CalendarEntryView {
    pub session_id: u128,
    pub start_time: u64,
    pub end_time: Option<u64>,
    pub day: u32,
    pub seconds: u64,
    pub program_name: Option<Seq<char>>,
    pub block_name: Option<Seq<char>>,
}

impl DeepView for CalendarEntry {
    type V = CalendarEntryView;

    open spec fn deep_view(&self) -> CalendarEntryView {
        CalendarEntryView {
            session_id: self.session_id,
            start_time: self.start_time,
            end_time: self.end_time,
            day: self.day,
            seconds: self.seconds,
            program_name: self.program_name.deep_view(),
            block_name: self.block_name.deep_view(),
        }
    }
}

/// A month with its sessions.
#[derive(Clone, Debug, PartialEq, Eq)]
pub struct MonthCalendar {
    pub year: i32,
    pub month: u32,
    /// The day of the week of the first of the month, from Sunday as 0.
    pub first_weekday: u32,
    /// The number of days of the month.
    pub days: u32,
    /// For each day of the month whether a session started on it.
    pub trained: Vec<bool>,
    /// The sessions that started in the month, in the order of the store.
    pub entries: Vec<CalendarEntry>,
}

/// The view of a [`MonthCalendar`].
#[verifier::ext_equal]
pub struct MonthCalendarView {
    pub year: i32,
    pub month: u32,
    pub first_weekday: u32,
    pub days: u32,
    pub trained: Seq<bool>,
    pub entries: Seq<CalendarEntryView>,
}

impl View for MonthCalendar {
    type V = MonthCalendarView;

    open spec fn view(&self) -> MonthCalendarView {
        MonthCalendarView {
            year: self.year,
            month: self.month,
            first_weekday: self.first_weekday,
            days: self.days,
            trained: self.trained@,
            entries: self.entries.deep_view(),
        }
    }
}

/// Whether a session started within the `days` days from `first` on.
pub open spec fn in_month(t: TrainingSessionView, first: int, days: int) -> bool {
    first <= day_of(t.start_time) < first + days
}

/// How long a session ran, or has run at the time `now` where it is in
/// progress; nothing where it ends before it starts.
pub open spec fn run_time(t: TrainingSessionView, now: u64) -> u64 {
    let end = match t.end_time {
        Some(e) => e,
        None => now,
    };
    if end >= t.start_time {
        (end - t.start_time) as u64
    } else {
        0
    }
}

/// The entry of a session that started in the month that begins on `first`.
pub open spec fn entry_of(
    s: StoreView,
    t: TrainingSessionView,
    first: int,
    now: u64,
) -> CalendarEntryView {
    CalendarEntryView {
        session_id: t.id,
        start_time: t.start_time,
        end_time: t.end_time,
        day: (day_of(t.start_time) - first + 1) as u32,
        seconds: run_time(t, now),
        program_name: match locate_block(s.programs, t.block_id) {
            Some((p, b)) => Some(s.programs[p].name),
            None => None,
        },
        block_name: match locate_block(s.programs, t.block_id) {
            Some((p, b)) => Some(s.programs[p].blocks[b].name),
            None => None,
        },
    }
}

/// The entries of the first `n` sessions that started in the month.
pub open spec fn month_entries(s: StoreView, n: int, first: int, days: int, now: u64) -> Seq<
    CalendarEntryView,
>
    decreases n,
{
    if n <= 0 {
        Seq::empty()
    } else {
        let before = month_entries(s, n - 1, first, days, now);
        if in_month(s.sessions[n - 1], first, days) {
            before.push(entry_of(s, s.sessions[n - 1], first, now))
        } else {
            before
        }
    }
}

/// Whether one of the first `n` sessions started on the day `day`.
pub open spec fn trained_on(s: StoreView, n: int, day: int) -> bool
    decreases n,
{
    if n <= 0 {
        false
    } else {
        day_of(s.sessions[n - 1].start_time) == day || trained_on(s, n - 1, day)
    }
}

/// The calendar of the month of `days` days that begins on the day `first`.
pub open spec fn month_calendar_spec(
    s: StoreView,
    year: i32,
    month: u32,
    first: int,
    days: u32,
    now: u64,
) -> MonthCalendarView {
    MonthCalendarView {
        year,
        month,
        first_weekday: weekday_of(first) as u32,
        days,
        trained: Seq::new(days as nat, |d: int| trained_on(s, s.sessions.len() as int, first + d)),
        entries: month_entries(s, s.sessions.len() as int, first, days as int, now),
    }
}

/// The month after a month.
pub open spec fn next_month(year: int, month: int) -> (int, int) {
    if month >= 12 {
        (year + 1, 1)
    } else {
        (year, month + 1)
    }
}

/// The first day of a month and the number of its days, as `chrono` counts
/// days, or `None` where the month is none of the twelve, `chrono` cannot hold
/// the month or the one after it, or the two first days are not 1 to 31 days
/// apart.
pub open spec fn month_extent(year: i32, month: u32) -> Option<(int, u32)> {
    if month < 1 || month > 12 || year == i32::MAX {
        None
    } else {
        let next = next_month(year as int, month as int);
        match (calendar_day(year as int, month as int, 1), calendar_day(next.0, next.1, 1)) {
            (Some(first), Some(after)) => if 1 <= after - first <= 31 {
                Some((first, (after - first) as u32))
            } else {
                None
            },
            _ => None,
        }
    }
}

fn has_session_on(store: &Store, day: i64) -> (yes: bool)
    ensures
        yes == trained_on(store@, store@.sessions.len() as int, day as int),
{
    let mut yes = false;
    let mut n: usize = 0;
    while n < store.sessions.len()
        invariant
            n <= store.sessions.len(),
            yes == trained_on(store@, n as int, day as int),
        decreases store.sessions.len() - n,
    {
        if day_of_time(store.sessions[n].start_time) == day {
            yes = true;
        }
        n += 1;
    }
    yes
}

/// The calendar of the month of `days` days that begins on the day `first`:
/// for each day whether a session started on it, and the sessions that
/// started in the month with their run times and the names of their programs
/// and blocks.
pub fn month_calendar_from(
    store: &Store,
    year: i32,
    month: u32,
    first: i32,
    days: u32,
    now: u64,
) -> (cal: MonthCalendar)
    ensures
        cal@ == month_calendar_spec(store@, year, month, first as int, days, now),
{
    let first64: i64 = first as i64;
    let mut trained: Vec<bool> = Vec::new();
    let mut d: u32 = 0;
    while d < days
        invariant
            d <= days,
            first64 == first,
            trained.len() == d,
            forall|k: int|
                0 <= k < d ==> trained@[k] == trained_on(
                    store@,
                    store@.sessions.len() as int,
                    first + k,
                ),
        decreases days - d,
    {
        trained.push(has_session_on(store, first64 + d as i64));
        d += 1;
    }
    let mut entries: Vec<CalendarEntry> = Vec::new();
    assert(entries.deep_view() =~= Seq::<CalendarEntryView>::empty());
    let mut n: usize = 0;
    while n < store.sessions.len()
        invariant
            n <= store.sessions.len(),
            first64 == first,
            entries.deep_view() == month_entries(store@, n as int, first as int, days as int, now),
        decreases store.sessions.len() - n,
    {
        let t = &store.sessions[n];
        let day = day_of_time(t.start_time);
        if first64 <= day && day < first64 + days as i64 {
            let end: u64 = match t.end_time {
                Some(e) => e,
                None => now,
            };
            let seconds: u64 = if end >= t.start_time {
                end - t.start_time
            } else {
                0
            };
            let at = find_block_by_id(&store.programs, t.block_id);
            let entry = CalendarEntry {
                session_id: t.id,
                start_time: t.start_time,
                end_time: t.end_time,
                day: (day - first64 + 1) as u32,
                seconds,
                program_name: match at {
                    Some((p, b)) => Some(store.programs[p].name.clone()),
                    None => None,
                },
                block_name: match at {
                    Some((p, b)) => Some(store.programs[p].blocks[b].name.clone()),
                    None => None,
                },
            };
            let ghost before = entries.deep_view();
            assert(entry.deep_view() =~~= entry_of(
                store@,
                store@.sessions[n as int],
                first as int,
                now,
            ));
            entries.push(entry);
            assert(entries.deep_view() =~= before.push(
                entry_of(store@, store@.sessions[n as int], first as int, now),
            ));
        }
        n += 1;
    }
    let cal = MonthCalendar {
        year,
        month,
        first_weekday: weekday(first64),
        days,
        trained,
        entries,
    };
    assert(cal@.trained =~= month_calendar_spec(
        store@,
        year,
        month,
        first as int,
        days,
        now,
    ).trained);
    cal
}

/// The first day of a month and the number of its days.
pub fn extent_of_month(year: i32, month: u32) -> (r: Option<(i32, u32)>)
    ensures
        match r {
            Some((first, days)) => month_extent(year, month) == Some((first as int, days)) && 1
                <= days <= 31,
            None => month_extent(year, month) is None,
        },
{
    if month < 1 || month > 12 || year == i32::MAX {
        return None;
    }
    let (next_year, next_month): (i32, u32) = if month >= 12 {
        (year + 1, 1)
    } else {
        (year, month + 1)
    };
    match (day_number(year, month, 1), day_number(next_year, next_month, 1)) {
        (Some(first), Some(after)) => {
            let apart: i64 = after as i64 - first as i64;
            if 1 <= apart && apart <= 31 {
                Some((first, apart as u32))
            } else {
                None
            }
        },
        _ => None,
    }
}

/// The calendar of a month: for each day whether a session started on it, and
/// the sessions that started in the month. A month that is none of the twelve
/// or that `chrono` cannot hold is refused as an invalid date.
pub fn month_calendar(store: &Store, year: i32, month: u32, now: u64) -> (r: Result<
    MonthCalendar,
    Error,
>)
    ensures
        match month_extent(year, month) {
            Some((first, days)) => r is Ok && r->Ok_0@ == month_calendar_spec(
                store@,
                year,
                month,
                first,
                days,
                now,
            ),
            None => r == Err::<MonthCalendar, Error>(Error::InvalidDate),
        },
{
    match extent_of_month(year, month) {
        Some((first, days)) => Ok(month_calendar_from(store, year, month, first, days, now)),
        None => Err(Error::InvalidDate),
    }
}

} // verus!
