//! Show and Log: a session laid out for display.

use crate::catalog::{find_block_by_id, find_prescription, locate_block, prescription_for};
use crate::dates::{day_of, day_of_time, parse_day, parsed_day};
use crate::error::Error;
use crate::history::{previous_set, previous_set_spec};
use crate::models::{
    Block, BlockView, PersonalRecord, ProgramExercise, ProgramExerciseView, SessionExercise,
    SessionExerciseView, SetReference, Store, StoreView, TrainingSession, TrainingSessionView,
};
use crate::pr::{authoritative, authoritative_record};
use crate::session::{find_active, name_of_exercise};
use crate::transitions::{active_session, exercise_name, LoggedSet};
use vstd::prelude::*;

verus! {

/// A share of a reference one-repetition maximum with the weight it comes to.
#[derive(Clone, Copy, Debug, PartialEq, Eq, Structural)]
pub struct PercentTarget {
    /// Tenths of a percent.
    pub share: u32,
    /// Grams, rounded down.
    pub weight: u64,
}

/// One slot of an exercise as it is shown.
#[derive(Clone, Debug, PartialEq, Eq)]
pub struct SetRow {
    /// The 1-based slot.
    pub slot: usize,
    pub target_reps: Option<String>,
    /// The target exertion, in tenths.
    pub target_rpe: Option<u32>,
    /// The target share of the reference maximum, where the prescription has
    /// a reference maximum.
    pub target_percent: Option<PercentTarget>,
    /// What was lifted at this slot in a completed session the last time.
    pub previous: Option<SetReference>,
    /// What was logged at this slot in the session shown.
    pub current: Option<LoggedSet>,
}

/// The view of a [`SetRow`].
#[verifier::ext_equal]
pub struct SetRowView {
    pub slot: usize,
    pub target_reps: Option<Seq<char>>,
    pub target_rpe: Option<u32>,
    pub target_percent: Option<PercentTarget>,
    pub previous: Option<SetReference>,
    pub current: Option<LoggedSet>,
}

impl DeepView for SetRow {
    type V = SetRowView;

    open spec fn deep_view(&self) -> SetRowView {
        SetRowView {
            slot: self.slot,
            target_reps: self.target_reps.deep_view(),
            target_rpe: self.target_rpe,
            target_percent: self.target_percent,
            previous: self.previous,
            current: self.current,
        }
    }
}

impl View for SetRow {
    type V = SetRowView;

    open spec fn view(&self) -> SetRowView {
        self.deep_view()
    }
}

/// One exercise of a session as it is shown.
#[derive(Clone, Debug, PartialEq, Eq)]
pub struct ExerciseReport {
    /// The 1-based place of the exercise in the session.
    pub index: usize,
    pub session_exercise_id: u128,
    pub exercise_id: u128,
    /// The name of the exercise, where the catalog still holds it.
    pub name: Option<String>,
    /// The record shown for the exercise.
    pub best: Option<PersonalRecord>,
    pub note: Option<String>,
    /// The set count that the block prescribes, or the fallback count.
    pub prescribed_sets: u32,
    pub rows: Vec<SetRow>,
}

/// The view of an [`ExerciseReport`].
#[verifier::ext_equal]
pub struct ExerciseReportView {
    pub index: usize,
    pub session_exercise_id: u128,
    pub exercise_id: u128,
    pub name: Option<Seq<char>>,
    pub best: Option<PersonalRecord>,
    pub note: Option<Seq<char>>,
    pub prescribed_sets: u32,
    pub rows: Seq<SetRowView>,
}

impl DeepView for ExerciseReport {
    type V = ExerciseReportView;

    open spec fn deep_view(&self) -> ExerciseReportView {
        ExerciseReportView {
            index: self.index,
            session_exercise_id: self.session_exercise_id,
            exercise_id: self.exercise_id,
            name: self.name.deep_view(),
            best: self.best,
            note: self.note.deep_view(),
            prescribed_sets: self.prescribed_sets,
            rows: self.rows.deep_view(),
        }
    }
}

impl View for ExerciseReport {
    type V = ExerciseReportView;

    open spec fn view(&self) -> ExerciseReportView {
        self.deep_view()
    }
}

/// A session as it is shown.
#[derive(Clone, Debug, PartialEq, Eq)]
pub struct SessionReport {
    pub session_id: u128,
    pub block_id: u128,
    /// The name of the block, where the programs still hold it.
    pub block_name: Option<String>,
    pub block_description: Option<String>,
    pub start_time: u64,
    pub end_time: Option<u64>,
    pub exercises: Vec<ExerciseReport>,
}

/// The view of a [`SessionReport`].
#[verifier::ext_equal]
pub struct SessionReportView {
    pub session_id: u128,
    pub block_id: u128,
    pub block_name: Option<Seq<char>>,
    pub block_description: Option<Seq<char>>,
    pub start_time: u64,
    pub end_time: Option<u64>,
    pub exercises: Seq<ExerciseReportView>,
}

impl View for SessionReport {
    type V = SessionReportView;

    open spec fn view(&self) -> SessionReportView {
        SessionReportView {
            session_id: self.session_id,
            block_id: self.block_id,
            block_name: self.block_name.deep_view(),
            block_description: self.block_description.deep_view(),
            start_time: self.start_time,
            end_time: self.end_time,
            exercises: self.exercises.deep_view(),
        }
    }
}

/// The block that a session is an instance of, where the programs hold it.
pub open spec fn block_of(s: StoreView, t: TrainingSessionView) -> Option<BlockView> {
    match locate_block(s.programs, t.block_id) {
        Some((p, b)) => Some(s.programs[p].blocks[b]),
        None => None,
    }
}

/// The prescription that a block has for an exercise.
pub open spec fn prescription_of(block: Option<BlockView>, exercise_id: u128) -> Option<
    ProgramExerciseView,
> {
    match block {
        Some(b) => match prescription_for(b, exercise_id) {
            Some(k) => Some(b.exercises[k]),
            None => None,
        },
        None => None,
    }
}

/// The weight that a share of a reference maximum comes to, in grams.
pub open spec fn share_weight(reference: u32, share: u32) -> nat {
    (reference as nat * share as nat) / 1000
}

/// The target exertion of 0-based slot `k` under a prescription.
pub open spec fn target_rpe_at(pe: Option<ProgramExerciseView>, k: int) -> Option<u32> {
    match pe {
        None => None,
        Some(pe) => if 0 <= k < pe.target_rpe.len() {
            Some(pe.target_rpe[k])
        } else {
            None
        },
    }
}

/// The target share of the reference maximum of 0-based slot `k` under a
/// prescription, with the weight it comes to; none where the prescription has
/// no reference maximum.
pub open spec fn target_percent_at(pe: Option<ProgramExerciseView>, k: int) -> Option<
    PercentTarget,
> {
    match pe {
        None => None,
        Some(pe) => if pe.program_1rm is Some && 0 <= k < pe.target_rm_percent.len() {
            Some(
                PercentTarget {
                    share: pe.target_rm_percent[k],
                    weight: share_weight(pe.program_1rm->0, pe.target_rm_percent[k]) as u64,
                },
            )
        } else {
            None
        },
    }
}

/// The repetition target of 0-based slot `k` under a prescription.
pub open spec fn target_reps_at(pe: Option<ProgramExerciseView>, k: int) -> Option<Seq<char>> {
    match pe {
        None => None,
        Some(pe) => if 0 <= k < pe.reps.len() {
            Some(pe.reps[k])
        } else {
            None
        },
    }
}

/// The number of slots shown for an exercise: the prescribed set count, or
/// the number of sets logged where that is more.
pub open spec fn row_count(prescribed: u32, logged: nat) -> nat {
    if logged > prescribed {
        logged
    } else {
        prescribed as nat
    }
}

/// The row of 0-based slot `k` of a session exercise.
pub open spec fn row_at(
    s: StoreView,
    x: SessionExerciseView,
    pe: Option<ProgramExerciseView>,
    k: int,
) -> SetRowView {
    SetRowView {
        slot: (k + 1) as usize,
        target_reps: target_reps_at(pe, k),
        target_rpe: target_rpe_at(pe, k),
        target_percent: target_percent_at(pe, k),
        previous: previous_set_spec(s, x.exercise_id, k),
        current: if 0 <= k < x.sets.len() {
            Some(
                LoggedSet {
                    weight: x.sets[k].weight,
                    reps: x.sets[k].reps,
                    bodyweight: x.sets[k].bodyweight,
                },
            )
        } else {
            None
        },
    }
}

/// The set count shown as prescribed for an exercise.
pub open spec fn shown_sets(s: StoreView, pe: Option<ProgramExerciseView>) -> u32 {
    match pe {
        Some(pe) => pe.sets,
        None => s.fallback_sets,
    }
}

/// Exercise `i` (0-based) of a session as it is shown.
pub open spec fn exercise_report(
    s: StoreView,
    block: Option<BlockView>,
    exercises: Seq<SessionExerciseView>,
    i: int,
) -> ExerciseReportView {
    let x = exercises[i];
    let pe = prescription_of(block, x.exercise_id);
    ExerciseReportView {
        index: (i + 1) as usize,
        session_exercise_id: x.id,
        exercise_id: x.exercise_id,
        name: exercise_name(s.exercises, x.exercise_id),
        best: authoritative(s.records, s.records.len() as int, x.exercise_id),
        note: x.note,
        prescribed_sets: shown_sets(s, pe),
        rows: Seq::new(
            row_count(shown_sets(s, pe), x.sets.len()),
            |k: int| row_at(s, x, pe, k),
        ),
    }
}

/// Session `a` as it is shown.
pub open spec fn session_report(s: StoreView, a: int) -> SessionReportView {
    let t = s.sessions[a];
    let block = block_of(s, t);
    SessionReportView {
        session_id: t.id,
        block_id: t.block_id,
        block_name: match block {
            Some(b) => Some(b.name),
            None => None,
        },
        block_description: match block {
            Some(b) => b.description,
            None => None,
        },
        start_time: t.start_time,
        end_time: t.end_time,
        exercises: Seq::new(
            t.exercises.len(),
            |i: int| exercise_report(s, block, t.exercises, i),
        ),
    }
}

/// Show: the session in progress as it is shown.
pub open spec fn show_spec(s: StoreView) -> Result<SessionReportView, Error> {
    match active_session(s) {
        None => Err(Error::NoActiveSession),
        Some(a) => Ok(session_report(s, a)),
    }
}

/// The completed session among the first `n` that started on `day` and
/// started last; of two that started at the same time, the later one.
pub open spec fn logged_on(sessions: Seq<TrainingSessionView>, n: int, day: int) -> Option<int>
    decreases n,
{
    if n <= 0 {
        None
    } else {
        let before = logged_on(sessions, n - 1, day);
        let t = sessions[n - 1];
        if t.end_time is Some && day_of(t.start_time) == day {
            match before {
                Some(i) if sessions[i].start_time > t.start_time => before,
                _ => Some(n - 1),
            }
        } else {
            before
        }
    }
}

/// Log for a day: the completed session that started on `day` last, as it is
/// shown.
pub open spec fn log_spec(s: StoreView, day: int) -> Result<SessionReportView, Error> {
    match logged_on(s.sessions, s.sessions.len() as int, day) {
        None => Err(Error::SessionNotFound),
        Some(i) => Ok(session_report(s, i)),
    }
}

/// What `logged_on` finds is a completed session that started on the day, and
/// none that started on the day started later; it finds nothing only where no
/// completed session started on the day.
pub proof fn lemma_logged_on(sessions: Seq<TrainingSessionView>, n: int, day: int)
    requires
        0 <= n <= sessions.len(),
    ensures
        match logged_on(sessions, n, day) {
            Some(i) => 0 <= i < n && sessions[i].end_time is Some && day_of(
                sessions[i].start_time,
            ) == day && forall|j: int|
                0 <= j < n && sessions[j].end_time is Some && day_of(
                    #[trigger] sessions[j].start_time,
                ) == day ==> sessions[j].start_time <= sessions[i].start_time,
            None => forall|j: int|
                0 <= j < n && sessions[j].end_time is Some ==> day_of(
                    #[trigger] sessions[j].start_time,
                ) != day,
        },
    decreases n,
{
    if n > 0 {
        lemma_logged_on(sessions, n - 1, day);
    }
}

fn target_rpe_for(pe: Option<&ProgramExercise>, k: usize) -> (t: Option<u32>)
    ensures
        t == target_rpe_at(pe.deep_view(), k as int),
{
    match pe {
        None => None,
        Some(pe) => {
            if k < pe.target_rpe.len() {
                Some(pe.target_rpe[k])
            } else {
                None
            }
        },
    }
}

fn target_percent_for(pe: Option<&ProgramExercise>, k: usize) -> (t: Option<PercentTarget>)
    ensures
        t == target_percent_at(pe.deep_view(), k as int),
{
    match pe {
        None => None,
        Some(pe) => {
            if pe.program_1rm.is_some() && k < pe.target_rm_percent.len() {
                let reference: u32 = pe.program_1rm.unwrap();
                let share: u32 = pe.target_rm_percent[k];
                assert((reference as u64) * (share as u64) <= 0xffff_ffff * 0xffff_ffff)
                    by (nonlinear_arith)
                    requires
                        reference <= 0xffff_ffff,
                        share <= 0xffff_ffff,
                ;
                Some(PercentTarget { share, weight: (reference as u64) * (share as u64) / 1000 })
            } else {
                None
            }
        },
    }
}

fn target_reps_for(pe: Option<&ProgramExercise>, k: usize) -> (t: Option<String>)
    ensures
        t.deep_view() == target_reps_at(pe.deep_view(), k as int),
{
    match pe {
        None => None,
        Some(pe) => {
            if k < pe.reps.len() {
                Some(pe.reps[k].clone())
            } else {
                None
            }
        },
    }
}

fn rows_for(store: &Store, x: &SessionExercise, pe: Option<&ProgramExercise>, shown: u32) -> (rows:
    Vec<SetRow>)
    ensures
        rows.deep_view() == Seq::new(
            row_count(shown, x.deep_view().sets.len()),
            |k: int| row_at(store@, x.deep_view(), pe.deep_view(), k),
        ),
{
    let ghost want = Seq::new(
        row_count(shown, x.deep_view().sets.len()),
        |k: int| row_at(store@, x.deep_view(), pe.deep_view(), k),
    );
    let count: usize = if x.sets.len() > shown as usize {
        x.sets.len()
    } else {
        shown as usize
    };
    let mut rows: Vec<SetRow> = Vec::new();
    let mut k: usize = 0;
    while k < count
        invariant
            k <= count,
            count == row_count(shown, x.deep_view().sets.len()),
            rows.len() == k,
            want == Seq::new(
                row_count(shown, x.deep_view().sets.len()),
                |k: int| row_at(store@, x.deep_view(), pe.deep_view(), k),
            ),
            forall|j: int| 0 <= j < k ==> rows.deep_view()[j] == want[j],
        decreases count - k,
    {
        let ghost before = rows.deep_view();
        let current = if k < x.sets.len() {
            Some(
                LoggedSet {
                    weight: x.sets[k].weight,
                    reps: x.sets[k].reps,
                    bodyweight: x.sets[k].bodyweight,
                },
            )
        } else {
            None
        };
        rows.push(
            SetRow {
                slot: k + 1,
                target_reps: target_reps_for(pe, k),
                target_rpe: target_rpe_for(pe, k),
                target_percent: target_percent_for(pe, k),
                previous: previous_set(store, x.exercise_id, k),
                current,
            },
        );
        assert(rows.deep_view()[k as int] =~~= want[k as int]);
        assert forall|j: int| 0 <= j < k implies rows.deep_view()[j] == want[j] by {
            assert(rows.deep_view()[j] == before[j]);
        }
        k += 1;
    }
    assert(rows.deep_view() =~~= want);
    rows
}

fn report_exercise(
    store: &Store,
    block: Option<&Block>,
    exercises: &Vec<SessionExercise>,
    i: usize,
) -> (r: ExerciseReport)
    requires
        i < exercises.len(),
    ensures
        r.deep_view() == exercise_report(
            store@,
            block.deep_view(),
            exercises.deep_view(),
            i as int,
        ),
{
    let x = &exercises[i];
    let pe: Option<&ProgramExercise> = match block {
        Some(b) => match find_prescription(&b.exercises, x.exercise_id) {
            Some(k) => Some(&b.exercises[k]),
            None => None,
        },
        None => None,
    };
    assert(pe.deep_view() == crate::report::prescription_of(block.deep_view(), x.exercise_id));
    let shown: u32 = match pe {
        Some(pe) => pe.sets,
        None => store.fallback_sets,
    };
    let note = crate::text::clone_text(&x.note);
    let r = ExerciseReport {
        index: i + 1,
        session_exercise_id: x.id,
        exercise_id: x.exercise_id,
        name: name_of_exercise(&store.exercises, x.exercise_id),
        best: authoritative_record(&store.records, x.exercise_id),
        note,
        prescribed_sets: shown,
        rows: rows_for(store, x, pe, shown),
    };
    assert(r.deep_view() =~~= exercise_report(
        store@,
        block.deep_view(),
        exercises.deep_view(),
        i as int,
    ));
    r
}

/// Lays out session `a` of the store for display.
pub fn report_session(store: &Store, a: usize) -> (r: SessionReport)
    requires
        a < store.sessions.len(),
    ensures
        r@ == session_report(store@, a as int),
{
    let t = &store.sessions[a];
    let block: Option<&Block> = match find_block_by_id(&store.programs, t.block_id) {
        Some((p, b)) => Some(&store.programs[p].blocks[b]),
        None => None,
    };
    assert(block.deep_view() == block_of(store@, store@.sessions[a as int]));
    let ghost want = session_report(store@, a as int);
    let mut exercises: Vec<ExerciseReport> = Vec::new();
    let mut i: usize = 0;
    while i < t.exercises.len()
        invariant
            i <= t.exercises.len(),
            exercises.len() == i,
            a < store.sessions.len(),
            t == &store.sessions[a as int],
            block.deep_view() == block_of(store@, store@.sessions[a as int]),
            want == session_report(store@, a as int),
            forall|j: int| 0 <= j < i ==> exercises.deep_view()[j] == want.exercises[j],
        decreases t.exercises.len() - i,
    {
        let ghost before = exercises.deep_view();
        let one = report_exercise(store, block, &t.exercises, i);
        exercises.push(one);
        assert(exercises.deep_view()[i as int] == want.exercises[i as int]);
        assert forall|j: int| 0 <= j < i implies exercises.deep_view()[j] == want.exercises[j] by {
            assert(exercises.deep_view()[j] == before[j]);
        }
        i += 1;
    }
    let block_name = match block {
        Some(b) => Some(b.name.clone()),
        None => None,
    };
    let block_description = match block {
        Some(b) => crate::text::clone_text(&b.description),
        None => None,
    };
    let r = SessionReport {
        session_id: t.id,
        block_id: t.block_id,
        block_name,
        block_description,
        start_time: t.start_time,
        end_time: t.end_time,
        exercises,
    };
    assert(r@ =~~= want);
    r
}

/// Show: lays out the session in progress for display. Each exercise comes
/// with its name, the record shown for it, its note, and one row for every
/// slot up to the prescribed set count, or up to the number of sets logged
/// where that is more. A row holds the targets of the prescription for the
/// slot, what was lifted at the slot in a completed session the last time,
/// and what is logged at the slot now. The store is not changed.
pub fn show_session(store: &Store) -> (r: Result<SessionReport, Error>)
    ensures
        match show_spec(store@) {
            Ok(report) => r is Ok && r->Ok_0@ == report,
            Err(e) => r == Err::<SessionReport, Error>(e),
        },
{
    match find_active(&store.sessions) {
        Some(a) => Ok(report_session(store, a)),
        None => Err(Error::NoActiveSession),
    }
}

/// Finds the completed session that started on `day` last.
pub fn find_logged_on(sessions: &Vec<TrainingSession>, day: i64) -> (found: Option<usize>)
    ensures
        match found {
            Some(i) => logged_on(sessions.deep_view(), sessions.len() as int, day as int) == Some(
                i as int,
            ) && i < sessions.len(),
            None => logged_on(sessions.deep_view(), sessions.len() as int, day as int) is None,
        },
{
    let mut found: Option<usize> = None;
    let mut n: usize = 0;
    while n < sessions.len()
        invariant
            n <= sessions.len(),
            match found {
                Some(i) => logged_on(sessions.deep_view(), n as int, day as int) == Some(i as int)
                    && i < n,
                None => logged_on(sessions.deep_view(), n as int, day as int) is None,
            },
        decreases sessions.len() - n,
    {
        if sessions[n].end_time.is_some() && day_of_time(sessions[n].start_time) == day {
            match found {
                Some(i) => {
                    if !(sessions[i].start_time > sessions[n].start_time) {
                        found = Some(n);
                    }
                },
                None => {
                    found = Some(n);
                },
            }
        }
        n += 1;
    }
    found
}

/// Log for a day given by its number: lays out for display the completed
/// session that started on that day last.
pub fn session_log_on(store: &Store, day: i64) -> (r: Result<SessionReport, Error>)
    ensures
        match log_spec(store@, day as int) {
            Ok(report) => r is Ok && r->Ok_0@ == report,
            Err(e) => r == Err::<SessionReport, Error>(e),
        },
{
    match find_logged_on(&store.sessions, day) {
        Some(i) => Ok(report_session(store, i)),
        None => Err(Error::SessionNotFound),
    }
}

/// Log: lays out for display the completed session that started last on the
/// day that `date` writes as day, month and year with hyphens between them.
/// A text that `chrono` reads no day from is refused as an invalid date.
pub fn session_log(store: &Store, date: &str) -> (r: Result<SessionReport, Error>)
    ensures
        match parsed_day(date@, "%d-%m-%Y"@) {
            None => r == Err::<SessionReport, Error>(Error::InvalidDate),
            Some(day) => match log_spec(store@, day) {
                Ok(report) => r is Ok && r->Ok_0@ == report,
                Err(e) => r == Err::<SessionReport, Error>(e),
            },
        },
{
    match parse_day(date, "%d-%m-%Y") {
        Ok(day) => session_log_on(store, day as i64),
        Err(_) => Err(Error::InvalidDate),
    }
}

/// The seconds that the session in progress has run at the time `now`; none
/// where `now` lies before its start.
pub open spec fn elapsed_spec(s: StoreView, now: u64) -> Result<u64, Error> {
    match active_session(s) {
        None => Err(Error::NoActiveSession),
        Some(a) => Ok(
            if now >= s.sessions[a].start_time {
                (now - s.sessions[a].start_time) as u64
            } else {
                0
            },
        ),
    }
}

/// The seconds that the session in progress has run at the time `now`.
pub fn elapsed(store: &Store, now: u64) -> (r: Result<u64, Error>)
    ensures
        r == elapsed_spec(store@, now),
{
    match find_active(&store.sessions) {
        Some(a) => {
            let start = store.sessions[a].start_time;
            if now >= start {
                Ok(now - start)
            } else {
                Ok(0)
            }
        },
        None => Err(Error::NoActiveSession),
    }
}

/// The time that the session in progress has run at the time `now`, as hours,
/// minutes and seconds.
pub fn show_timer(store: &Store, now: u64) -> (r: Result<String, Error>)
    ensures
        match elapsed_spec(store@, now) {
            Ok(seconds) => r is Ok && r->Ok_0@ == crate::utils::duration_text(seconds as nat),
            Err(e) => r == Err::<String, Error>(e),
        },
{
    match elapsed(store, now) {
        Ok(seconds) => Ok(crate::utils::format_duration(seconds)),
        Err(e) => Err(e),
    }
}

} // verus!
