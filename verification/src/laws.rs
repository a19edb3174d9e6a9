//! What holds of the session state machine as a whole.
//!
//! The theorems here speak of the transition functions of [`crate::transitions`],
//! which the commands of [`crate::session`] are proved to compute.

use crate::catalog::{block_ids, locate_block, locate_block_from, prescription_for};
use crate::commands::handle_spec;
use crate::lookup::lemma_position_from;
use crate::models::{
    ExerciseSetView, PersonalRecord, ProgramView, SessionExerciseView, StoreView,
    TrainingSessionView,
};
use crate::models::ProgramExerciseView;
use crate::pr::{
    best_on_track, candidate_metric, is_new_record, lemma_epley_bound, record_metric, record_of,
    same_track, Candidate,
};
use crate::pr::authoritative;
use crate::pr::better_candidate;
use crate::refs::{parse_load, reference_of};
use crate::report::show_spec;
use crate::transitions::{
    active_count, active_from, active_session, add_exercise_spec, at_most_one_active, cancel_spec,
    candidate_of, display_order, edit_spec, end_spec, lemma_order_place, lemma_settle_records,
    note_spec, order_place_from, session_candidate, sessions_have_blocks, set_candidates,
    set_target, settle_records, start_spec, start_target, swap_spec, with_record,
    with_session_exercise, written_set,
};
use vstd::prelude::*;

verus! {

/// What `active_from` finds is the first session in progress at or after `i`,
/// and it finds nothing only where every session from `i` on has ended.
pub proof fn lemma_active_from(sessions: Seq<TrainingSessionView>, i: int)
    requires
        0 <= i,
    ensures
        match active_from(sessions, i) {
            Some(a) => i <= a < sessions.len() && sessions[a].end_time is None && forall|j: int|
                i <= j < a ==> (#[trigger] sessions[j]).end_time is Some,
            None => forall|j: int| i <= j < sessions.len()
                ==> (#[trigger] sessions[j]).end_time is Some,
        },
    decreases sessions.len() - i,
{
    if i < sessions.len() && sessions[i].end_time is Some {
        lemma_active_from(sessions, i + 1);
    }
}

/// A session in progress at `a` with none before it from `i` on is found.
pub proof fn lemma_active_found(sessions: Seq<TrainingSessionView>, i: int, a: int)
    requires
        0 <= i <= a < sessions.len(),
        sessions[a].end_time is None,
        forall|j: int| i <= j < a ==> (#[trigger] sessions[j]).end_time is Some,
    ensures
        active_from(sessions, i) == Some(a),
    decreases a - i,
{
    if i < a {
        lemma_active_found(sessions, i + 1, a);
    }
}

/// Whether two lists of sessions agree on which sessions have ended.
pub open spec fn same_end_times(x: Seq<TrainingSessionView>, y: Seq<TrainingSessionView>) -> bool {
    x.len() == y.len() && forall|i: int|
        0 <= i < x.len() ==> (#[trigger] x[i]).end_time == (#[trigger] y[i]).end_time
}

/// The session in progress is the same in two lists that agree on which
/// sessions have ended.
pub proof fn lemma_same_active(x: Seq<TrainingSessionView>, y: Seq<TrainingSessionView>, i: int)
    requires
        same_end_times(x, y),
        0 <= i,
    ensures
        active_from(x, i) == active_from(y, i),
    decreases x.len() - i,
{
    if i < x.len() {
        assert(x[i].end_time == y[i].end_time);
        if x[i].end_time is Some {
            lemma_same_active(x, y, i + 1);
        }
    }
}

proof fn lemma_same_end_times_single(x: StoreView, y: StoreView)
    requires
        same_end_times(x.sessions, y.sessions),
        at_most_one_active(x),
    ensures
        at_most_one_active(y),
{
    assert forall|i: int, j: int|
        0 <= i < y.sessions.len() && 0 <= j < y.sessions.len() && y.sessions[i].end_time is None
            && y.sessions[j].end_time is None implies i == j by {
        assert(x.sessions[i].end_time == y.sessions[i].end_time);
        assert(x.sessions[j].end_time == y.sessions[j].end_time);
    }
}

/// At most one session is in progress after a start, where at most one was
/// before: a start is refused while a session is in progress.
pub proof fn start_keeps_one_active(
    s: StoreView,
    program: Seq<char>,
    block: Seq<char>,
    now: u64,
    session_id: u128,
    ids: Seq<u128>,
)
    requires
        at_most_one_active(s),
    ensures
        match start_spec(s, program, block, now, session_id, ids) {
            Ok((after, _)) => at_most_one_active(after) && active_session(s) is None
                && active_session(after) == Some(s.sessions.len() as int),
            Err(_) => true,
        },
{
    match start_spec(s, program, block, now, session_id, ids) {
        Ok((after, _)) => {
            lemma_active_from(s.sessions, 0);
            assert forall|j: int| 0 <= j < s.sessions.len() implies
                (#[trigger] after.sessions[j]).end_time is Some by {
                assert(after.sessions[j] == s.sessions[j]);
            }
            lemma_active_found(after.sessions, 0, s.sessions.len() as int);
        },
        Err(_) => {},
    }
}

/// At most one session is in progress after an edit, where at most one was
/// before, and it is the same session.
pub proof fn edit_keeps_one_active(
    s: StoreView,
    exercise: usize,
    weight: Seq<char>,
    reps: u32,
    set_index: Option<usize>,
    now: u64,
    new_id: u128,
)
    ensures
        match edit_spec(s, exercise, weight, reps, set_index, now, new_id) {
            Ok((after, _)) => same_end_times(s.sessions, after.sessions) && active_session(after)
                == active_session(s) && (at_most_one_active(s) ==> at_most_one_active(after)),
            Err(_) => true,
        },
{
    match edit_spec(s, exercise, weight, reps, set_index, now, new_id) {
        Ok((after, _)) => {
            lemma_active_from(s.sessions, 0);
            assert(same_end_times(s.sessions, after.sessions));
            lemma_same_active(s.sessions, after.sessions, 0);
            if at_most_one_active(s) {
                lemma_same_end_times_single(s, after);
            }
        },
        Err(_) => {},
    }
}

/// At most one session is in progress after a swap, where at most one was
/// before.
pub proof fn swap_keeps_one_active(
    s: StoreView,
    exercise: usize,
    new_exercise: Seq<char>,
    new_id: u128,
)
    ensures
        match swap_spec(s, exercise, new_exercise, new_id) {
            Ok((after, _)) => same_end_times(s.sessions, after.sessions) && active_session(after)
                == active_session(s) && (at_most_one_active(s) ==> at_most_one_active(after)),
            Err(_) => true,
        },
{
    match swap_spec(s, exercise, new_exercise, new_id) {
        Ok((after, _)) => {
            lemma_active_from(s.sessions, 0);
            assert(same_end_times(s.sessions, after.sessions));
            lemma_same_active(s.sessions, after.sessions, 0);
            if at_most_one_active(s) {
                lemma_same_end_times_single(s, after);
            }
        },
        Err(_) => {},
    }
}

/// At most one session is in progress after an exercise was added, where at
/// most one was before.
pub proof fn add_exercise_keeps_one_active(
    s: StoreView,
    exercise: Seq<char>,
    sets: u32,
    new_id: u128,
)
    ensures
        match add_exercise_spec(s, exercise, sets, new_id) {
            Ok((after, _)) => same_end_times(s.sessions, after.sessions) && active_session(after)
                == active_session(s) && (at_most_one_active(s) ==> at_most_one_active(after)),
            Err(_) => true,
        },
{
    match add_exercise_spec(s, exercise, sets, new_id) {
        Ok((after, _)) => {
            lemma_active_from(s.sessions, 0);
            assert(same_end_times(s.sessions, after.sessions));
            lemma_same_active(s.sessions, after.sessions, 0);
            if at_most_one_active(s) {
                lemma_same_end_times_single(s, after);
            }
        },
        Err(_) => {},
    }
}

/// At most one session is in progress after a note was set, where at most one
/// was before.
pub proof fn note_keeps_one_active(s: StoreView, exercise: usize, text: Seq<char>)
    ensures
        match note_spec(s, exercise, text) {
            Ok((after, _)) => same_end_times(s.sessions, after.sessions) && active_session(after)
                == active_session(s) && (at_most_one_active(s) ==> at_most_one_active(after)),
            Err(_) => true,
        },
{
    match note_spec(s, exercise, text) {
        Ok((after, _)) => {
            lemma_active_from(s.sessions, 0);
            assert(same_end_times(s.sessions, after.sessions));
            lemma_same_active(s.sessions, after.sessions, 0);
            if at_most_one_active(s) {
                lemma_same_end_times_single(s, after);
            }
        },
        Err(_) => {},
    }
}

/// No session is in progress after a cancel, where at most one was before.
pub proof fn cancel_leaves_none_active(s: StoreView)
    requires
        at_most_one_active(s),
    ensures
        match cancel_spec(s) {
            Ok((after, _)) => at_most_one_active(after) && active_session(after) is None,
            Err(_) => true,
        },
{
    match cancel_spec(s) {
        Ok((after, _)) => {
            lemma_active_from(s.sessions, 0);
            let a = active_session(s)->0;
            assert forall|j: int| 0 <= j < after.sessions.len() implies
                (#[trigger] after.sessions[j]).end_time is Some by {
                if j < a {
                    assert(after.sessions[j] == s.sessions[j]);
                } else {
                    assert(after.sessions[j] == s.sessions[j + 1]);
                    if s.sessions[j + 1].end_time is None {
                        assert(j + 1 == a);
                    }
                }
            }
            lemma_active_from(after.sessions, 0);
        },
        Err(_) => {},
    }
}

/// No session is in progress after an end, where at most one was before.
pub proof fn end_leaves_none_active(s: StoreView, now: u64)
    requires
        at_most_one_active(s),
    ensures
        match end_spec(s, now) {
            Ok((after, _)) => at_most_one_active(after) && active_session(after) is None,
            Err(_) => true,
        },
{
    match end_spec(s, now) {
        Ok((after, _)) => {
            lemma_active_from(s.sessions, 0);
            let a = active_session(s)->0;
            lemma_settle_records(
                s,
                s.sessions[a].exercises,
                s.sessions[a].exercises.len() as int,
                now,
            );
            assert forall|j: int| 0 <= j < after.sessions.len() implies
                (#[trigger] after.sessions[j]).end_time is Some by {
                if j != a {
                    assert(after.sessions[j] == s.sessions[j]);
                    if s.sessions[j].end_time is None {
                        assert(j == a);
                    }
                }
            }
            lemma_active_from(after.sessions, 0);
        },
        Err(_) => {},
    }
}

/// Whether the sets of a session exercise stand in the order of their times.
pub open spec fn sets_chronological(sets: Seq<ExerciseSetView>) -> bool {
    forall|i: int, j: int|
        0 <= i <= j < sets.len()
            ==> (#[trigger] sets[i]).timestamp <= (#[trigger] sets[j]).timestamp
}

/// An edit with a set index touches no other row: every other set of the
/// exercise stays the row it was at the slot it had, a row that is
/// overwritten keeps its identity, a new row goes behind the rows that are
/// there, and every other exercise of every session is left as it was.
pub proof fn edit_keeps_other_slots(
    s: StoreView,
    exercise: usize,
    weight: Seq<char>,
    reps: u32,
    n: usize,
    now: u64,
    new_id: u128,
)
    requires
        edit_spec(s, exercise, weight, reps, Some(n), now, new_id) is Ok,
    ensures
        ({
            let after = edit_spec(s, exercise, weight, reps, Some(n), now, new_id)->Ok_0.0;
            let a = active_session(s)->0;
            let e = exercise - 1;
            let before_sets = s.sessions[a].exercises[e].sets;
            let after_sets = after.sessions[a].exercises[e].sets;
            &&& 0 <= a < s.sessions.len()
            &&& 0 <= e < s.sessions[a].exercises.len()
            &&& 1 <= n
            &&& after.sessions.len() == s.sessions.len()
            &&& after.sessions[a].exercises.len() == s.sessions[a].exercises.len()
            &&& after_sets.len() == if n <= before_sets.len() {
                before_sets.len()
            } else {
                before_sets.len() + 1
            }
            &&& forall|k: int|
                0 <= k < before_sets.len() && k != n - 1 ==> after_sets[k] == before_sets[k]
            &&& n <= before_sets.len() ==> after_sets[n - 1].id == before_sets[n - 1].id
            &&& n > before_sets.len() ==> after_sets[before_sets.len() as int].id == new_id
            &&& forall|i: int|
                0 <= i < s.sessions.len() && i != a ==> after.sessions[i] == s.sessions[i]
            &&& forall|j: int|
                0 <= j < s.sessions[a].exercises.len() && j != e ==> after.sessions[a].exercises[j]
                    == s.sessions[a].exercises[j]
        }),
{
    lemma_active_from(s.sessions, 0);
}

/// The sets of an exercise still stand in the order of their times after an
/// edit, where they did before and the time of the edit is none before the
/// time of the set in front of the written slot and none after the time of the
/// set behind it.
pub proof fn edit_keeps_sets_chronological(
    s: StoreView,
    exercise: usize,
    weight: Seq<char>,
    reps: u32,
    set_index: Option<usize>,
    now: u64,
    new_id: u128,
)
    requires
        edit_spec(s, exercise, weight, reps, set_index, now, new_id) is Ok,
        ({
            let sets = s.sessions[active_session(s)->0].exercises[exercise - 1].sets;
            let k = set_target(sets.len(), set_index)->0;
            &&& sets_chronological(sets)
            &&& 0 < k ==> sets[k - 1].timestamp <= now
            &&& k + 1 < sets.len() ==> now <= sets[k + 1].timestamp
        }),
    ensures
        sets_chronological(
            edit_spec(
                s,
                exercise,
                weight,
                reps,
                set_index,
                now,
                new_id,
            )->Ok_0.0.sessions[active_session(s)->0].exercises[exercise - 1].sets,
        ),
{
    lemma_active_from(s.sessions, 0);
    let a = active_session(s)->0;
    let e = exercise - 1;
    let sets = s.sessions[a].exercises[e].sets;
    let k = set_target(sets.len(), set_index)->0;
    let after = edit_spec(s, exercise, weight, reps, set_index, now, new_id)->Ok_0.0;
    let after_sets = after.sessions[a].exercises[e].sets;
    assert forall|i: int, j: int| 0 <= i <= j < after_sets.len() implies
        (#[trigger] after_sets[i]).timestamp
        <= (#[trigger] after_sets[j]).timestamp by {
        if i != k {
            assert(after_sets[i] == sets[i]);
        }
        if j != k {
            assert(after_sets[j] == sets[j]);
        }
        if i < k {
            assert(sets[i].timestamp <= sets[k - 1].timestamp);
        }
        if j > k {
            assert(sets[k + 1].timestamp <= sets[j].timestamp);
        }
    }
}

/// The best figure on a track is the figure of a record on the track and no
/// record on the track has a higher one; there is none only where the track
/// has no record.
pub proof fn lemma_best_on_track(
    records: Seq<PersonalRecord>,
    n: int,
    exercise_id: u128,
    weight: u32,
)
    requires
        0 <= n <= records.len(),
    ensures
        match best_on_track(records, n, exercise_id, weight) {
            Some(m) => (exists|i: int|
                0 <= i < n && same_track(#[trigger] records[i], exercise_id, weight)
                    && record_metric(records[i]) == m) && forall|i: int|
                0 <= i < n && same_track(#[trigger] records[i], exercise_id, weight)
                    ==> record_metric(records[i]) <= m,
            None => forall|i: int|
                0 <= i < n ==> !same_track(#[trigger] records[i], exercise_id, weight),
        },
    decreases n,
{
    if n > 0 {
        lemma_best_on_track(records, n - 1, exercise_id, weight);
        let before = best_on_track(records, n - 1, exercise_id, weight);
        let now = best_on_track(records, n, exercise_id, weight);
        if now is Some {
            let m = now->0;
            if same_track(records[n - 1], exercise_id, weight) && record_metric(records[n - 1])
                == m {
                assert(same_track(records[n - 1], exercise_id, weight));
            } else {
                let i = choose|i: int|
                    0 <= i < n - 1 && same_track(#[trigger] records[i], exercise_id, weight)
                        && record_metric(records[i]) == m;
                assert(0 <= i < n && same_track(records[i], exercise_id, weight));
            }
        }
    }
}

/// A record that a candidate becomes lies on the track of the candidate and
/// has its figure.
pub proof fn lemma_record_of(exercise_id: u128, c: Candidate, now: u64)
    ensures
        same_track(record_of(exercise_id, c, now), exercise_id, c.weight),
        record_metric(record_of(exercise_id, c, now)) == candidate_metric(c),
{
    lemma_epley_bound(c.weight, c.reps);
}

/// A candidate that was written as a record is no new record any more: only
/// a strict improvement is one.
pub proof fn lemma_written_is_no_record(
    records: Seq<PersonalRecord>,
    exercise_id: u128,
    c: Candidate,
    now: u64,
)
    ensures
        !is_new_record(records.push(record_of(exercise_id, c, now)), exercise_id, c),
{
    let log = records.push(record_of(exercise_id, c, now));
    lemma_record_of(exercise_id, c, now);
    lemma_best_on_track(log, log.len() as int, exercise_id, c.weight);
    assert(log[log.len() - 1] == record_of(exercise_id, c, now));
    assert(same_track(log[log.len() - 1], exercise_id, c.weight));
}

/// An edit with the set index of a slot that the exercise has, or of the
/// next free slot, made a second time with the same arguments, overwrites the
/// row it wrote the first time and writes no record: the store differs from
/// the store after the first edit in the time on that row alone, and not at
/// all where the two edits are made at the same time.
pub proof fn edit_twice_is_edit_once(
    s: StoreView,
    exercise: usize,
    weight: Seq<char>,
    reps: u32,
    n: usize,
    now: u64,
    new_id: u128,
    later: u64,
    other_id: u128,
)
    requires
        edit_spec(s, exercise, weight, reps, Some(n), now, new_id) is Ok,
        n <= s.sessions[active_session(s)->0].exercises[exercise - 1].sets.len() + 1,
    ensures
        ({
            let once = edit_spec(s, exercise, weight, reps, Some(n), now, new_id)->Ok_0;
            let twice = edit_spec(once.0, exercise, weight, reps, Some(n), later, other_id);
            let a = active_session(s)->0;
            let x = once.0.sessions[a].exercises[exercise - 1];
            &&& twice is Ok
            &&& !twice->Ok_0.1.inserted
            &&& !twice->Ok_0.1.is_pr
            &&& twice->Ok_0.1.set_number == once.1.set_number
            &&& twice->Ok_0.1.set_id == once.1.set_id
            &&& twice->Ok_0.0 == with_session_exercise(
                once.0,
                a,
                exercise - 1,
                SessionExerciseView {
                    sets: x.sets.update(
                        n - 1,
                        ExerciseSetView { timestamp: later, ..x.sets[n - 1] },
                    ),
                    ..x
                },
            )
            &&& later == now ==> twice->Ok_0.0 == once.0
        }),
{
    lemma_active_from(s.sessions, 0);
    edit_keeps_one_active(s, exercise, weight, reps, Some(n), now, new_id);
    let once = edit_spec(s, exercise, weight, reps, Some(n), now, new_id)->Ok_0;
    let mid = once.0;
    let a = active_session(s)->0;
    let e = exercise - 1;
    let x0 = s.sessions[a].exercises[e];
    let x = mid.sessions[a].exercises[e];
    let load = parse_load(weight)->0;
    let k = n - 1;
    let row = x.sets[k];
    assert(row == written_set(
        if k >= x0.sets.len() {
            None
        } else {
            Some(x0.sets[k])
        },
        new_id,
        load,
        reps,
        now,
    ));
    let again = written_set(Some(row), other_id, load, reps, later);
    assert(again == ExerciseSetView { timestamp: later, ..row });
    let c = candidate_of(row);
    assert(candidate_of(again) == c);
    if once.1.is_pr {
        lemma_written_is_no_record(s.records, x0.exercise_id, c, now);
        assert(mid.records == s.records.push(record_of(x0.exercise_id, c, now)));
    } else {
        assert(mid.records == s.records);
    }
    assert(!(!again.ignore_for_one_rm && is_new_record(mid.records, x.exercise_id, c)));
    let twice = edit_spec(mid, exercise, weight, reps, Some(n), later, other_id);
    assert(twice is Ok);
    let want = with_session_exercise(
        mid,
        a,
        e,
        SessionExerciseView { sets: x.sets.update(k, again), ..x },
    );
    assert(twice->Ok_0.0 == want);
    if later == now {
        assert(again == row);
        assert(x.sets.update(k, again) =~= x.sets);
        assert(mid.sessions[a].exercises.update(e, x) =~= mid.sessions[a].exercises);
        assert(mid.sessions.update(a, mid.sessions[a]) =~= mid.sessions);
        assert(want =~~= mid);
    }
}

/// Whether the figures of the record log rise: of two records of one exercise
/// on one track the later written has the strictly higher figure, the
/// estimate on the weighted track and the repetitions on the bodyweight
/// track.
pub open spec fn records_rise(records: Seq<PersonalRecord>) -> bool {
    forall|i: int, j: int|
        0 <= i < j < records.len() && same_track(
            #[trigger] records[j],
            (#[trigger] records[i]).exercise_id,
            records[i].weight,
        ) ==> record_metric(records[i]) < record_metric(records[j])
}

/// Whether the dates of the record log never fall.
pub open spec fn records_dated_in_order(records: Seq<PersonalRecord>) -> bool {
    forall|i: int, j: int|
        0 <= i <= j < records.len() ==> (#[trigger] records[i]).date <= (#[trigger] records[j]).date
}

/// Writing a candidate that is a new record keeps the figures of the log
/// rising.
pub proof fn lemma_new_record_rises(
    records: Seq<PersonalRecord>,
    exercise_id: u128,
    c: Candidate,
    now: u64,
)
    requires
        records_rise(records),
        is_new_record(records, exercise_id, c),
    ensures
        records_rise(records.push(record_of(exercise_id, c, now))),
{
    let log = records.push(record_of(exercise_id, c, now));
    lemma_record_of(exercise_id, c, now);
    lemma_best_on_track(records, records.len() as int, exercise_id, c.weight);
    assert forall|i: int, j: int|
        0 <= i < j < log.len() && same_track(
            #[trigger] log[j],
            (#[trigger] log[i]).exercise_id,
            log[i].weight,
        ) implies record_metric(log[i]) < record_metric(log[j]) by {
        if j < records.len() {
            assert(log[i] == records[i] && log[j] == records[j]);
        } else {
            assert(log[i] == records[i]);
            assert(same_track(records[i], exercise_id, c.weight));
        }
    }
}

/// The figures of the record log still rise after an edit, where they did
/// before: a record is written on a strict improvement only.
pub proof fn edit_keeps_records_rising(
    s: StoreView,
    exercise: usize,
    weight: Seq<char>,
    reps: u32,
    set_index: Option<usize>,
    now: u64,
    new_id: u128,
)
    requires
        records_rise(s.records),
    ensures
        match edit_spec(s, exercise, weight, reps, set_index, now, new_id) {
            Ok((after, logged)) => {
                &&& records_rise(after.records)
                &&& logged.is_pr ==> after.records.len() == s.records.len() + 1
                &&& !logged.is_pr ==> after.records == s.records
            },
            Err(_) => true,
        },
{
    match edit_spec(s, exercise, weight, reps, set_index, now, new_id) {
        Ok((after, logged)) => {
            lemma_active_from(s.sessions, 0);
            let a = active_session(s)->0;
            let x = s.sessions[a].exercises[exercise - 1];
            let k = set_target(x.sets.len(), set_index)->0;
            let row = after.sessions[a].exercises[exercise - 1].sets[k];
            if logged.is_pr {
                lemma_new_record_rises(s.records, x.exercise_id, candidate_of(row), now);
            }
        },
        Err(_) => {},
    }
}

/// The figures of the record log still rise after the records of a session
/// were settled, where they did before.
pub proof fn lemma_settle_keeps_records_rising(
    s: StoreView,
    exercises: Seq<SessionExerciseView>,
    n: int,
    now: u64,
)
    requires
        records_rise(s.records),
    ensures
        records_rise(settle_records(s, exercises, n, now).records),
    decreases n,
{
    if n > 0 {
        lemma_settle_keeps_records_rising(s, exercises, n - 1, now);
        let before = settle_records(s, exercises, n - 1, now);
        let id = exercises[n - 1].exercise_id;
        match crate::transitions::session_candidate(exercises, exercises.len() as int, id) {
            Some(c) => {
                if is_new_record(before.records, id, c) {
                    lemma_new_record_rises(before.records, id, c, now);
                }
            },
            None => {},
        }
    }
}

/// The figures of the record log still rise after an end, where they did
/// before.
pub proof fn end_keeps_records_rising(s: StoreView, now: u64)
    requires
        records_rise(s.records),
    ensures
        match end_spec(s, now) {
            Ok((after, _)) => records_rise(after.records),
            Err(_) => true,
        },
{
    match end_spec(s, now) {
        Ok((after, _)) => {
            let a = active_session(s)->0;
            lemma_settle_keeps_records_rising(
                s,
                s.sessions[a].exercises,
                s.sessions[a].exercises.len() as int,
                now,
            );
        },
        Err(_) => {},
    }
}

/// In a log whose figures rise and whose dates never fall, of two records of
/// one exercise on one track the one with the later date has the strictly
/// higher figure.
pub proof fn records_rise_by_date(records: Seq<PersonalRecord>, i: int, j: int)
    requires
        records_rise(records),
        records_dated_in_order(records),
        0 <= i < records.len(),
        0 <= j < records.len(),
        same_track(records[j], records[i].exercise_id, records[i].weight),
        records[i].date < records[j].date,
    ensures
        record_metric(records[i]) < record_metric(records[j]),
{
    if j <= i {
        assert(records[j].date <= records[i].date);
    }
}

/// The dates of the record log still never fall after a record was written at
/// a time that is none before the dates in the log.
pub proof fn lemma_dated_in_order(
    records: Seq<PersonalRecord>,
    exercise_id: u128,
    c: Candidate,
    now: u64,
)
    requires
        records_dated_in_order(records),
        forall|i: int| 0 <= i < records.len() ==> (#[trigger] records[i]).date <= now,
    ensures
        records_dated_in_order(records.push(record_of(exercise_id, c, now))),
        forall|i: int|
            0 <= i < records.len() + 1 ==> (#[trigger] records.push(
                record_of(exercise_id, c, now),
            )[i]).date <= now,
{
    let log = records.push(record_of(exercise_id, c, now));
    assert forall|i: int, j: int| 0 <= i <= j < log.len() implies
        (#[trigger] log[i]).date <= (#[trigger] log[j]).date by {
        if j < records.len() {
            assert(log[i] == records[i] && log[j] == records[j]);
        } else if i < records.len() {
            assert(log[i] == records[i]);
        }
    }
    assert forall|i: int| 0 <= i < records.len() + 1 implies (#[trigger] log[i]).date <= now by {
        if i < records.len() {
            assert(log[i] == records[i]);
        }
    }
}

/// The dates of the record log still never fall after an edit made at a time
/// that is none before the dates in the log.
pub proof fn edit_keeps_records_dated(
    s: StoreView,
    exercise: usize,
    weight: Seq<char>,
    reps: u32,
    set_index: Option<usize>,
    now: u64,
    new_id: u128,
)
    requires
        records_dated_in_order(s.records),
        forall|i: int| 0 <= i < s.records.len() ==> (#[trigger] s.records[i]).date <= now,
    ensures
        match edit_spec(s, exercise, weight, reps, set_index, now, new_id) {
            Ok((after, _)) => records_dated_in_order(after.records),
            Err(_) => true,
        },
{
    match edit_spec(s, exercise, weight, reps, set_index, now, new_id) {
        Ok((after, logged)) => {
            lemma_active_from(s.sessions, 0);
            let a = active_session(s)->0;
            let x = s.sessions[a].exercises[exercise - 1];
            let k = set_target(x.sets.len(), set_index)->0;
            let row = after.sessions[a].exercises[exercise - 1].sets[k];
            if logged.is_pr {
                lemma_dated_in_order(s.records, x.exercise_id, candidate_of(row), now);
            }
        },
        Err(_) => {},
    }
}

proof fn lemma_settle_keeps_records_dated(
    s: StoreView,
    exercises: Seq<SessionExerciseView>,
    n: int,
    now: u64,
)
    requires
        records_dated_in_order(s.records),
        forall|i: int| 0 <= i < s.records.len() ==> (#[trigger] s.records[i]).date <= now,
    ensures
        records_dated_in_order(settle_records(s, exercises, n, now).records),
        forall|i: int|
            0 <= i < settle_records(s, exercises, n, now).records.len()
                ==> (#[trigger] settle_records(
                s,
                exercises,
                n,
                now,
            ).records[i]).date <= now,
    decreases n,
{
    if n > 0 {
        lemma_settle_keeps_records_dated(s, exercises, n - 1, now);
        let before = settle_records(s, exercises, n - 1, now);
        let id = exercises[n - 1].exercise_id;
        match crate::transitions::session_candidate(exercises, exercises.len() as int, id) {
            Some(c) => {
                if is_new_record(before.records, id, c) {
                    lemma_dated_in_order(before.records, id, c, now);
                }
            },
            None => {},
        }
    }
}

/// The dates of the record log still never fall after an end made at a time
/// that is none before the dates in the log.
pub proof fn end_keeps_records_dated(s: StoreView, now: u64)
    requires
        records_dated_in_order(s.records),
        forall|i: int| 0 <= i < s.records.len() ==> (#[trigger] s.records[i]).date <= now,
    ensures
        match end_spec(s, now) {
            Ok((after, _)) => records_dated_in_order(after.records),
            Err(_) => true,
        },
{
    match end_spec(s, now) {
        Ok((after, _)) => {
            let a = active_session(s)->0;
            lemma_settle_keeps_records_dated(
                s,
                s.sessions[a].exercises,
                s.sessions[a].exercises.len() as int,
                now,
            );
        },
        Err(_) => {},
    }
}

/// Show right after a start lists the exercises that the block prescribes, in
/// the order of the order indices of the prescriptions, and no logged set.
pub proof fn show_after_start(
    s: StoreView,
    program: Seq<char>,
    block: Seq<char>,
    now: u64,
    session_id: u128,
    ids: Seq<u128>,
)
    requires
        at_most_one_active(s),
        start_spec(s, program, block, now, session_id, ids) is Ok,
    ensures
        ({
            let after = start_spec(s, program, block, now, session_id, ids)->Ok_0.0;
            let target = start_target(s, reference_of(program), reference_of(block))->Ok_0;
            let prescriptions = s.programs[target.0].blocks[target.1].exercises;
            let shown = show_spec(after);
            &&& shown is Ok
            &&& shown->Ok_0.session_id == session_id
            &&& shown->Ok_0.start_time == now
            &&& shown->Ok_0.end_time is None
            &&& shown->Ok_0.exercises.len() == prescriptions.len()
            &&& forall|i: int|
                0 <= i < prescriptions.len() ==> {
                    let shown_exercise = #[trigger] shown->Ok_0.exercises[i];
                    &&& shown_exercise.index == (i + 1) as usize
                    &&& shown_exercise.exercise_id == prescriptions[display_order(
                        prescriptions,
                        prescriptions.len() as int,
                    )[i] as int].exercise_id
                    &&& shown_exercise.note is None
                    &&& shown_exercise.rows.len() == shown_exercise.prescribed_sets
                    &&& forall|k: int|
                        0 <= k < shown_exercise.rows.len()
                            ==> (#[trigger] shown_exercise.rows[k]).current is None
                }
        }),
{
    start_keeps_one_active(s, program, block, now, session_id, ids);
    let after = start_spec(s, program, block, now, session_id, ids)->Ok_0.0;
    let a = s.sessions.len() as int;
    assert(active_session(after) == Some(a));
    let target = start_target(s, reference_of(program), reference_of(block))->Ok_0;
    crate::catalog::lemma_resolve_in_range(
        crate::catalog::program_names(s.programs),
        reference_of(program),
    );
    crate::catalog::lemma_resolve_in_range(
        crate::catalog::block_names(s.programs[target.0].blocks),
        reference_of(block),
    );
}

/// Show right after a start shows for each exercise the targets of its
/// prescription and as many rows as the prescription has sets, where the
/// identifier of the block is that of no block before it and the block
/// prescribes the exercise once.
pub proof fn show_after_start_shows_targets(
    s: StoreView,
    program: Seq<char>,
    block: Seq<char>,
    now: u64,
    session_id: u128,
    ids: Seq<u128>,
    i: int,
)
    requires
        at_most_one_active(s),
        start_spec(s, program, block, now, session_id, ids) is Ok,
        ({
            let target = start_target(s, reference_of(program), reference_of(block))->Ok_0;
            let chosen = s.programs[target.0].blocks[target.1];
            let k = display_order(chosen.exercises, chosen.exercises.len() as int)[i];
            &&& 0 <= i < chosen.exercises.len()
            &&& locate_block(s.programs, chosen.id) == Some(target)
            &&& prescription_for(chosen, chosen.exercises[k as int].exercise_id) == Some(k as int)
        }),
    ensures
        ({
            let after = start_spec(s, program, block, now, session_id, ids)->Ok_0.0;
            let target = start_target(s, reference_of(program), reference_of(block))->Ok_0;
            let chosen = s.programs[target.0].blocks[target.1];
            let k = display_order(chosen.exercises, chosen.exercises.len() as int)[i];
            let shown = show_spec(after)->Ok_0.exercises[i];
            &&& shown.prescribed_sets == chosen.exercises[k as int].sets
            &&& shown.rows.len() == chosen.exercises[k as int].sets
            &&& forall|j: int|
                0 <= j < shown.rows.len() ==> {
                    &&& (#[trigger] shown.rows[j]).target_reps == crate::report::target_reps_at(
                        Some(chosen.exercises[k as int]),
                        j,
                    )
                    &&& shown.rows[j].target_rpe == crate::report::target_rpe_at(
                        Some(chosen.exercises[k as int]),
                        j,
                    )
                    &&& shown.rows[j].target_percent == crate::report::target_percent_at(
                        Some(chosen.exercises[k as int]),
                        j,
                    )
                    &&& shown.rows[j].current is None
                }
        }),
{
    show_after_start(s, program, block, now, session_id, ids);
    start_keeps_one_active(s, program, block, now, session_id, ids);
}

/// Every session command keeps at most one session in progress.
pub proof fn handle_keeps_one_active(
    cmd: crate::cli::SessionCmd,
    s: StoreView,
    now: u64,
    session_id: u128,
    ids: Seq<u128>,
    new_id: u128,
)
    requires
        at_most_one_active(s),
    ensures
        match handle_spec(cmd, s, now, session_id, ids, new_id) {
            Ok((after, _)) => at_most_one_active(after),
            Err(_) => true,
        },
{
    match cmd {
        crate::cli::SessionCmd::Start(args) => {
            start_keeps_one_active(s, args.program@, args.block@, now, session_id, ids);
        },
        crate::cli::SessionCmd::Cancel => {
            cancel_leaves_none_active(s);
        },
        crate::cli::SessionCmd::Show => {},
        crate::cli::SessionCmd::End => {
            end_leaves_none_active(s, now);
        },
        crate::cli::SessionCmd::Edit { exercise, weight, reps, set, new } => {
            if reps >= 0 {
                edit_keeps_one_active(s, exercise, weight@, reps as u32, set, now, new_id);
            }
        },
        crate::cli::SessionCmd::Swap { exercise, new_exercise } => {
            swap_keeps_one_active(s, exercise, new_exercise@, new_id);
        },
        crate::cli::SessionCmd::AddEx { exercise, sets } => {
            if sets >= 0 {
                add_exercise_keeps_one_active(s, exercise@, sets as u32, new_id);
            }
        },
        crate::cli::SessionCmd::Note { exercise, note } => {
            note_keeps_one_active(s, exercise, note@);
        },
        crate::cli::SessionCmd::Log { date } => {},
    }
}

/// Every session command keeps the figures of the record log rising: a record
/// is only ever written on a strict improvement.
pub proof fn handle_keeps_records_rising(
    cmd: crate::cli::SessionCmd,
    s: StoreView,
    now: u64,
    session_id: u128,
    ids: Seq<u128>,
    new_id: u128,
)
    requires
        records_rise(s.records),
    ensures
        match handle_spec(cmd, s, now, session_id, ids, new_id) {
            Ok((after, _)) => records_rise(after.records),
            Err(_) => true,
        },
{
    match cmd {
        crate::cli::SessionCmd::End => {
            end_keeps_records_rising(s, now);
        },
        crate::cli::SessionCmd::Edit { exercise, weight, reps, set, new } => {
            if reps >= 0 {
                edit_keeps_records_rising(s, exercise, weight@, reps as u32, set, now, new_id);
            }
        },
        _ => {},
    }
}

/// After a record was written, every catalog entry of the exercise caches the
/// estimate and the date of the record that is shown for the exercise.
pub proof fn cache_mirrors_shown_record(
    s: StoreView,
    exercise_id: u128,
    c: Candidate,
    now: u64,
    i: int,
)
    requires
        0 <= i < s.exercises.len(),
        s.exercises[i].id == exercise_id,
    ensures
        ({
            let after = with_record(s, exercise_id, c, now);
            let shown = authoritative(after.records, after.records.len() as int, exercise_id);
            &&& shown is Some
            &&& after.exercises[i].best_estimated_1rm_x30 == Some(shown->0.estimated_1rm_x30)
            &&& after.exercises[i].best_date == Some(shown->0.date)
            &&& shown->0.estimated_1rm_x30 >= record_of(exercise_id, c, now).estimated_1rm_x30
        }),
{
    let after = with_record(s, exercise_id, c, now);
    assert(after.records[after.records.len() - 1] == record_of(exercise_id, c, now));
}

proof fn lemma_active_count(sessions: Seq<TrainingSessionView>, n: int)
    requires
        0 <= n <= sessions.len(),
    ensures
        active_count(sessions, n) == 0 <==> forall|i: int|
            0 <= i < n ==> (#[trigger] sessions[i]).end_time is Some,
        active_count(sessions, n) <= 1 <==> forall|i: int, j: int|
            0 <= i < n && 0 <= j < n && sessions[i].end_time is None && sessions[j].end_time is None
                ==> i == j,
    decreases n,
{
    if n > 0 {
        lemma_active_count(sessions, n - 1);
        if sessions[n - 1].end_time is None {
            if active_count(sessions, n - 1) > 0 {
                let i = choose|i: int|
                    0 <= i < n - 1 && !((#[trigger] sessions[i]).end_time is Some);
                assert(sessions[i].end_time is None && sessions[n - 1].end_time is None);
                assert(i != n - 1);
            }
        } else {
            if active_count(sessions, n - 1) > 1 {
                let (i, j) = choose|i: int, j: int|
                    0 <= i < n - 1 && 0 <= j < n - 1 && sessions[i].end_time is None
                        && sessions[j].end_time is None && i != j;
                assert(0 <= i < n && 0 <= j < n);
            }
        }
    }
}

/// No two sessions are in progress exactly where the number of sessions in
/// progress is zero or one.
pub proof fn at_most_one_active_counts(s: StoreView)
    ensures
        at_most_one_active(s) <==> active_count(s.sessions, s.sessions.len() as int) <= 1,
        active_session(s) is None <==> active_count(s.sessions, s.sessions.len() as int) == 0,
{
    lemma_active_count(s.sessions, s.sessions.len() as int);
    lemma_active_from(s.sessions, 0);
}

/// Whether two lists of programs hold blocks with the same identifiers at
/// the same places.
pub open spec fn same_block_ids(x: Seq<ProgramView>, y: Seq<ProgramView>) -> bool {
    x.len() == y.len() && forall|p: int|
        0 <= p < x.len() ==> block_ids((#[trigger] x[p]).blocks) == block_ids(
            (#[trigger] y[p]).blocks,
        )
}

/// A block is found where two lists of programs hold blocks with the same
/// identifiers at the same places.
pub proof fn lemma_same_block_ids_locate(x: Seq<ProgramView>, y: Seq<ProgramView>, id: u128, i: int)
    requires
        same_block_ids(x, y),
        0 <= i,
    ensures
        locate_block_from(x, id, i) == locate_block_from(y, id, i),
    decreases x.len() - i,
{
    if i < x.len() {
        assert(block_ids(x[i].blocks) == block_ids(y[i].blocks));
        lemma_same_block_ids_locate(x, y, id, i + 1);
    }
}

/// A block that a program holds is found by its identifier.
pub proof fn lemma_block_is_located(programs: Seq<ProgramView>, p: int, b: int, i: int)
    requires
        0 <= i <= p < programs.len(),
        0 <= b < programs[p].blocks.len(),
    ensures
        locate_block_from(programs, programs[p].blocks[b].id, i) is Some,
    decreases p - i,
{
    let id = programs[p].blocks[b].id;
    lemma_position_from(block_ids(programs[i].blocks), id, 0);
    if i < p {
        lemma_block_is_located(programs, p, b, i + 1);
    } else {
        assert(block_ids(programs[p].blocks)[b] == id);
    }
}

/// The block of every session is among the programs of a store whose
/// programs hold the blocks that the programs of another store hold, where
/// the block of each of its sessions is among the programs of that other
/// store.
proof fn lemma_blocks_carried_over(s: StoreView, after: StoreView)
    requires
        same_block_ids(s.programs, after.programs),
        forall|i: int|
            0 <= i < after.sessions.len() ==> locate_block(
                s.programs,
                (#[trigger] after.sessions[i]).block_id,
            ) is Some,
    ensures
        sessions_have_blocks(after),
{
    assert forall|i: int| 0 <= i < after.sessions.len() implies locate_block(
        after.programs,
        (#[trigger] after.sessions[i]).block_id,
    ) is Some by {
        lemma_same_block_ids_locate(s.programs, after.programs, after.sessions[i].block_id, 0);
    }
}

/// After a start the block of every session is among the programs, where it
/// was before: the new session is a session of a block of a program.
pub proof fn start_keeps_sessions_with_blocks(
    s: StoreView,
    program: Seq<char>,
    block: Seq<char>,
    now: u64,
    session_id: u128,
    ids: Seq<u128>,
)
    requires
        sessions_have_blocks(s),
    ensures
        match start_spec(s, program, block, now, session_id, ids) {
            Ok((after, started)) => sessions_have_blocks(after) && locate_block(
                after.programs,
                started.block_id,
            ) is Some,
            Err(_) => true,
        },
{
    match start_spec(s, program, block, now, session_id, ids) {
        Ok((after, started)) => {
            let target = start_target(s, reference_of(program), reference_of(block))->Ok_0;
            crate::catalog::lemma_resolve_in_range(
                crate::catalog::program_names(s.programs),
                reference_of(program),
            );
            crate::catalog::lemma_resolve_in_range(
                crate::catalog::block_names(s.programs[target.0].blocks),
                reference_of(block),
            );
            lemma_block_is_located(s.programs, target.0, target.1, 0);
            assert forall|i: int| 0 <= i < after.sessions.len() implies locate_block(
                s.programs,
                (#[trigger] after.sessions[i]).block_id,
            ) is Some by {
                if i < s.sessions.len() {
                    assert(after.sessions[i] == s.sessions[i]);
                }
            }
            lemma_blocks_carried_over(s, after);
        },
        Err(_) => {},
    }
}

/// After an edit the block of every session is among the programs, where it
/// was before.
pub proof fn edit_keeps_sessions_with_blocks(
    s: StoreView,
    exercise: usize,
    weight: Seq<char>,
    reps: u32,
    set_index: Option<usize>,
    now: u64,
    new_id: u128,
)
    requires
        sessions_have_blocks(s),
    ensures
        match edit_spec(s, exercise, weight, reps, set_index, now, new_id) {
            Ok((after, _)) => sessions_have_blocks(after),
            Err(_) => true,
        },
{
    match edit_spec(s, exercise, weight, reps, set_index, now, new_id) {
        Ok((after, _)) => {
            lemma_active_from(s.sessions, 0);
            assert forall|i: int| 0 <= i < after.sessions.len() implies locate_block(
                s.programs,
                (#[trigger] after.sessions[i]).block_id,
            ) is Some by {
                assert(after.sessions[i].block_id == s.sessions[i].block_id);
            }
            lemma_blocks_carried_over(s, after);
        },
        Err(_) => {},
    }
}

/// After a swap the block of every session is among the programs, where it
/// was before: a swap changes what a block prescribes and not which blocks
/// there are.
pub proof fn swap_keeps_sessions_with_blocks(
    s: StoreView,
    exercise: usize,
    new_exercise: Seq<char>,
    new_id: u128,
)
    requires
        sessions_have_blocks(s),
    ensures
        match swap_spec(s, exercise, new_exercise, new_id) {
            Ok((after, _)) => sessions_have_blocks(after),
            Err(_) => true,
        },
{
    match swap_spec(s, exercise, new_exercise, new_id) {
        Ok((after, _)) => {
            lemma_active_from(s.sessions, 0);
            let a = active_session(s)->0;
            let at = locate_block(s.programs, s.sessions[a].block_id)->0;
            crate::catalog::lemma_locate_block(s.programs, s.sessions[a].block_id, 0);
            assert forall|p: int| 0 <= p < s.programs.len() implies block_ids(
                (#[trigger] s.programs[p]).blocks,
            ) == block_ids((#[trigger] after.programs[p]).blocks) by {
                if p == at.0 {
                    assert(block_ids(after.programs[p].blocks) =~= block_ids(s.programs[p].blocks));
                }
            }
            assert forall|i: int| 0 <= i < after.sessions.len() implies locate_block(
                s.programs,
                (#[trigger] after.sessions[i]).block_id,
            ) is Some by {
                assert(after.sessions[i].block_id == s.sessions[i].block_id);
            }
            lemma_blocks_carried_over(s, after);
        },
        Err(_) => {},
    }
}

/// After an exercise was added the block of every session is among the
/// programs, where it was before.
pub proof fn add_exercise_keeps_sessions_with_blocks(
    s: StoreView,
    exercise: Seq<char>,
    sets: u32,
    new_id: u128,
)
    requires
        sessions_have_blocks(s),
    ensures
        match add_exercise_spec(s, exercise, sets, new_id) {
            Ok((after, _)) => sessions_have_blocks(after),
            Err(_) => true,
        },
{
    match add_exercise_spec(s, exercise, sets, new_id) {
        Ok((after, _)) => {
            lemma_active_from(s.sessions, 0);
            assert forall|i: int| 0 <= i < after.sessions.len() implies locate_block(
                s.programs,
                (#[trigger] after.sessions[i]).block_id,
            ) is Some by {
                assert(after.sessions[i].block_id == s.sessions[i].block_id);
            }
            lemma_blocks_carried_over(s, after);
        },
        Err(_) => {},
    }
}

/// After a note was set the block of every session is among the programs,
/// where it was before.
pub proof fn note_keeps_sessions_with_blocks(s: StoreView, exercise: usize, text: Seq<char>)
    requires
        sessions_have_blocks(s),
    ensures
        match note_spec(s, exercise, text) {
            Ok((after, _)) => sessions_have_blocks(after),
            Err(_) => true,
        },
{
    match note_spec(s, exercise, text) {
        Ok((after, _)) => {
            lemma_active_from(s.sessions, 0);
            assert forall|i: int| 0 <= i < after.sessions.len() implies locate_block(
                s.programs,
                (#[trigger] after.sessions[i]).block_id,
            ) is Some by {
                assert(after.sessions[i].block_id == s.sessions[i].block_id);
            }
            lemma_blocks_carried_over(s, after);
        },
        Err(_) => {},
    }
}

/// After a cancel the block of every session is among the programs, where it
/// was before.
pub proof fn cancel_keeps_sessions_with_blocks(s: StoreView)
    requires
        sessions_have_blocks(s),
    ensures
        match cancel_spec(s) {
            Ok((after, _)) => sessions_have_blocks(after),
            Err(_) => true,
        },
{
    match cancel_spec(s) {
        Ok((after, _)) => {
            lemma_active_from(s.sessions, 0);
            let a = active_session(s)->0;
            assert forall|i: int| 0 <= i < after.sessions.len() implies locate_block(
                s.programs,
                (#[trigger] after.sessions[i]).block_id,
            ) is Some by {
                if i < a {
                    assert(after.sessions[i] == s.sessions[i]);
                } else {
                    assert(after.sessions[i] == s.sessions[i + 1]);
                }
            }
            lemma_blocks_carried_over(s, after);
        },
        Err(_) => {},
    }
}

/// After an end the block of every session is among the programs, where it
/// was before.
pub proof fn end_keeps_sessions_with_blocks(s: StoreView, now: u64)
    requires
        sessions_have_blocks(s),
    ensures
        match end_spec(s, now) {
            Ok((after, _)) => sessions_have_blocks(after),
            Err(_) => true,
        },
{
    match end_spec(s, now) {
        Ok((after, _)) => {
            lemma_active_from(s.sessions, 0);
            let a = active_session(s)->0;
            lemma_settle_records(
                s,
                s.sessions[a].exercises,
                s.sessions[a].exercises.len() as int,
                now,
            );
            assert forall|i: int| 0 <= i < after.sessions.len() implies locate_block(
                s.programs,
                (#[trigger] after.sessions[i]).block_id,
            ) is Some by {
                assert(after.sessions[i].block_id == s.sessions[i].block_id);
            }
            lemma_blocks_carried_over(s, after);
        },
        Err(_) => {},
    }
}

/// After every session command the block of every session is among the
/// programs, where it was before.
pub proof fn handle_keeps_sessions_with_blocks(
    cmd: crate::cli::SessionCmd,
    s: StoreView,
    now: u64,
    session_id: u128,
    ids: Seq<u128>,
    new_id: u128,
)
    requires
        sessions_have_blocks(s),
    ensures
        match handle_spec(cmd, s, now, session_id, ids, new_id) {
            Ok((after, _)) => sessions_have_blocks(after),
            Err(_) => true,
        },
{
    match cmd {
        crate::cli::SessionCmd::Start(args) => {
            start_keeps_sessions_with_blocks(s, args.program@, args.block@, now, session_id, ids);
        },
        crate::cli::SessionCmd::Cancel => {
            cancel_keeps_sessions_with_blocks(s);
        },
        crate::cli::SessionCmd::Show => {},
        crate::cli::SessionCmd::End => {
            end_keeps_sessions_with_blocks(s, now);
        },
        crate::cli::SessionCmd::Edit { exercise, weight, reps, set, new } => {
            if reps >= 0 {
                edit_keeps_sessions_with_blocks(
                    s,
                    exercise,
                    weight@,
                    reps as u32,
                    set,
                    now,
                    new_id,
                );
            }
        },
        crate::cli::SessionCmd::Swap { exercise, new_exercise } => {
            swap_keeps_sessions_with_blocks(s, exercise, new_exercise@, new_id);
        },
        crate::cli::SessionCmd::AddEx { exercise, sets } => {
            if sets >= 0 {
                add_exercise_keeps_sessions_with_blocks(s, exercise@, sets as u32, new_id);
            }
        },
        crate::cli::SessionCmd::Note { exercise, note } => {
            note_keeps_sessions_with_blocks(s, exercise, note@);
        },
        crate::cli::SessionCmd::Log { date } => {},
    }
}

/// A swap is a substitution. In a store in which the block of every session
/// is among the programs, a swap of an exercise that the session in progress
/// has, for an exercise that the reference names, succeeds: the session
/// exercise keeps its identity, its place, its note and its sets and is now
/// an instance of the named exercise, every other exercise of every session
/// is left as it was, and so are the catalog and the record log.
pub proof fn swap_keeps_place_and_sets(
    s: StoreView,
    exercise: usize,
    new_exercise: Seq<char>,
    new_id: u128,
)
    requires
        sessions_have_blocks(s),
        active_session(s) is Some,
        1 <= exercise <= s.sessions[active_session(s)->0].exercises.len(),
        crate::catalog::resolve_exercise(s, reference_of(new_exercise)) is Some,
    ensures
        swap_spec(s, exercise, new_exercise, new_id) is Ok,
        ({
            let after = swap_spec(s, exercise, new_exercise, new_id)->Ok_0.0;
            let swapped = swap_spec(s, exercise, new_exercise, new_id)->Ok_0.1;
            let a = active_session(s)->0;
            let e = exercise - 1;
            let named = crate::catalog::resolve_exercise(s, reference_of(new_exercise))->0;
            &&& 0 <= a < s.sessions.len()
            &&& 0 <= e < s.sessions[a].exercises.len()
            &&& swapped.new_exercise_id == s.exercises[named].id
            &&& swapped.session_exercise_id == s.sessions[a].exercises[e].id
            &&& after.sessions.len() == s.sessions.len()
            &&& after.sessions[a].exercises.len() == s.sessions[a].exercises.len()
            &&& after.sessions[a].exercises[e] == (SessionExerciseView {
                exercise_id: s.exercises[named].id,
                ..s.sessions[a].exercises[e]
            })
            &&& forall|j: int|
                0 <= j < s.sessions[a].exercises.len() && j != e ==> after.sessions[a].exercises[j]
                    == s.sessions[a].exercises[j]
            &&& forall|i: int|
                0 <= i < s.sessions.len() && i != a ==> after.sessions[i] == s.sessions[i]
            &&& after.exercises == s.exercises
            &&& after.records == s.records
        }),
{
    lemma_active_from(s.sessions, 0);
    let a = active_session(s)->0;
    assert(locate_block(s.programs, s.sessions[a].block_id) is Some);
}

/// The record shown for an exercise is a record of the exercise, none of its
/// records has a higher estimate, and none with the same estimate was written
/// later; there is none only where the exercise has no record.
pub proof fn lemma_authoritative(records: Seq<PersonalRecord>, n: int, exercise_id: u128)
    requires
        0 <= n <= records.len(),
    ensures
        match authoritative(records, n, exercise_id) {
            Some(r) => exists|k: int|
                0 <= k < n && #[trigger] records[k] == r && r.exercise_id == exercise_id && (forall|
                    i: int,
                |
                    0 <= i < n && (#[trigger] records[i]).exercise_id == exercise_id
                        ==> records[i].estimated_1rm_x30 <= r.estimated_1rm_x30) && (forall|i: int|
                    k < i < n && (#[trigger] records[i]).exercise_id == exercise_id
                        ==> records[i].estimated_1rm_x30 < r.estimated_1rm_x30),
            None => forall|i: int|
                0 <= i < n ==> (#[trigger] records[i]).exercise_id != exercise_id,
        },
    decreases n,
{
    if n > 0 {
        lemma_authoritative(records, n - 1, exercise_id);
        let before = authoritative(records, n - 1, exercise_id);
        let last = records[n - 1];
        match authoritative(records, n, exercise_id) {
            Some(r) => {
                if last.exercise_id == exercise_id && !(before is Some
                    && before->0.estimated_1rm_x30 > last.estimated_1rm_x30) {
                    assert(records[n - 1] == r);
                } else {
                    let k = choose|k: int|
                        0 <= k < n - 1 && #[trigger] records[k] == r && r.exercise_id
                            == exercise_id && (forall|i: int|
                            0 <= i < n - 1 && (#[trigger] records[i]).exercise_id == exercise_id
                                ==> records[i].estimated_1rm_x30 <= r.estimated_1rm_x30) && (forall|
                            i: int,
                        |
                            k < i < n - 1 && (#[trigger] records[i]).exercise_id == exercise_id
                                ==> records[i].estimated_1rm_x30 < r.estimated_1rm_x30);
                    assert(0 <= k < n && records[k] == r);
                }
            },
            None => {},
        }
    }
}

proof fn lemma_order_place_splits(
    prescriptions: Seq<ProgramExerciseView>,
    order: Seq<usize>,
    order_index: u32,
    i: int,
)
    requires
        0 <= i <= order.len(),
    ensures
        forall|k: int|
            i <= k < order_place_from(prescriptions, order, order_index, i)
                ==> prescriptions[(#[trigger] order[k]) as int].order_index <= order_index,
        order_place_from(prescriptions, order, order_index, i) < order.len()
            ==> prescriptions[order[order_place_from(
            prescriptions,
            order,
            order_index,
            i,
        )] as int].order_index > order_index,
    decreases order.len() - i,
{
    if i < order.len() && !(prescriptions[order[i] as int].order_index > order_index) {
        lemma_order_place_splits(prescriptions, order, order_index, i + 1);
    }
}

/// The display order of `n` prescriptions holds each of their places once,
/// with the order indices never falling along it, and prescriptions with one
/// order index in the order in which the block holds them.
pub proof fn display_order_sorts(prescriptions: Seq<ProgramExerciseView>, n: int)
    requires
        0 <= n <= prescriptions.len(),
        n <= usize::MAX,
    ensures
        display_order(prescriptions, n).len() == n,
        forall|i: int| 0 <= i < n ==> (#[trigger] display_order(prescriptions, n)[i]) < n,
        forall|i: int, j: int|
            0 <= i < j < n ==> {
                let a = #[trigger] display_order(prescriptions, n)[i];
                let b = #[trigger] display_order(prescriptions, n)[j];
                &&& a != b
                &&& prescriptions[a as int].order_index <= prescriptions[b as int].order_index
                &&& prescriptions[a as int].order_index == prescriptions[b as int].order_index
                    ==> a < b
            },
    decreases n,
{
    if n > 0 {
        display_order_sorts(prescriptions, n - 1);
        let before = display_order(prescriptions, n - 1);
        let after = display_order(prescriptions, n);
        let order_index = prescriptions[n - 1].order_index;
        let at = order_place_from(prescriptions, before, order_index, 0);
        lemma_order_place(prescriptions, before, order_index, 0);
        lemma_order_place_splits(prescriptions, before, order_index, 0);
        assert forall|i: int| 0 <= i < n implies (#[trigger] after[i]) < n by {
            if i < at {
                assert(after[i] == before[i]);
            } else if i > at {
                assert(after[i] == before[i - 1]);
            }
        }
        assert forall|i: int, j: int| 0 <= i < j < n implies {
            let a = #[trigger] after[i];
            let b = #[trigger] after[j];
            &&& a != b
            &&& prescriptions[a as int].order_index <= prescriptions[b as int].order_index
            &&& prescriptions[a as int].order_index == prescriptions[b as int].order_index ==> a
                < b
        } by {
            if j == at {
                assert(after[i] == before[i]);
                assert(before[i] < n - 1);
            } else if i == at {
                assert(after[j] == before[j - 1]);
                assert(before[j - 1] < n - 1);
                if j - 1 > at {
                    assert(prescriptions[before[at] as int].order_index
                        <= prescriptions[before[j - 1] as int].order_index);
                }
            } else {
                let oi = if i < at {
                    i
                } else {
                    i - 1
                };
                let oj = if j < at {
                    j
                } else {
                    j - 1
                };
                assert(after[i] == before[oi] && after[j] == before[oj]);
            }
        }
    }
}

/// Whether candidate `c` is strictly better than candidate `d`: a weighted
/// set is better than a bodyweight set, and on one track the higher figure is
/// better.
pub open spec fn beats(c: Candidate, d: Candidate) -> bool {
    if (c.weight == 0) == (d.weight == 0) {
        candidate_metric(c) > candidate_metric(d)
    } else {
        d.weight == 0
    }
}

/// Whether `c` is the candidate of one of the first `m` sets that are not
/// out of consideration.
pub open spec fn among_sets(sets: Seq<ExerciseSetView>, m: int, c: Candidate) -> bool {
    exists|k: int|
        0 <= k < m && !(#[trigger] sets[k]).ignore_for_one_rm && candidate_of(sets[k]) == c
}

/// Whether `c` is the candidate of a set of `exercise_id` among the first `n`
/// exercises of a session.
pub open spec fn among_session(
    exercises: Seq<SessionExerciseView>,
    n: int,
    exercise_id: u128,
    c: Candidate,
) -> bool {
    exists|i: int|
        0 <= i < n && (#[trigger] exercises[i]).exercise_id == exercise_id && among_sets(
            exercises[i].sets,
            exercises[i].sets.len() as int,
            c,
        )
}

proof fn lemma_set_candidates(sets: Seq<ExerciseSetView>, m: int, acc: Option<Candidate>)
    requires
        0 <= m <= sets.len(),
    ensures
        match set_candidates(sets, m, acc) {
            Some(best) => (acc == Some(best) || among_sets(sets, m, best)) && (forall|c: Candidate|
                #[trigger] among_sets(sets, m, c) ==> !beats(c, best)) && (acc is Some ==> !beats(
                acc->0,
                best,
            )),
            None => acc is None && forall|c: Candidate| !#[trigger] among_sets(sets, m, c),
        },
    decreases m,
{
    if m > 0 {
        lemma_set_candidates(sets, m - 1, acc);
        let before = set_candidates(sets, m - 1, acc);
        let now = set_candidates(sets, m, acc);
        let here = candidate_of(sets[m - 1]);
        if !sets[m - 1].ignore_for_one_rm {
            let best = now->0;
            assert(best == better_candidate(before, here));
            if best == here {
                assert(!sets[m - 1].ignore_for_one_rm && candidate_of(sets[m - 1]) == best);
                assert(acc == Some(best) || among_sets(sets, m, best));
            } else {
                if acc != Some(best) {
                    let k = choose|k: int|
                        0 <= k < m - 1 && !(#[trigger] sets[k]).ignore_for_one_rm && candidate_of(
                            sets[k],
                        ) == best;
                    assert(0 <= k < m && !sets[k].ignore_for_one_rm);
                    assert(candidate_of(sets[k]) == best);
                }
            }
            assert forall|c: Candidate| #[trigger] among_sets(sets, m, c) implies
                !beats(c, best) by {
                let k = choose|k: int|
                    0 <= k < m && !(#[trigger] sets[k]).ignore_for_one_rm && candidate_of(sets[k])
                        == c;
                if k < m - 1 {
                    assert(among_sets(sets, m - 1, c));
                }
            }
        } else {
            match now {
                Some(best) => {
                    if acc != Some(best) {
                        let k = choose|k: int|
                            0 <= k < m - 1 && !(#[trigger] sets[k]).ignore_for_one_rm
                                && candidate_of(sets[k]) == best;
                        assert(0 <= k < m && !sets[k].ignore_for_one_rm && candidate_of(sets[k])
                            == best);
                    }
                    assert forall|c: Candidate| #[trigger] among_sets(sets, m, c) implies
                        !beats(c, best) by {
                        let k = choose|k: int|
                            0 <= k < m && !(#[trigger] sets[k]).ignore_for_one_rm && candidate_of(
                                sets[k],
                            ) == c;
                        assert(k < m - 1);
                        assert(among_sets(sets, m - 1, c));
                    }
                },
                None => {
                    assert forall|c: Candidate| !#[trigger] among_sets(sets, m, c) by {
                        if among_sets(sets, m, c) {
                            let k = choose|k: int|
                                0 <= k < m && !(#[trigger] sets[k]).ignore_for_one_rm
                                    && candidate_of(sets[k]) == c;
                            assert(k < m - 1);
                            assert(among_sets(sets, m - 1, c));
                        }
                    }
                },
            }
        }
    }
}

/// The candidate that an end puts forward for an exercise is the candidate
/// of one of the sets of the exercise in the session that are not out of
/// consideration, and none of these sets is strictly better; there is none
/// only where the exercise has no such set.
pub proof fn lemma_session_candidate(
    exercises: Seq<SessionExerciseView>,
    n: int,
    exercise_id: u128,
)
    requires
        0 <= n <= exercises.len(),
    ensures
        match session_candidate(exercises, n, exercise_id) {
            Some(best) => among_session(exercises, n, exercise_id, best) && forall|c: Candidate|
                #[trigger] among_session(exercises, n, exercise_id, c) ==> !beats(c, best),
            None => forall|c: Candidate| !#[trigger] among_session(exercises, n, exercise_id, c),
        },
    decreases n,
{
    if n > 0 {
        lemma_session_candidate(exercises, n - 1, exercise_id);
        let before = session_candidate(exercises, n - 1, exercise_id);
        let now = session_candidate(exercises, n, exercise_id);
        let x = exercises[n - 1];
        if x.exercise_id == exercise_id {
            lemma_set_candidates(x.sets, x.sets.len() as int, before);
        }
        match now {
            Some(best) => {
                if x.exercise_id == exercise_id && among_sets(x.sets, x.sets.len() as int, best) {
                    assert(exercises[n - 1].exercise_id == exercise_id);
                    assert(among_session(exercises, n, exercise_id, best));
                } else {
                    assert(before == Some(best));
                    let i = choose|i: int|
                        0 <= i < n - 1 && (#[trigger] exercises[i]).exercise_id == exercise_id
                            && among_sets(exercises[i].sets, exercises[i].sets.len() as int, best);
                    assert(0 <= i < n);
                    assert(among_session(exercises, n, exercise_id, best));
                }
                assert forall|c: Candidate| #[trigger] among_session(
                    exercises,
                    n,
                    exercise_id,
                    c,
                ) implies !beats(c, best) by {
                    let i = choose|i: int|
                        0 <= i < n && (#[trigger] exercises[i]).exercise_id == exercise_id
                            && among_sets(exercises[i].sets, exercises[i].sets.len() as int, c);
                    if i < n - 1 {
                        assert(among_session(exercises, n - 1, exercise_id, c));
                        let b = before->0;
                        assert(!beats(c, b));
                        if x.exercise_id == exercise_id {
                            assert(!beats(b, best));
                            lemma_beats_transitive(c, b, best);
                        }
                    }
                }
            },
            None => {
                assert forall|c: Candidate| !#[trigger] among_session(
                    exercises,
                    n,
                    exercise_id,
                    c,
                ) by {
                    if among_session(exercises, n, exercise_id, c) {
                        let i = choose|i: int|
                            0 <= i < n && (#[trigger] exercises[i]).exercise_id == exercise_id
                                && among_sets(exercises[i].sets, exercises[i].sets.len() as int, c);
                        if i < n - 1 {
                            assert(among_session(exercises, n - 1, exercise_id, c));
                        }
                    }
                }
            },
        }
    }
}

/// A candidate that is not better than a second, which is not better than a
/// third, is not better than the third.
proof fn lemma_beats_transitive(c: Candidate, b: Candidate, best: Candidate)
    requires
        !beats(c, b),
        !beats(b, best),
    ensures
        !beats(c, best),
{
}

/// While a session is in progress a start is a conflict, whatever the
/// references name.
pub proof fn start_in_progress_is_conflict(
    s: StoreView,
    program: Seq<char>,
    block: Seq<char>,
    now: u64,
    session_id: u128,
    ids: Seq<u128>,
)
    requires
        active_session(s) is Some,
    ensures
        start_spec(s, program, block, now, session_id, ids) is Err,
        start_spec(s, program, block, now, session_id, ids)->Err_0
            == crate::error::Error::SessionAlreadyActive,
{
}

/// While a session is in progress the start command is a conflict, whatever
/// it is given; a command that is refused leaves the store as it is.
pub proof fn start_command_in_progress_is_conflict(
    args: crate::cli::StartArgs,
    s: StoreView,
    now: u64,
    session_id: u128,
    ids: Seq<u128>,
    new_id: u128,
)
    requires
        active_session(s) is Some,
    ensures
        handle_spec(crate::cli::SessionCmd::Start(args), s, now, session_id, ids, new_id) is Err,
        handle_spec(
            crate::cli::SessionCmd::Start(args),
            s,
            now,
            session_id,
            ids,
            new_id,
        )->Err_0 == crate::error::Error::SessionAlreadyActive,
{
}

/// The swap command in a store in which the block of every session is among
/// the programs: where the session in progress has the exercise and the
/// reference names an exercise, the command succeeds and leaves what the swap
/// leaves, of which `swap_keeps_place_and_sets` speaks.
pub proof fn swap_command_succeeds(
    s: StoreView,
    exercise: usize,
    new_exercise: String,
    now: u64,
    session_id: u128,
    ids: Seq<u128>,
    new_id: u128,
)
    requires
        sessions_have_blocks(s),
        active_session(s) is Some,
        1 <= exercise <= s.sessions[active_session(s)->0].exercises.len(),
        crate::catalog::resolve_exercise(s, reference_of(new_exercise@)) is Some,
    ensures
        ({
            let r = handle_spec(
                crate::cli::SessionCmd::Swap { exercise, new_exercise },
                s,
                now,
                session_id,
                ids,
                new_id,
            );
            let swap = swap_spec(s, exercise, new_exercise@, new_id);
            &&& swap is Ok
            &&& r is Ok
            &&& r->Ok_0.0 == swap->Ok_0.0
            &&& r->Ok_0.1 == crate::commands::SessionOutputView::Swapped(swap->Ok_0.1)
        }),
{
    swap_keeps_place_and_sets(s, exercise, new_exercise@, new_id);
}

} // verus!
