//! The commands of the session state machine.

use crate::catalog::{
    find_block, find_block_by_id, find_exercise, find_exercise_by_id, find_prescription,
    find_program,
};
use crate::error::Error;
use crate::ids::fresh_id;
use crate::lookup::{lemma_position_found, lemma_position_from, position};
use crate::models::{
    Exercise, ExerciseSet, PersonalRecord, ProgramExercise, SessionExercise, Store, TrainingSession,
};
use crate::pr::{
    authoritative, authoritative_record, check_new_record, estimated_1rm_x30, pick_better,
    Candidate,
};
use crate::refs::{parse_weight, Load};
use crate::text::trim;
use crate::transitions::{
    active_from, add_exercise_spec, cancel_spec, candidate_of, display_order, edit_spec, end_spec,
    exercise_name, first_occurrence, fresh_session_exercises, insertion_point_from,
    lemma_settle_records, logged_sets, note_spec, order_place_from, prescribed_sets, refresh_best,
    session_candidate, session_exercise_ids, set_candidates, settle_records, start_needs,
    start_spec, start_target, summary_of, swap_spec, swapped_prescription, with_prescription,
    with_record, with_session_exercise, written_set, ExerciseAdded, ExerciseSummary,
    ExerciseSwapped, LoggedSet, SessionEnded, SessionStarted, SetLogged, SWAPPED_ORDER_INDEX,
};
use vstd::prelude::*;

verus! {

/// Finds the session in progress.
pub fn find_active(sessions: &Vec<TrainingSession>) -> (found: Option<usize>)
    ensures
        match found {
            Some(a) => active_from(sessions.deep_view(), 0) == Some(a as int) && a
                < sessions.len() && sessions[a as int].end_time is None,
            None => active_from(sessions.deep_view(), 0) is None,
        },
{
    let mut i: usize = 0;
    while i < sessions.len()
        invariant
            active_from(sessions.deep_view(), 0) == active_from(sessions.deep_view(), i as int),
        decreases sessions.len() - i,
    {
        if sessions[i].end_time.is_none() {
            return Some(i);
        }
        i += 1;
    }
    None
}

/// Sets the cached best of every catalog entry of `exercise_id` to the record
/// that is shown for the exercise.
fn refresh_cached_best(
    exercises: &mut Vec<Exercise>,
    records: &Vec<PersonalRecord>,
    exercise_id: u128,
)
    ensures
        final(exercises).deep_view() == refresh_best(
            old(exercises).deep_view(),
            records@,
            exercise_id,
        ),
{
    let best = authoritative_record(records, exercise_id);
    let ghost before = exercises.deep_view();
    let ghost after = refresh_best(before, records@, exercise_id);
    let n = exercises.len();
    let mut i: usize = 0;
    while i < n
        invariant
            i <= n,
            n == exercises.len(),
            before.len() == n,
            after == refresh_best(before, records@, exercise_id),
            best == authoritative(records@, records@.len() as int, exercise_id),
            forall|j: int| 0 <= j < i ==> exercises.deep_view()[j] == after[j],
            forall|j: int| i <= j < n ==> exercises.deep_view()[j] == before[j],
        decreases n - i,
    {
        if exercises[i].id == exercise_id {
            match best {
                Some(r) => {
                    exercises[i].best_estimated_1rm_x30 = Some(r.estimated_1rm_x30);
                    exercises[i].best_date = Some(r.date);
                    assert(exercises.deep_view()[i as int] =~~= after[i as int]);
                },
                None => {},
            }
        }
        i += 1;
    }
    assert(exercises.deep_view() =~~= after);
}

/// Writes candidate `c` as a record of `exercise_id` and refreshes the cached
/// best of the exercise.
fn write_record(store: &mut Store, exercise_id: u128, c: Candidate, now: u64) -> (record:
    PersonalRecord)
    ensures
        final(store)@ == with_record(old(store)@, exercise_id, c, now),
        record == crate::pr::record_of(exercise_id, c, now),
{
    let record = PersonalRecord {
        exercise_id,
        date: now,
        weight: c.weight,
        reps: c.reps,
        estimated_1rm_x30: estimated_1rm_x30(c.weight, c.reps),
    };
    store.records.push(record);
    refresh_cached_best(&mut store.exercises, &store.records, exercise_id);
    assert(store@ =~~= with_record(old(store)@, exercise_id, c, now));
    record
}

/// Edit with the identifier of a new row given: logs a set of the session in
/// progress and writes a personal record where the set is one.
pub fn edit_set_with_id(
    store: &mut Store,
    exercise: usize,
    weight: &str,
    reps: u32,
    set_index: Option<usize>,
    now: u64,
    new_id: u128,
) -> (r: Result<SetLogged, Error>)
    ensures
        match edit_spec(old(store)@, exercise, weight@, reps, set_index, now, new_id) {
            Ok((after, logged)) => r == Ok::<SetLogged, Error>(logged) && final(store)@ == after,
            Err(e) => r == Err::<SetLogged, Error>(e) && final(store)@ == old(store)@,
        },
{
    let a = match find_active(&store.sessions) {
        Some(a) => a,
        None => {
            return Err(Error::NoActiveSession);
        },
    };
    let load = match parse_weight(weight) {
        Some(load) => load,
        None => {
            return Err(Error::InvalidWeight);
        },
    };
    if exercise < 1 || exercise > store.sessions[a].exercises.len() {
        return Err(Error::SessionExerciseNotFound);
    }
    let e: usize = exercise - 1;
    let count = store.sessions[a].exercises[e].sets.len();
    let k: usize = match set_index {
        None => count,
        Some(n) => {
            if n == 0 {
                return Err(Error::InvalidSetIndex);
            } else if n <= count {
                n - 1
            } else {
                count
            }
        },
    };
    let weight_grams: u32 = match load {
        Load::Bodyweight => 0,
        Load::Weighted(g) => g,
    };
    let bodyweight = match load {
        Load::Bodyweight => true,
        Load::Weighted(_) => false,
    };
    let ghost x = old(store)@.sessions[a as int].exercises[e as int];
    let inserted = k >= count;
    if inserted {
        store.sessions[a].exercises[e].sets.push(
            ExerciseSet {
                id: new_id,
                weight: weight_grams,
                reps,
                rpe: None,
                rm_percent: None,
                notes: None,
                timestamp: now,
                bodyweight,
                ignore_for_one_rm: false,
            },
        );
    } else {
        store.sessions[a].exercises[e].sets[k].weight = weight_grams;
        store.sessions[a].exercises[e].sets[k].reps = reps;
        store.sessions[a].exercises[e].sets[k].bodyweight = bodyweight;
        store.sessions[a].exercises[e].sets[k].timestamp = now;
    }
    let ghost set = written_set(
        if inserted {
            None
        } else {
            Some(x.sets[k as int])
        },
        new_id,
        load,
        reps,
        now,
    );
    let ghost logged = with_session_exercise(
        old(store)@,
        a as int,
        e as int,
        crate::models::SessionExerciseView {
            sets: if inserted {
                x.sets.push(set)
            } else {
                x.sets.update(k as int, set)
            },
            ..x
        },
    );
    assert(store@ =~~= logged);
    let exercise_id = store.sessions[a].exercises[e].exercise_id;
    let session_exercise_id = store.sessions[a].exercises[e].id;
    let set_id = store.sessions[a].exercises[e].sets[k].id;
    let ignored = store.sessions[a].exercises[e].sets[k].ignore_for_one_rm;
    let c = Candidate { weight: weight_grams, reps };
    assert(c == candidate_of(set));
    let set_number: usize = if inserted {
        store.sessions[a].exercises[e].sets.len()
    } else {
        k + 1
    };
    let is_pr = !ignored && check_new_record(&store.records, exercise_id, c);
    if is_pr {
        write_record(store, exercise_id, c, now);
    }
    Ok(
        SetLogged {
            set_number,
            inserted,
            load,
            reps,
            is_pr,
            set_id,
            session_exercise_id,
            exercise_id,
        },
    )
}

/// Edit: logs a set of exercise `exercise` (1-based, in the order of the
/// session in progress) with the load `weight`, the bodyweight word or
/// kilograms, and `reps` repetitions. With a 1-based set index the set at
/// that slot is overwritten where the exercise has one, whatever the block
/// prescribes; where it has none, and where no set index is given, a new row
/// is made at the next free slot. The rows keep their slots. A set that is a
/// new personal record is written to the record log, and the cached best of
/// the exercise is refreshed. A new row gets a fresh random identifier.
pub fn edit_set(
    store: &mut Store,
    exercise: usize,
    weight: &str,
    reps: u32,
    set_index: Option<usize>,
    now: u64,
) -> (r: Result<SetLogged, Error>)
    ensures
        exists|new_id: u128|
            match #[trigger] edit_spec(
                old(store)@,
                exercise,
                weight@,
                reps,
                set_index,
                now,
                new_id,
            ) {
                Ok((after, logged)) => r == Ok::<SetLogged, Error>(logged) && final(store)@
                    == after,
                Err(e) => r == Err::<SetLogged, Error>(e) && final(store)@ == old(store)@,
            },
{
    let new_id = fresh_id();
    edit_set_with_id(store, exercise, weight, reps, set_index, now, new_id)
}

/// Looks for a session in progress, which makes a start a conflict, and then
/// resolves the program and the block that the start is for.
fn plan_start(store: &Store, program: &str, block: &str) -> (r: Result<(usize, usize), Error>)
    ensures
        match start_target(
            store@,
            crate::refs::reference_of(program@),
            crate::refs::reference_of(block@),
        ) {
            Ok((p, b)) => r == Ok::<(usize, usize), Error>((p as usize, b as usize)) && 0 <= p
                < store.programs.len() && 0 <= b < store.programs[p].blocks.len(),
            Err(e) => r == Err::<(usize, usize), Error>(e),
        },
{
    if find_active(&store.sessions).is_some() {
        return Err(Error::SessionAlreadyActive);
    }
    let program_ref = crate::refs::parse_reference(program);
    let block_ref = crate::refs::parse_reference(block);
    let p = match find_program(&store.programs, &program_ref) {
        Some(p) => p,
        None => {
            return Err(Error::ProgramNotFound);
        },
    };
    let b = match find_block(&store.programs[p].blocks, &block_ref) {
        Some(b) => b,
        None => {
            return Err(Error::BlockNotFound);
        },
    };
    Ok((p, b))
}

/// The places of the prescriptions of a block in the order of their order
/// indices.
pub fn order_of_prescriptions(prescriptions: &Vec<ProgramExercise>) -> (order: Vec<usize>)
    ensures
        order@ == display_order(prescriptions.deep_view(), prescriptions.len() as int),
        order.len() == prescriptions.len(),
        forall|j: int| 0 <= j < order.len() ==> (#[trigger] order@[j]) < prescriptions.len(),
{
    let mut order: Vec<usize> = Vec::new();
    let mut n: usize = 0;
    while n < prescriptions.len()
        invariant
            n <= prescriptions.len(),
            order@ == display_order(prescriptions.deep_view(), n as int),
            order.len() == n,
            forall|j: int| 0 <= j < order.len() ==> (#[trigger] order@[j]) < n,
        decreases prescriptions.len() - n,
    {
        let order_index = prescriptions[n].order_index;
        let mut at: usize = 0;
        while at < order.len() && !(prescriptions[order[at]].order_index > order_index)
            invariant
                at <= order.len(),
                n < prescriptions.len(),
                forall|j: int| 0 <= j < order.len() ==> (#[trigger] order@[j]) < n,
                order_place_from(prescriptions.deep_view(), order@, order_index, 0)
                    == order_place_from(prescriptions.deep_view(), order@, order_index, at as int),
            decreases order.len() - at,
        {
            at += 1;
        }
        let ghost before = order@;
        order.insert(at, n);
        assert forall|j: int| 0 <= j < order.len() implies (#[trigger] order@[j]) < n + 1 by {
            if j < at {
                assert(order@[j] == before[j]);
            } else if j > at {
                assert(order@[j] == before[j - 1]);
            }
        }
        n += 1;
    }
    order
}

/// One session exercise without sets for each prescription, in the order of
/// the order indices.
fn session_exercises_for(prescriptions: &Vec<ProgramExercise>, ids: &Vec<u128>) -> (made: Vec<
    SessionExercise,
>)
    requires
        ids.len() >= prescriptions.len(),
    ensures
        made.deep_view() == fresh_session_exercises(prescriptions.deep_view(), ids@),
{
    let order = order_of_prescriptions(prescriptions);
    let mut made: Vec<SessionExercise> = Vec::new();
    let mut i: usize = 0;
    while i < prescriptions.len()
        invariant
            i <= prescriptions.len() <= ids.len(),
            made.len() == i,
            order@ == display_order(prescriptions.deep_view(), prescriptions.len() as int),
            order.len() == prescriptions.len(),
            forall|j: int| 0 <= j < order.len() ==> (#[trigger] order@[j]) < prescriptions.len(),
            forall|j: int|
                0 <= j < i ==> made.deep_view()[j] == fresh_session_exercises(
                    prescriptions.deep_view(),
                    ids@,
                )[j],
        decreases prescriptions.len() - i,
    {
        let ghost before = made.deep_view();
        assert(order@[i as int] < prescriptions.len());
        made.push(
            SessionExercise {
                id: ids[i],
                exercise_id: prescriptions[order[i]].exercise_id,
                note: None,
                sets: Vec::new(),
            },
        );
        assert(made.deep_view()[i as int] =~~= fresh_session_exercises(
            prescriptions.deep_view(),
            ids@,
        )[i as int]);
        assert forall|j: int| 0 <= j < i implies made.deep_view()[j] == fresh_session_exercises(
            prescriptions.deep_view(),
            ids@,
        )[j] by {
            assert(made.deep_view()[j] == before[j]);
        }
        i += 1;
    }
    assert(made.deep_view() =~~= fresh_session_exercises(prescriptions.deep_view(), ids@));
    made
}

/// Start with the identifiers given: begins a session of the block that
/// `program` and `block` name, each a 1-based index in display order or an
/// exact name, with one exercise for each prescription of the block, in the
/// order of the prescriptions and without sets. `ids` holds an identifier for
/// each of these exercises.
pub fn start_session_with_ids(
    store: &mut Store,
    program: &str,
    block: &str,
    now: u64,
    session_id: u128,
    ids: &Vec<u128>,
) -> (r: Result<SessionStarted, Error>)
    requires
        ids@.len() >= start_needs(old(store)@, program@, block@),
    ensures
        match start_spec(old(store)@, program@, block@, now, session_id, ids@) {
            Ok((after, started)) => r == Ok::<SessionStarted, Error>(started) && final(store)@
                == after,
            Err(e) => r == Err::<SessionStarted, Error>(e) && final(store)@ == old(store)@,
        },
{
    let (p, b) = match plan_start(store, program, block) {
        Ok(target) => target,
        Err(e) => {
            return Err(e);
        },
    };
    let exercises = session_exercises_for(&store.programs[p].blocks[b].exercises, ids);
    let block_id = store.programs[p].blocks[b].id;
    let count = exercises.len();
    assert(count == exercises.deep_view().len());
    assert(store.programs[p as int].blocks[b as int].exercises.deep_view().len()
        == store.programs[p as int].blocks[b as int].exercises.len());
    assert(store@.programs[p as int].blocks[b as int].exercises
        == store.programs[p as int].blocks[b as int].exercises.deep_view());
    store.sessions.push(
        TrainingSession { id: session_id, block_id, start_time: now, end_time: None, exercises },
    );
    assert(store@ =~~= start_spec(old(store)@, program@, block@, now, session_id, ids@).unwrap().0);
    Ok(SessionStarted { session_id, block_id, exercises: count })
}

/// Start: begins a session of the block that `program` and `block` name, each
/// a 1-based index in display order or an exact name. The session gets one
/// exercise for each prescription of the block, in the order of the order
/// indices of the prescriptions and without sets. While a session is in
/// progress the start is a conflict, whatever the references name;
/// otherwise it is refused where a reference names nothing. The new rows get
/// fresh random identifiers.
pub fn start_session(store: &mut Store, program: &str, block: &str, now: u64) -> (r: Result<
    SessionStarted,
    Error,
>)
    ensures
        exists|session_id: u128, ids: Seq<u128>|
            match #[trigger] start_spec(old(store)@, program@, block@, now, session_id, ids) {
                Ok((after, started)) => r == Ok::<SessionStarted, Error>(started) && final(store)@
                    == after,
                Err(e) => r == Err::<SessionStarted, Error>(e) && final(store)@ == old(store)@,
            },
{
    let needed: usize = match plan_start(store, program, block) {
        Ok((p, b)) => store.programs[p].blocks[b].exercises.len(),
        Err(_) => 0,
    };
    let session_id = fresh_id();
    let mut ids: Vec<u128> = Vec::new();
    while ids.len() < needed
        invariant
            ids.len() <= needed,
        decreases needed - ids.len(),
    {
        ids.push(fresh_id());
    }
    start_session_with_ids(store, program, block, now, session_id, &ids)
}

/// AddEx with the identifier given: appends the exercise that `exercise`
/// names, by 1-based catalog index or exact name, to the session in progress.
pub fn add_exercise_with_id(store: &mut Store, exercise: &str, sets: u32, new_id: u128) -> (r:
    Result<ExerciseAdded, Error>)
    ensures
        match add_exercise_spec(old(store)@, exercise@, sets, new_id) {
            Ok((after, added)) => r == Ok::<ExerciseAdded, Error>(added) && final(store)@ == after,
            Err(e) => r == Err::<ExerciseAdded, Error>(e) && final(store)@ == old(store)@,
        },
{
    let a = match find_active(&store.sessions) {
        Some(a) => a,
        None => {
            return Err(Error::NoActiveSession);
        },
    };
    let reference = crate::refs::parse_reference(exercise);
    let x = match find_exercise(&store.exercises, &reference) {
        Some(x) => x,
        None => {
            return Err(Error::ExerciseNotFound);
        },
    };
    let exercise_id = store.exercises[x].id;
    store.sessions[a].exercises.push(
        SessionExercise { id: new_id, exercise_id, note: None, sets: Vec::new() },
    );
    let position = store.sessions[a].exercises.len();
    assert(store@ =~~= add_exercise_spec(old(store)@, exercise@, sets, new_id).unwrap().0);
    Ok(ExerciseAdded { session_exercise_id: new_id, exercise_id, position, sets })
}

/// AddEx: appends the exercise that `exercise` names, by 1-based catalog
/// index or exact name, to the end of the session in progress. `sets` is the
/// number of sets the user plans; it is reported back and not stored. The new
/// row gets a fresh random identifier.
pub fn add_exercise(store: &mut Store, exercise: &str, sets: u32) -> (r: Result<
    ExerciseAdded,
    Error,
>)
    ensures
        exists|new_id: u128|
            match #[trigger] add_exercise_spec(old(store)@, exercise@, sets, new_id) {
                Ok((after, added)) => r == Ok::<ExerciseAdded, Error>(added) && final(store)@
                    == after,
                Err(e) => r == Err::<ExerciseAdded, Error>(e) && final(store)@ == old(store)@,
            },
{
    let new_id = fresh_id();
    add_exercise_with_id(store, exercise, sets, new_id)
}

/// Note: puts `text`, trimmed, on exercise `exercise` (1-based, in the order
/// of the session in progress) in place of any note it had, and returns the
/// identifier of the session exercise.
pub fn set_note(store: &mut Store, exercise: usize, text: &str) -> (r: Result<u128, Error>)
    ensures
        match note_spec(old(store)@, exercise, text@) {
            Ok((after, id)) => r == Ok::<u128, Error>(id) && final(store)@ == after,
            Err(e) => r == Err::<u128, Error>(e) && final(store)@ == old(store)@,
        },
{
    let a = match find_active(&store.sessions) {
        Some(a) => a,
        None => {
            return Err(Error::NoActiveSession);
        },
    };
    if exercise < 1 || exercise > store.sessions[a].exercises.len() {
        return Err(Error::SessionExerciseNotFound);
    }
    let e: usize = exercise - 1;
    let note = trim(text);
    store.sessions[a].exercises[e].note = Some(note);
    assert(store@ =~~= note_spec(old(store)@, exercise, text@).unwrap().0);
    Ok(store.sessions[a].exercises[e].id)
}

/// Cancel: removes the session in progress with its exercises and their sets,
/// and returns its identifier.
pub fn cancel_session(store: &mut Store) -> (r: Result<u128, Error>)
    ensures
        match cancel_spec(old(store)@) {
            Ok((after, id)) => r == Ok::<u128, Error>(id) && final(store)@ == after,
            Err(e) => r == Err::<u128, Error>(e) && final(store)@ == old(store)@,
        },
{
    let a = match find_active(&store.sessions) {
        Some(a) => a,
        None => {
            return Err(Error::NoActiveSession);
        },
    };
    let removed = store.sessions.remove(a);
    assert(store@ =~~= cancel_spec(old(store)@).unwrap().0);
    Ok(removed.id)
}

/// Where a prescription with the order index `order_index` goes.
fn insertion_point(prescriptions: &Vec<ProgramExercise>, order_index: u32) -> (at: usize)
    ensures
        at == insertion_point_from(prescriptions.deep_view(), order_index, 0),
        at <= prescriptions.len(),
{
    let mut i: usize = 0;
    while i < prescriptions.len()
        invariant
            i <= prescriptions.len(),
            insertion_point_from(prescriptions.deep_view(), order_index, 0)
                == insertion_point_from(prescriptions.deep_view(), order_index, i as int),
        decreases prescriptions.len() - i,
    {
        if prescriptions[i].order_index > order_index {
            return i;
        }
        i += 1;
    }
    i
}

/// Sees to it that the block prescribes `sets` sets for `exercise_id`, on the
/// prescription it has for the exercise or on a new one. Returns whether a
/// new one was made.
fn prescribe(
    prescriptions: &mut Vec<ProgramExercise>,
    exercise_id: u128,
    sets: u32,
    new_id: u128,
) -> (created: bool)
    ensures
        created == (position(
            crate::catalog::prescribed_ids(old(prescriptions).deep_view()),
            exercise_id,
        ) is None),
        match position(
            crate::catalog::prescribed_ids(old(prescriptions).deep_view()),
            exercise_id,
        ) {
            Some(k) => final(prescriptions).deep_view() == old(prescriptions).deep_view().update(
                k,
                crate::models::ProgramExerciseView { sets, ..old(prescriptions).deep_view()[k] },
            ),
            None => final(prescriptions).deep_view() == old(prescriptions).deep_view().insert(
                insertion_point_from(old(prescriptions).deep_view(), SWAPPED_ORDER_INDEX, 0),
                swapped_prescription(new_id, exercise_id, sets),
            ),
        },
{
    match find_prescription(prescriptions, exercise_id) {
        Some(k) => {
            prescriptions[k].sets = sets;
            assert(prescriptions.deep_view() =~~= old(prescriptions).deep_view().update(
                k as int,
                crate::models::ProgramExerciseView {
                    sets,
                    ..old(prescriptions).deep_view()[k as int]
                },
            ));
            false
        },
        None => {
            let at = insertion_point(prescriptions, SWAPPED_ORDER_INDEX);
            prescriptions.insert(
                at,
                ProgramExercise {
                    id: new_id,
                    exercise_id,
                    sets,
                    reps: Vec::new(),
                    target_rpe: Vec::new(),
                    target_rm_percent: Vec::new(),
                    notes: None,
                    program_1rm: None,
                    technique: None,
                    technique_group: None,
                    order_index: SWAPPED_ORDER_INDEX,
                },
            );
            assert(prescriptions.deep_view() =~~= old(prescriptions).deep_view().insert(
                at as int,
                swapped_prescription(new_id, exercise_id, sets),
            ));
            true
        },
    }
}

/// Swap with the identifier of a new prescription given.
pub fn swap_exercise_with_id(
    store: &mut Store,
    exercise: usize,
    new_exercise: &str,
    new_id: u128,
) -> (r: Result<ExerciseSwapped, Error>)
    ensures
        match swap_spec(old(store)@, exercise, new_exercise@, new_id) {
            Ok((after, swapped)) => r == Ok::<ExerciseSwapped, Error>(swapped) && final(store)@
                == after,
            Err(e) => r == Err::<ExerciseSwapped, Error>(e) && final(store)@ == old(store)@,
        },
{
    let a = match find_active(&store.sessions) {
        Some(a) => a,
        None => {
            return Err(Error::NoActiveSession);
        },
    };
    if exercise < 1 || exercise > store.sessions[a].exercises.len() {
        return Err(Error::SessionExerciseNotFound);
    }
    let e: usize = exercise - 1;
    let reference = crate::refs::parse_reference(new_exercise);
    let n = match find_exercise(&store.exercises, &reference) {
        Some(n) => n,
        None => {
            return Err(Error::ExerciseNotFound);
        },
    };
    let (p, b) = match find_block_by_id(&store.programs, store.sessions[a].block_id) {
        Some(at) => at,
        None => {
            return Err(Error::StorageFailure);
        },
    };
    let old_exercise_id = store.sessions[a].exercises[e].exercise_id;
    let session_exercise_id = store.sessions[a].exercises[e].id;
    let new_exercise_id = store.exercises[n].id;
    let sets = match find_prescription(&store.programs[p].blocks[b].exercises, old_exercise_id) {
        Some(k) => store.programs[p].blocks[b].exercises[k].sets,
        None => store.fallback_sets,
    };
    let ghost block = old(store)@.programs[p as int].blocks[b as int];
    assert(block.exercises == old(store).programs[p as int].blocks[b as int].exercises.deep_view());
    assert(sets == prescribed_sets(block, old_exercise_id, old(store)@.fallback_sets));
    let prescription_created = prescribe(
        &mut store.programs[p].blocks[b].exercises,
        new_exercise_id,
        sets,
        new_id,
    );
    store.sessions[a].exercises[e].exercise_id = new_exercise_id;
    assert(store@.programs[p as int].blocks[b as int] =~~= with_prescription(
        block,
        new_exercise_id,
        sets,
        new_id,
    ));
    assert(store@ =~~= swap_spec(old(store)@, exercise, new_exercise@, new_id).unwrap().0);
    Ok(
        ExerciseSwapped {
            session_exercise_id,
            old_exercise_id,
            new_exercise_id,
            sets,
            prescription_created,
        },
    )
}

/// Swap: puts the exercise that `new_exercise` names, by 1-based catalog
/// index or exact name, in the place of exercise `exercise` (1-based, in the
/// order of the session in progress). The session exercise keeps its
/// identity, its place, its note and its sets. The block of the session then
/// prescribes for the new exercise the set count that it prescribed for the
/// old one, or the fallback count where it prescribed none: on the
/// prescription it has for the new exercise, else on a new one, which gets a
/// fresh random identifier.
pub fn swap_exercise(store: &mut Store, exercise: usize, new_exercise: &str) -> (r: Result<
    ExerciseSwapped,
    Error,
>)
    ensures
        exists|new_id: u128|
            match #[trigger] swap_spec(old(store)@, exercise, new_exercise@, new_id) {
                Ok((after, swapped)) => r == Ok::<ExerciseSwapped, Error>(swapped)
                    && final(store)@ == after,
                Err(e) => r == Err::<ExerciseSwapped, Error>(e) && final(store)@ == old(store)@,
            },
{
    let new_id = fresh_id();
    swap_exercise_with_id(store, exercise, new_exercise, new_id)
}

/// The best candidate among `acc` and the sets of one session exercise.
fn best_of_sets(sets: &Vec<ExerciseSet>, acc: Option<Candidate>) -> (best: Option<Candidate>)
    ensures
        best == set_candidates(sets.deep_view(), sets.len() as int, acc),
{
    let mut best = acc;
    let mut i: usize = 0;
    while i < sets.len()
        invariant
            i <= sets.len(),
            best == set_candidates(sets.deep_view(), i as int, acc),
        decreases sets.len() - i,
    {
        if !sets[i].ignore_for_one_rm {
            let c = Candidate {
                weight: if sets[i].bodyweight {
                    0
                } else {
                    sets[i].weight
                },
                reps: sets[i].reps,
            };
            assert(c == candidate_of(sets.deep_view()[i as int]));
            best = Some(pick_better(best, c));
        }
        i += 1;
    }
    best
}

/// The best set of an exercise over a whole session.
fn session_best(exercises: &Vec<SessionExercise>, exercise_id: u128) -> (best: Option<Candidate>)
    ensures
        best == session_candidate(exercises.deep_view(), exercises.len() as int, exercise_id),
{
    let mut best: Option<Candidate> = None;
    let mut i: usize = 0;
    while i < exercises.len()
        invariant
            i <= exercises.len(),
            best == session_candidate(exercises.deep_view(), i as int, exercise_id),
        decreases exercises.len() - i,
    {
        if exercises[i].exercise_id == exercise_id {
            best = best_of_sets(&exercises[i].sets, best);
        }
        i += 1;
    }
    best
}

/// Whether exercise `i` of a session is the first of its exercise there.
fn is_first_occurrence(exercises: &Vec<SessionExercise>, i: usize) -> (yes: bool)
    requires
        i < exercises.len(),
    ensures
        yes == first_occurrence(exercises.deep_view(), i as int),
{
    let ghost ids = session_exercise_ids(exercises.deep_view());
    let id = exercises[i].exercise_id;
    let mut j: usize = 0;
    while j < i
        invariant
            j <= i < exercises.len(),
            ids == session_exercise_ids(exercises.deep_view()),
            id == exercises[i as int].exercise_id,
            forall|k: int| 0 <= k < j ==> ids[k] != id,
        decreases i - j,
    {
        if exercises[j].exercise_id == id {
            proof {
                lemma_position_from(ids, id, 0);
                assert(ids[j as int] == id);
            }
            return false;
        }
        j += 1;
    }
    proof {
        assert(ids[i as int] == id);
        lemma_position_found(ids, id, 0, i as int);
    }
    true
}

/// The sets of a session exercise as a summary shows them.
fn summarize_sets(sets: &Vec<ExerciseSet>) -> (out: Vec<LoggedSet>)
    ensures
        out@ == logged_sets(sets.deep_view()),
{
    let mut out: Vec<LoggedSet> = Vec::new();
    let mut i: usize = 0;
    while i < sets.len()
        invariant
            i <= sets.len(),
            out.len() == i,
            forall|j: int| 0 <= j < i ==> out@[j] == logged_sets(sets.deep_view())[j],
        decreases sets.len() - i,
    {
        out.push(
            LoggedSet {
                weight: sets[i].weight,
                reps: sets[i].reps,
                bodyweight: sets[i].bodyweight,
            },
        );
        i += 1;
    }
    assert(out@ =~= logged_sets(sets.deep_view()));
    out
}

/// The name of the first exercise of the catalog with this identifier.
pub fn name_of_exercise(exercises: &Vec<Exercise>, id: u128) -> (name: Option<String>)
    ensures
        name.deep_view() == exercise_name(exercises.deep_view(), id),
{
    match find_exercise_by_id(exercises, id) {
        Some(i) => Some(exercises[i].name.clone()),
        None => None,
    }
}

/// The exercises of a session with their names and their sets.
fn summarize(catalog: &Vec<Exercise>, exercises: &Vec<SessionExercise>) -> (out: Vec<
    ExerciseSummary,
>)
    ensures
        out.deep_view() == summary_of(catalog.deep_view(), exercises.deep_view()),
{
    let ghost want = summary_of(catalog.deep_view(), exercises.deep_view());
    let mut out: Vec<ExerciseSummary> = Vec::new();
    let mut i: usize = 0;
    while i < exercises.len()
        invariant
            i <= exercises.len(),
            out.len() == i,
            want == summary_of(catalog.deep_view(), exercises.deep_view()),
            forall|j: int| 0 <= j < i ==> out.deep_view()[j] == want[j],
        decreases exercises.len() - i,
    {
        let ghost before = out.deep_view();
        let name = name_of_exercise(catalog, exercises[i].exercise_id);
        let sets = summarize_sets(&exercises[i].sets);
        out.push(ExerciseSummary { exercise_id: exercises[i].exercise_id, name, sets });
        assert(out.deep_view()[i as int] =~~= want[i as int]);
        assert forall|j: int| 0 <= j < i implies out.deep_view()[j] == want[j] by {
            assert(out.deep_view()[j] == before[j]);
        }
        i += 1;
    }
    assert(out.deep_view() =~~= want);
    out
}

/// End: closes the session in progress at the time `now`. Before that each
/// exercise of the session is looked at once, with its best set of the
/// session as the candidate: the weighted set with the highest estimate, or,
/// where the exercise has only bodyweight sets, the one with the most
/// repetitions. A candidate that is a new personal record is written to the
/// record log, and the cached best of the exercise is refreshed. The outcome
/// lists the records written and the exercises of the session with their
/// sets.
pub fn finish_session(store: &mut Store, now: u64) -> (r: Result<SessionEnded, Error>)
    ensures
        match end_spec(old(store)@, now) {
            Ok((after, ended)) => r is Ok && r->Ok_0@ == ended && final(store)@ == after,
            Err(e) => r == Err::<SessionEnded, Error>(e) && final(store)@ == old(store)@,
        },
{
    let a = match find_active(&store.sessions) {
        Some(a) => a,
        None => {
            return Err(Error::NoActiveSession);
        },
    };
    let exercises = summarize(&store.exercises, &store.sessions[a].exercises);
    let ghost before = old(store)@;
    let ghost session = before.sessions[a as int];
    let n = store.sessions[a].exercises.len();
    let mut new_records: Vec<PersonalRecord> = Vec::new();
    let mut i: usize = 0;
    while i < n
        invariant
            i <= n,
            a < store.sessions.len(),
            before == old(store)@,
            session == before.sessions[a as int],
            n == session.exercises.len(),
            store.sessions.deep_view() == before.sessions,
            store@ == settle_records(before, session.exercises, i as int, now),
            store@.records.len() >= before.records.len(),
            new_records@ == store@.records.subrange(
                before.records.len() as int,
                store@.records.len() as int,
            ),
        decreases n - i,
    {
        let exercise_id = store.sessions[a].exercises[i].exercise_id;
        assert(store.sessions[a as int].exercises.deep_view() == session.exercises);
        if is_first_occurrence(&store.sessions[a].exercises, i) {
            match session_best(&store.sessions[a].exercises, exercise_id) {
                Some(c) => {
                    if check_new_record(&store.records, exercise_id, c) {
                        let ghost log = store@.records;
                        let record = write_record(store, exercise_id, c, now);
                        new_records.push(record);
                        assert(store.sessions.deep_view().len() == store.sessions.len());
                        assert(new_records@ =~= store@.records.subrange(
                            before.records.len() as int,
                            store@.records.len() as int,
                        ));
                    }
                },
                None => {},
            }
        }
        i += 1;
    }
    proof {
        lemma_settle_records(before, session.exercises, n as int, now);
    }
    let session_id = store.sessions[a].id;
    let start_time = store.sessions[a].start_time;
    store.sessions[a].end_time = Some(now);
    assert(store@ =~~= end_spec(before, now).unwrap().0);
    let ended = SessionEnded { session_id, start_time, end_time: now, new_records, exercises };
    assert(ended@ =~~= end_spec(before, now).unwrap().1);
    Ok(ended)
}

/// The number of sessions in progress.
pub fn count_active(store: &Store) -> (count: usize)
    ensures
        count == crate::transitions::active_count(store@.sessions, store@.sessions.len() as int),
{
    let mut count: usize = 0;
    let mut n: usize = 0;
    while n < store.sessions.len()
        invariant
            n <= store.sessions.len(),
            count <= n,
            count == crate::transitions::active_count(store@.sessions, n as int),
        decreases store.sessions.len() - n,
    {
        if store.sessions[n].end_time.is_none() {
            count += 1;
        }
        n += 1;
    }
    count
}

/// Whether the block of every session is among the programs.
pub fn all_sessions_have_blocks(store: &Store) -> (yes: bool)
    ensures
        yes == crate::transitions::sessions_have_blocks(store@),
{
    let mut i: usize = 0;
    while i < store.sessions.len()
        invariant
            i <= store.sessions.len(),
            forall|k: int|
                0 <= k < i ==> crate::catalog::locate_block(
                    store@.programs,
                    (#[trigger] store@.sessions[k]).block_id,
                ) is Some,
        decreases store.sessions.len() - i,
    {
        if find_block_by_id(&store.programs, store.sessions[i].block_id).is_none() {
            assert(crate::catalog::locate_block(
                store@.programs,
                store@.sessions[i as int].block_id,
            ) is None);
            return false;
        }
        i += 1;
    }
    true
}

} // verus!
