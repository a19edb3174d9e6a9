//! The session state machine as functions on the store's view.
//!
//! Each command has a function here that says, for every store and every
//! argument, which error the command ends in or which store and which outcome
//! it leaves. The executable commands are proved to compute exactly these.

use crate::catalog::{
    exercise_with_id, locate_block, prescription_for, resolve_block, resolve_exercise,
    resolve_program,
};
use crate::error::Error;
use crate::lookup::{index_position, position};
use crate::models::{
    BlockView, ExerciseSetView, ExerciseView, PersonalRecord, ProgramExerciseView, ProgramView,
    SessionExerciseView, StoreView, TrainingSessionView,
};
use crate::pr::{authoritative, better_candidate, is_new_record, record_of, Candidate};
use crate::refs::{parse_load, Load, ReferenceView};
use vstd::prelude::*;

verus! {

/// What `start_session` reports.
#[derive(Clone, Copy, Debug, PartialEq, Eq, Structural)]
pub struct SessionStarted {
    pub session_id: u128,
    pub block_id: u128,
    /// The number of exercises the session starts with.
    pub exercises: usize,
}

/// What `edit_set` reports.
#[derive(Clone, Copy, Debug, PartialEq, Eq, Structural)]
pub struct SetLogged {
    /// The 1-based slot that was written.
    pub set_number: usize,
    /// Whether a new row was made, rather than an existing one overwritten.
    pub inserted: bool,
    pub load: Load,
    pub reps: u32,
    /// Whether the set is a new personal record.
    pub is_pr: bool,
    pub set_id: u128,
    pub session_exercise_id: u128,
    pub exercise_id: u128,
}

/// What `swap_exercise` reports.
#[derive(Clone, Copy, Debug, PartialEq, Eq, Structural)]
pub struct ExerciseSwapped {
    pub session_exercise_id: u128,
    pub old_exercise_id: u128,
    pub new_exercise_id: u128,
    /// The set count that the new exercise takes over.
    pub sets: u32,
    /// Whether a prescription was made for the new exercise, rather than an
    /// existing one reused.
    pub prescription_created: bool,
}

/// What `add_exercise` reports.
#[derive(Clone, Copy, Debug, PartialEq, Eq, Structural)]
pub struct ExerciseAdded {
    pub session_exercise_id: u128,
    pub exercise_id: u128,
    /// The 1-based place of the exercise in the session.
    pub position: usize,
    /// The number of sets the user plans; it is shown and not stored.
    pub sets: u32,
}

/// A logged set as a summary shows it.
#[derive(Clone, Copy, Debug, PartialEq, Eq, Structural)]
pub struct LoggedSet {
    /// Grams.
    pub weight: u32,
    pub reps: u32,
    pub bodyweight: bool,
}

/// One exercise of a session summary.
#[derive(Clone, Debug, PartialEq, Eq)]
pub struct ExerciseSummary {
    pub exercise_id: u128,
    /// The name of the exercise, where the catalog still holds it.
    pub name: Option<String>,
    pub sets: Vec<LoggedSet>,
}

/// The view of an [`ExerciseSummary`].
#[verifier::ext_equal]
pub struct ExerciseSummaryView {
    pub exercise_id: u128,
    pub name: Option<Seq<char>>,
    pub sets: Seq<LoggedSet>,
}

impl DeepView for ExerciseSummary {
    type V = ExerciseSummaryView;

    open spec fn deep_view(&self) -> ExerciseSummaryView {
        ExerciseSummaryView {
            exercise_id: self.exercise_id,
            name: self.name.deep_view(),
            sets: self.sets@,
        }
    }
}

impl View for ExerciseSummary {
    type V = ExerciseSummaryView;

    open spec fn view(&self) -> ExerciseSummaryView {
        self.deep_view()
    }
}

/// What `finish_session` reports.
#[derive(Clone, Debug, PartialEq, Eq)]
pub struct SessionEnded {
    pub session_id: u128,
    pub start_time: u64,
    pub end_time: u64,
    /// The personal records that the session set, in the order they were
    /// written.
    pub new_records: Vec<PersonalRecord>,
    /// The exercises of the session with their sets, in display order.
    pub exercises: Vec<ExerciseSummary>,
}

/// The view of a [`SessionEnded`].
#[verifier::ext_equal]
pub struct SessionEndedView {
    pub session_id: u128,
    pub start_time: u64,
    pub end_time: u64,
    pub new_records: Seq<PersonalRecord>,
    pub exercises: Seq<ExerciseSummaryView>,
}

impl View for SessionEnded {
    type V = SessionEndedView;

    open spec fn view(&self) -> SessionEndedView {
        SessionEndedView {
            session_id: self.session_id,
            start_time: self.start_time,
            end_time: self.end_time,
            new_records: self.new_records@,
            exercises: self.exercises.deep_view(),
        }
    }
}

/// The order index given to a prescription that a swap makes.
pub const SWAPPED_ORDER_INDEX: u32 = 999;

/// The first position at or after `i` of a session without an end time.
pub open spec fn active_from(sessions: Seq<TrainingSessionView>, i: int) -> Option<int>
    decreases sessions.len() - i,
{
    if i < 0 || i >= sessions.len() {
        None
    } else if sessions[i].end_time is None {
        Some(i)
    } else {
        active_from(sessions, i + 1)
    }
}

/// The position of the session in progress.
pub open spec fn active_session(s: StoreView) -> Option<int> {
    active_from(s.sessions, 0)
}

/// No two sessions are in progress.
pub open spec fn at_most_one_active(s: StoreView) -> bool {
    forall|i: int, j: int|
        0 <= i < s.sessions.len() && 0 <= j < s.sessions.len() && s.sessions[i].end_time is None
            && s.sessions[j].end_time is None ==> i == j
}

/// Whether the block of every session is among the programs.
pub open spec fn sessions_have_blocks(s: StoreView) -> bool {
    forall|i: int|
        0 <= i < s.sessions.len() ==> locate_block(
            s.programs,
            (#[trigger] s.sessions[i]).block_id,
        ) is Some
}

/// The number of sessions in progress among the first `n`.
pub open spec fn active_count(sessions: Seq<TrainingSessionView>, n: int) -> nat
    decreases n,
{
    if n <= 0 {
        0
    } else if sessions[n - 1].end_time is None {
        active_count(sessions, n - 1) + 1
    } else {
        active_count(sessions, n - 1)
    }
}

/// The store with exercise `e` of session `a` replaced by `x`.
pub open spec fn with_session_exercise(
    s: StoreView,
    a: int,
    e: int,
    x: SessionExerciseView,
) -> StoreView {
    StoreView {
        sessions: s.sessions.update(
            a,
            TrainingSessionView {
                exercises: s.sessions[a].exercises.update(e, x),
                ..s.sessions[a]
            },
        ),
        ..s
    }
}

/// The candidate that a logged set puts forward.
pub open spec fn candidate_of(set: ExerciseSetView) -> Candidate {
    Candidate {
        weight: if set.bodyweight {
            0
        } else {
            set.weight
        },
        reps: set.reps,
    }
}

/// The catalog with the cached best of `exercise_id` set to the record that
/// is shown for it.
pub open spec fn refresh_best(
    catalog: Seq<ExerciseView>,
    records: Seq<PersonalRecord>,
    exercise_id: u128,
) -> Seq<ExerciseView> {
    Seq::new(
        catalog.len(),
        |i: int|
            if catalog[i].id == exercise_id {
                match authoritative(records, records.len() as int, exercise_id) {
                    Some(r) => ExerciseView {
                        best_estimated_1rm_x30: Some(r.estimated_1rm_x30),
                        best_date: Some(r.date),
                        ..catalog[i]
                    },
                    None => catalog[i],
                }
            } else {
                catalog[i]
            },
    )
}

/// The store after candidate `c` was written as a record of `exercise_id`.
pub open spec fn with_record(s: StoreView, exercise_id: u128, c: Candidate, now: u64) -> StoreView {
    let records = s.records.push(record_of(exercise_id, c, now));
    StoreView { records, exercises: refresh_best(s.exercises, records, exercise_id), ..s }
}

/// The 0-based slot that an edit writes to: the next free one where no set
/// index is given; with the 1-based set index `n`, the slot `n` where the
/// exercise has a set there, else the next free one. The set index 0 names no
/// slot.
pub open spec fn set_target(count: nat, set_index: Option<usize>) -> Option<int> {
    match set_index {
        None => Some(count as int),
        Some(n) => if n == 0 {
            None
        } else if n <= count {
            Some(n - 1)
        } else {
            Some(count as int)
        },
    }
}

/// The weight of a load in grams; none for bodyweight.
pub open spec fn load_weight(load: Load) -> u32 {
    match load {
        Load::Bodyweight => 0,
        Load::Weighted(g) => g,
    }
}

/// The row that an edit leaves: the row that was there with weight,
/// repetitions, bodyweight mark and time overwritten, or a new row.
pub open spec fn written_set(
    before: Option<ExerciseSetView>,
    new_id: u128,
    load: Load,
    reps: u32,
    now: u64,
) -> ExerciseSetView {
    match before {
        Some(row) => ExerciseSetView {
            weight: load_weight(load),
            reps,
            bodyweight: load == Load::Bodyweight,
            timestamp: now,
            ..row
        },
        None => ExerciseSetView {
            id: new_id,
            weight: load_weight(load),
            reps,
            rpe: None,
            rm_percent: None,
            notes: None,
            timestamp: now,
            bodyweight: load == Load::Bodyweight,
            ignore_for_one_rm: false,
        },
    }
}

/// Edit: logs a set of exercise `exercise` (1-based, in the order of the
/// session) with the load `weight` and `reps` repetitions. The set at the
/// slot `set_index` is overwritten where the exercise has one; otherwise a
/// new row is made at the next free slot. `new_id` is the identifier a new
/// row gets.
pub open spec fn edit_spec(
    s: StoreView,
    exercise: usize,
    weight: Seq<char>,
    reps: u32,
    set_index: Option<usize>,
    now: u64,
    new_id: u128,
) -> Result<(StoreView, SetLogged), Error> {
    match active_session(s) {
        None => Err(Error::NoActiveSession),
        Some(a) => match parse_load(weight) {
            None => Err(Error::InvalidWeight),
            Some(load) => match index_position(s.sessions[a].exercises.len(), exercise as int) {
                None => Err(Error::SessionExerciseNotFound),
                Some(e) => {
                    let x = s.sessions[a].exercises[e];
                    match set_target(x.sets.len(), set_index) {
                        None => Err(Error::InvalidSetIndex),
                        Some(k) => {
                            let inserted = k >= x.sets.len();
                            let set = written_set(
                                if inserted {
                                    None
                                } else {
                                    Some(x.sets[k])
                                },
                                new_id,
                                load,
                                reps,
                                now,
                            );
                            let sets = if inserted {
                                x.sets.push(set)
                            } else {
                                x.sets.update(k, set)
                            };
                            let logged = with_session_exercise(
                                s,
                                a,
                                e,
                                SessionExerciseView { sets, ..x },
                            );
                            let c = candidate_of(set);
                            let is_pr = !set.ignore_for_one_rm && is_new_record(
                                s.records,
                                x.exercise_id,
                                c,
                            );
                            Ok(
                                (
                                    if is_pr {
                                        with_record(logged, x.exercise_id, c, now)
                                    } else {
                                        logged
                                    },
                                    SetLogged {
                                        set_number: (k + 1) as usize,
                                        inserted,
                                        load,
                                        reps,
                                        is_pr,
                                        set_id: set.id,
                                        session_exercise_id: x.id,
                                        exercise_id: x.exercise_id,
                                    },
                                ),
                            )
                        },
                    }
                },
            },
        },
    }
}

/// Whom a start would begin a session for: the positions of the program and
/// of the block that the references name. A session in progress is looked for
/// first: while there is one, the start is a conflict whatever the references
/// name.
pub open spec fn start_target(s: StoreView, program: ReferenceView, block: ReferenceView) -> Result<
    (int, int),
    Error,
> {
    if active_session(s) is Some {
        Err(Error::SessionAlreadyActive)
    } else {
        match resolve_program(s, program) {
            None => Err(Error::ProgramNotFound),
            Some(p) => match resolve_block(s.programs[p], block) {
                None => Err(Error::BlockNotFound),
                Some(b) => Ok((p, b)),
            },
        }
    }
}

/// Where a prescription with the order index `order_index` goes in `order`,
/// a list of places of prescriptions in the order of their order indices: the
/// first position at or after `i` of a prescription with a higher order
/// index, or the length.
pub open spec fn order_place_from(
    prescriptions: Seq<ProgramExerciseView>,
    order: Seq<usize>,
    order_index: u32,
    i: int,
) -> int
    decreases order.len() - i,
{
    if i < 0 || i >= order.len() {
        order.len() as int
    } else if prescriptions[order[i] as int].order_index > order_index {
        i
    } else {
        order_place_from(prescriptions, order, order_index, i + 1)
    }
}

/// The places of the first `n` prescriptions of a block in the order of their
/// order indices, prescriptions with one order index in the order in which
/// the block holds them.
pub open spec fn display_order(prescriptions: Seq<ProgramExerciseView>, n: int) -> Seq<usize>
    decreases n,
{
    if n <= 0 {
        Seq::empty()
    } else {
        let before = display_order(prescriptions, n - 1);
        before.insert(
            order_place_from(prescriptions, before, prescriptions[n - 1].order_index, 0),
            (n - 1) as usize,
        )
    }
}

/// One session exercise without sets for each prescription, in the order of
/// the order indices of the prescriptions, the `i`-th with the identifier
/// `ids[i]`.
pub open spec fn fresh_session_exercises(
    prescriptions: Seq<ProgramExerciseView>,
    ids: Seq<u128>,
) -> Seq<SessionExerciseView> {
    Seq::new(
        prescriptions.len(),
        |i: int|
            SessionExerciseView {
                id: ids[i],
                exercise_id: prescriptions[display_order(
                    prescriptions,
                    prescriptions.len() as int,
                )[i] as int].exercise_id,
                note: None,
                sets: Seq::empty(),
            },
    )
}

/// The place of a prescription lies within the list.
pub proof fn lemma_order_place(
    prescriptions: Seq<ProgramExerciseView>,
    order: Seq<usize>,
    order_index: u32,
    i: int,
)
    requires
        0 <= i <= order.len(),
    ensures
        i <= order_place_from(prescriptions, order, order_index, i) <= order.len(),
    decreases order.len() - i,
{
    if i < order.len() && !(prescriptions[order[i] as int].order_index > order_index) {
        lemma_order_place(prescriptions, order, order_index, i + 1);
    }
}

/// Whether the prescriptions stand in the order of their order indices.
pub open spec fn prescriptions_ordered(prescriptions: Seq<ProgramExerciseView>) -> bool {
    forall|i: int, j: int|
        0 <= i <= j < prescriptions.len() ==> (#[trigger] prescriptions[i]).order_index
            <= (#[trigger] prescriptions[j]).order_index
}

proof fn lemma_order_place_at_end(
    prescriptions: Seq<ProgramExerciseView>,
    order: Seq<usize>,
    order_index: u32,
    i: int,
)
    requires
        0 <= i <= order.len(),
        forall|j: int|
            0 <= j < order.len() ==> prescriptions[(#[trigger] order[j]) as int].order_index
                <= order_index,
    ensures
        order_place_from(prescriptions, order, order_index, i) == order.len(),
    decreases order.len() - i,
{
    if i < order.len() {
        assert(prescriptions[order[i] as int].order_index <= order_index);
        lemma_order_place_at_end(prescriptions, order, order_index, i + 1);
    }
}

/// Prescriptions that stand in the order of their order indices are shown in
/// the order in which they stand.
pub proof fn lemma_display_order_of_ordered(prescriptions: Seq<ProgramExerciseView>, n: int)
    requires
        prescriptions_ordered(prescriptions),
        0 <= n <= prescriptions.len(),
        n <= usize::MAX,
    ensures
        display_order(prescriptions, n) == Seq::new(n as nat, |j: int| j as usize),
    decreases n,
{
    if n > 0 {
        lemma_display_order_of_ordered(prescriptions, n - 1);
        let before = display_order(prescriptions, n - 1);
        assert forall|j: int| 0 <= j < before.len() implies
            prescriptions[(#[trigger] before[j]) as int].order_index
            <= prescriptions[n - 1].order_index by {
            assert(before[j] == j as usize);
        }
        lemma_order_place_at_end(prescriptions, before, prescriptions[n - 1].order_index, 0);
        assert(display_order(prescriptions, n) =~= Seq::new(n as nat, |j: int| j as usize));
    } else {
        assert(display_order(prescriptions, n) =~= Seq::new(n as nat, |j: int| j as usize));
    }
}

/// Start: begins a session of the block that `program` and `block` name.
pub open spec fn start_spec(
    s: StoreView,
    program: Seq<char>,
    block: Seq<char>,
    now: u64,
    session_id: u128,
    ids: Seq<u128>,
) -> Result<(StoreView, SessionStarted), Error> {
    match start_target(s, crate::refs::reference_of(program), crate::refs::reference_of(block)) {
        Err(e) => Err(e),
        Ok((p, b)) => {
            let chosen = s.programs[p].blocks[b];
            Ok(
                (
                    StoreView {
                        sessions: s.sessions.push(
                            TrainingSessionView {
                                id: session_id,
                                block_id: chosen.id,
                                start_time: now,
                                end_time: None,
                                exercises: fresh_session_exercises(chosen.exercises, ids),
                            },
                        ),
                        ..s
                    },
                    SessionStarted {
                        session_id,
                        block_id: chosen.id,
                        exercises: chosen.exercises.len() as usize,
                    },
                ),
            )
        },
    }
}

/// The number of identifiers that a start needs besides the session's own:
/// one for each prescription of the block, none where the start is refused.
pub open spec fn start_needs(s: StoreView, program: Seq<char>, block: Seq<char>) -> nat {
    match start_target(s, crate::refs::reference_of(program), crate::refs::reference_of(block)) {
        Err(_) => 0,
        Ok((p, b)) => s.programs[p].blocks[b].exercises.len(),
    }
}

/// AddEx: appends the exercise that `exercise` names to the session in
/// progress.
pub open spec fn add_exercise_spec(
    s: StoreView,
    exercise: Seq<char>,
    sets: u32,
    new_id: u128,
) -> Result<(StoreView, ExerciseAdded), Error> {
    match active_session(s) {
        None => Err(Error::NoActiveSession),
        Some(a) => match resolve_exercise(s, crate::refs::reference_of(exercise)) {
            None => Err(Error::ExerciseNotFound),
            Some(x) => Ok(
                (
                    StoreView {
                        sessions: s.sessions.update(
                            a,
                            TrainingSessionView {
                                exercises: s.sessions[a].exercises.push(
                                    SessionExerciseView {
                                        id: new_id,
                                        exercise_id: s.exercises[x].id,
                                        note: None,
                                        sets: Seq::empty(),
                                    },
                                ),
                                ..s.sessions[a]
                            },
                        ),
                        ..s
                    },
                    ExerciseAdded {
                        session_exercise_id: new_id,
                        exercise_id: s.exercises[x].id,
                        position: (s.sessions[a].exercises.len() + 1) as usize,
                        sets,
                    },
                ),
            ),
        },
    }
}

/// Note: puts the trimmed text on exercise `exercise` of the session in
/// progress, in place of any note it had. The outcome is the identifier of
/// the session exercise.
pub open spec fn note_spec(s: StoreView, exercise: usize, text: Seq<char>) -> Result<
    (StoreView, u128),
    Error,
> {
    match active_session(s) {
        None => Err(Error::NoActiveSession),
        Some(a) => match index_position(s.sessions[a].exercises.len(), exercise as int) {
            None => Err(Error::SessionExerciseNotFound),
            Some(e) => {
                let x = s.sessions[a].exercises[e];
                Ok(
                    (
                        with_session_exercise(
                            s,
                            a,
                            e,
                            SessionExerciseView { note: Some(crate::text::trimmed(text)), ..x },
                        ),
                        x.id,
                    ),
                )
            },
        },
    }
}

/// Cancel: removes the session in progress with all it holds. The outcome is
/// the identifier of the removed session.
pub open spec fn cancel_spec(s: StoreView) -> Result<(StoreView, u128), Error> {
    match active_session(s) {
        None => Err(Error::NoActiveSession),
        Some(a) => Ok((StoreView { sessions: s.sessions.remove(a), ..s }, s.sessions[a].id)),
    }
}

/// The first position at or after `i` of a prescription whose order index
/// exceeds `order_index`, or the length: where a prescription with that order
/// index goes behind its equals.
pub open spec fn insertion_point_from(
    prescriptions: Seq<ProgramExerciseView>,
    order_index: u32,
    i: int,
) -> int
    decreases prescriptions.len() - i,
{
    if i < 0 || i >= prescriptions.len() {
        prescriptions.len() as int
    } else if prescriptions[i].order_index > order_index {
        i
    } else {
        insertion_point_from(prescriptions, order_index, i + 1)
    }
}

/// The prescription that a swap makes for an exercise the block does not
/// prescribe: a set count and nothing else.
pub open spec fn swapped_prescription(
    id: u128,
    exercise_id: u128,
    sets: u32,
) -> ProgramExerciseView {
    ProgramExerciseView {
        id,
        exercise_id,
        sets,
        reps: Seq::empty(),
        target_rpe: Seq::empty(),
        target_rm_percent: Seq::empty(),
        notes: None,
        program_1rm: None,
        technique: None,
        technique_group: None,
        order_index: SWAPPED_ORDER_INDEX,
    }
}

/// The block with `sets` sets prescribed for `exercise_id`: on the
/// prescription it has for the exercise, else on a new one.
pub open spec fn with_prescription(
    block: BlockView,
    exercise_id: u128,
    sets: u32,
    new_id: u128,
) -> BlockView {
    match prescription_for(block, exercise_id) {
        Some(k) => BlockView {
            exercises: block.exercises.update(
                k,
                ProgramExerciseView { sets, ..block.exercises[k] },
            ),
            ..block
        },
        None => BlockView {
            exercises: block.exercises.insert(
                insertion_point_from(block.exercises, SWAPPED_ORDER_INDEX, 0),
                swapped_prescription(new_id, exercise_id, sets),
            ),
            ..block
        },
    }
}

/// The set count prescribed for an exercise in a block, or the fallback.
pub open spec fn prescribed_sets(block: BlockView, exercise_id: u128, fallback: u32) -> u32 {
    match prescription_for(block, exercise_id) {
        Some(k) => block.exercises[k].sets,
        None => fallback,
    }
}

/// Swap: puts the exercise that `new_exercise` names in the place of exercise
/// `exercise` of the session in progress. `new_id` is the identifier a new
/// prescription gets.
pub open spec fn swap_spec(
    s: StoreView,
    exercise: usize,
    new_exercise: Seq<char>,
    new_id: u128,
) -> Result<(StoreView, ExerciseSwapped), Error> {
    match active_session(s) {
        None => Err(Error::NoActiveSession),
        Some(a) => match index_position(s.sessions[a].exercises.len(), exercise as int) {
            None => Err(Error::SessionExerciseNotFound),
            Some(e) => match resolve_exercise(s, crate::refs::reference_of(new_exercise)) {
                None => Err(Error::ExerciseNotFound),
                Some(n) => match locate_block(s.programs, s.sessions[a].block_id) {
                    None => Err(Error::StorageFailure),
                    Some((p, b)) => {
                        let x = s.sessions[a].exercises[e];
                        let block = s.programs[p].blocks[b];
                        let sets = prescribed_sets(block, x.exercise_id, s.fallback_sets);
                        let new_exercise_id = s.exercises[n].id;
                        let programs = s.programs.update(
                            p,
                            ProgramView {
                                blocks: s.programs[p].blocks.update(
                                    b,
                                    with_prescription(block, new_exercise_id, sets, new_id),
                                ),
                                ..s.programs[p]
                            },
                        );
                        Ok(
                            (
                                with_session_exercise(
                                    StoreView { programs, ..s },
                                    a,
                                    e,
                                    SessionExerciseView { exercise_id: new_exercise_id, ..x },
                                ),
                                ExerciseSwapped {
                                    session_exercise_id: x.id,
                                    old_exercise_id: x.exercise_id,
                                    new_exercise_id,
                                    sets,
                                    prescription_created: prescription_for(
                                        block,
                                        new_exercise_id,
                                    ) is None,
                                },
                            ),
                        )
                    },
                },
            },
        },
    }
}

/// The best candidate among `acc` and the first `m` of `sets`; sets marked to
/// be ignored put no candidate forward.
pub open spec fn set_candidates(
    sets: Seq<ExerciseSetView>,
    m: int,
    acc: Option<Candidate>,
) -> Option<Candidate>
    decreases m,
{
    if m <= 0 {
        acc
    } else {
        let before = set_candidates(sets, m - 1, acc);
        if sets[m - 1].ignore_for_one_rm {
            before
        } else {
            Some(better_candidate(before, candidate_of(sets[m - 1])))
        }
    }
}

/// The best set of `exercise_id` among the first `n` exercises of a session.
pub open spec fn session_candidate(
    exercises: Seq<SessionExerciseView>,
    n: int,
    exercise_id: u128,
) -> Option<Candidate>
    decreases n,
{
    if n <= 0 {
        None
    } else {
        let before = session_candidate(exercises, n - 1, exercise_id);
        if exercises[n - 1].exercise_id == exercise_id {
            set_candidates(exercises[n - 1].sets, exercises[n - 1].sets.len() as int, before)
        } else {
            before
        }
    }
}

/// The exercises that the exercises of a session are instances of.
pub open spec fn session_exercise_ids(exercises: Seq<SessionExerciseView>) -> Seq<u128> {
    Seq::new(exercises.len(), |i: int| exercises[i].exercise_id)
}

/// Whether exercise `i` of a session is the first of its exercise there.
pub open spec fn first_occurrence(exercises: Seq<SessionExerciseView>, i: int) -> bool {
    position(session_exercise_ids(exercises), exercises[i].exercise_id) == Some(i)
}

/// The store after the records of the first `n` exercises of a session were
/// settled: each exercise is looked at once, where it first occurs, with its
/// best set of the whole session as the candidate.
pub open spec fn settle_records(
    s: StoreView,
    exercises: Seq<SessionExerciseView>,
    n: int,
    now: u64,
) -> StoreView
    decreases n,
{
    if n <= 0 {
        s
    } else {
        let before = settle_records(s, exercises, n - 1, now);
        let id = exercises[n - 1].exercise_id;
        if first_occurrence(exercises, n - 1) {
            match session_candidate(exercises, exercises.len() as int, id) {
                Some(c) => if is_new_record(before.records, id, c) {
                    with_record(before, id, c, now)
                } else {
                    before
                },
                None => before,
            }
        } else {
            before
        }
    }
}

/// The sets of a session exercise as a summary shows them.
pub open spec fn logged_sets(sets: Seq<ExerciseSetView>) -> Seq<LoggedSet> {
    Seq::new(
        sets.len(),
        |i: int|
            LoggedSet {
                weight: sets[i].weight,
                reps: sets[i].reps,
                bodyweight: sets[i].bodyweight,
            },
    )
}

/// The name of the first exercise of the catalog with this identifier.
pub open spec fn exercise_name(catalog: Seq<ExerciseView>, id: u128) -> Option<Seq<char>> {
    match exercise_with_id(catalog, id) {
        Some(i) => Some(catalog[i].name),
        None => None,
    }
}

/// The exercises of a session with their names and their sets.
pub open spec fn summary_of(catalog: Seq<ExerciseView>, exercises: Seq<SessionExerciseView>) -> Seq<
    ExerciseSummaryView,
> {
    Seq::new(
        exercises.len(),
        |i: int|
            ExerciseSummaryView {
                exercise_id: exercises[i].exercise_id,
                name: exercise_name(catalog, exercises[i].exercise_id),
                sets: logged_sets(exercises[i].sets),
            },
    )
}

/// End: settles the personal records of the session in progress and gives it
/// the end time `now`.
pub open spec fn end_spec(s: StoreView, now: u64) -> Result<(StoreView, SessionEndedView), Error> {
    match active_session(s) {
        None => Err(Error::NoActiveSession),
        Some(a) => {
            let session = s.sessions[a];
            let settled = settle_records(s, session.exercises, session.exercises.len() as int, now);
            Ok(
                (
                    StoreView {
                        sessions: s.sessions.update(
                            a,
                            TrainingSessionView { end_time: Some(now), ..session },
                        ),
                        ..settled
                    },
                    SessionEndedView {
                        session_id: session.id,
                        start_time: session.start_time,
                        end_time: now,
                        new_records: settled.records.subrange(
                            s.records.len() as int,
                            settled.records.len() as int,
                        ),
                        exercises: summary_of(s.exercises, session.exercises),
                    },
                ),
            )
        },
    }
}

/// Settling records leaves programs and sessions alone and only adds to the
/// record log.
pub proof fn lemma_settle_records(
    s: StoreView,
    exercises: Seq<SessionExerciseView>,
    n: int,
    now: u64,
)
    ensures
        settle_records(s, exercises, n, now).sessions == s.sessions,
        settle_records(s, exercises, n, now).programs == s.programs,
        settle_records(s, exercises, n, now).fallback_sets == s.fallback_sets,
        settle_records(s, exercises, n, now).exercises.len() == s.exercises.len(),
        settle_records(s, exercises, n, now).records.len() >= s.records.len(),
        settle_records(s, exercises, n, now).records.subrange(0, s.records.len() as int)
            == s.records,
    decreases n,
{
    if n > 0 {
        lemma_settle_records(s, exercises, n - 1, now);
        let before = settle_records(s, exercises, n - 1, now);
        let after = settle_records(s, exercises, n, now);
        assert(after.records.subrange(0, s.records.len() as int) =~= before.records.subrange(
            0,
            s.records.len() as int,
        ));
    } else {
        assert(s.records.subrange(0, s.records.len() as int) =~= s.records);
    }
}

} // verus!
