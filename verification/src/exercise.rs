//! The catalog store: adding, importing, listing and deleting exercises.

use crate::catalog::{exercise_names, find_exercise};
use crate::error::Error;
use crate::ids::fresh_id;
use crate::lookup::{position, position_from, unique_position};
use crate::models::{
    Exercise, ExerciseVariant, ExerciseVariantView, ExerciseView, Muscle, Store, StoreView,
};
use crate::refs::{parse_i64, parse_integer, parse_reference};
use crate::text::{
    ascii_lowercase, clone_text, has_control, has_control_chars, str_eq, str_less, text_less,
    to_ascii_lowercase,
};
use crate::types::{
    muscle_from_name, muscle_name, muscle_named, name_of_muscle, ExerciseDef, ExerciseImport,
};
use vstd::prelude::*;

verus! {

/// What became of one exercise of an import.
#[derive(Clone, Copy, Debug, PartialEq, Eq, Structural)]
pub enum ImportOutcome {
    Inserted,
    /// The catalog already held an exercise of the name.
    AlreadyExists,
    /// The muscle group is none of the known ones.
    UnknownMuscle,
}

/// What an import of exercises reports.
#[derive(Clone, Debug, PartialEq, Eq)]
pub struct ImportSummary {
    pub inserted: usize,
    pub skipped: usize,
    /// What became of each exercise of the file, in the order of the file.
    pub outcomes: Vec<ImportOutcome>,
    /// The muscle groups of the file that are not known, each once, in the
    /// order of their code points.
    pub unknown_muscles: Vec<String>,
}

/// The view of an [`ImportSummary`].
#[verifier::ext_equal]
pub struct ImportSummaryView {
    pub inserted: usize,
    pub skipped: usize,
    pub outcomes: Seq<ImportOutcome>,
    pub unknown_muscles: Seq<Seq<char>>,
}

impl View for ImportSummary {
    type V = ImportSummaryView;

    open spec fn view(&self) -> ImportSummaryView {
        ImportSummaryView {
            inserted: self.inserted,
            skipped: self.skipped,
            outcomes: self.outcomes@,
            unknown_muscles: self.unknown_muscles.deep_view(),
        }
    }
}

/// One line of the list of exercises.
#[derive(Clone, Debug, PartialEq, Eq)]
pub struct ExerciseRow {
    pub idx: u32,
    pub name: String,
    pub primary_muscle: Muscle,
    pub description: Option<String>,
}

/// The view of an [`ExerciseRow`].
#[verifier::ext_equal]
pub struct ExerciseRowView {
    pub idx: u32,
    pub name: Seq<char>,
    pub primary_muscle: Muscle,
    pub description: Option<Seq<char>>,
}

impl DeepView for ExerciseRow {
    type V = ExerciseRowView;

    open spec fn deep_view(&self) -> ExerciseRowView {
        ExerciseRowView {
            idx: self.idx,
            name: self.name@,
            primary_muscle: self.primary_muscle,
            description: self.description.deep_view(),
        }
    }
}

/// The muscle group that a text names in any letter case. A text with a
/// control character names none.
pub open spec fn muscle_of(text: Seq<char>) -> Option<Muscle> {
    if has_control(text) {
        None
    } else {
        muscle_named(ascii_lowercase(text))
    }
}

/// The highest display number among the first `n` exercises, zero where there
/// is none.
pub open spec fn highest_idx(catalog: Seq<ExerciseView>, n: int) -> nat
    decreases n,
{
    if n <= 0 {
        0
    } else {
        let before = highest_idx(catalog, n - 1);
        if catalog[n - 1].idx > before {
            catalog[n - 1].idx as nat
        } else {
            before
        }
    }
}

/// The exercise that an addition makes.
pub open spec fn new_exercise(
    catalog: Seq<ExerciseView>,
    id: u128,
    name: Seq<char>,
    muscle: Muscle,
    description: Option<Seq<char>>,
) -> ExerciseView {
    ExerciseView {
        id,
        idx: (highest_idx(catalog, catalog.len() as int) + 1) as u32,
        name,
        muscle,
        description,
        variants: Seq::empty(),
        best_estimated_1rm_x30: None,
        best_date: None,
    }
}

/// Add: puts a new exercise at the end of the catalog, with the next display
/// number. The outcome is the display number.
pub open spec fn create_exercise_spec(
    s: StoreView,
    name: Seq<char>,
    muscle: Seq<char>,
    description: Option<Seq<char>>,
    new_id: u128,
) -> Result<(StoreView, u32), Error> {
    match muscle_of(muscle) {
        None => Err(Error::InvalidMuscle),
        Some(m) => if position(exercise_names(s.exercises), name) is Some {
            Err(Error::DuplicateExercise)
        } else if highest_idx(s.exercises, s.exercises.len() as int) >= u32::MAX {
            Err(Error::StorageFailure)
        } else {
            let made = new_exercise(s.exercises, new_id, name, m, description);
            Ok((StoreView { exercises: s.exercises.push(made), ..s }, made.idx))
        },
    }
}

/// Where a text goes in a list that stands in the order of the code points:
/// the first position at or after `i` of a text that does not come before it,
/// or the length.
pub open spec fn sorted_place_from(list: Seq<Seq<char>>, text: Seq<char>, i: int) -> int
    decreases list.len() - i,
{
    if i < 0 || i >= list.len() {
        list.len() as int
    } else if !text_less(list[i], text) {
        i
    } else {
        sorted_place_from(list, text, i + 1)
    }
}

/// The list with the text at its place, unless the list has it there already.
pub open spec fn with_text(list: Seq<Seq<char>>, text: Seq<char>) -> Seq<Seq<char>> {
    let at = sorted_place_from(list, text, 0);
    if at < list.len() && list[at] == text {
        list
    } else {
        list.insert(at, text)
    }
}

/// The state of an import of exercises: the catalog and the report so far.
pub struct ImportState {
    pub catalog: Seq<ExerciseView>,
    pub summary: ImportSummaryView,
}

/// What becomes of one exercise of an import, given the catalog so far.
pub open spec fn import_outcome(catalog: Seq<ExerciseView>, def: ExerciseDef) -> ImportOutcome {
    if muscle_of(def.primary_muscle@) is None {
        ImportOutcome::UnknownMuscle
    } else if position(exercise_names(catalog), def.name@) is Some || highest_idx(
        catalog,
        catalog.len() as int,
    ) >= u32::MAX {
        ImportOutcome::AlreadyExists
    } else {
        ImportOutcome::Inserted
    }
}

/// The state of an import after the first `n` exercises of the file: an
/// exercise with an unknown muscle group is passed over and its muscle group
/// reported, one whose name the catalog holds is passed over, every other one
/// is added to the catalog with the identifier `ids[i]` for the `i`-th of the
/// file.
pub open spec fn import_state(
    s: StoreView,
    defs: Seq<ExerciseDef>,
    ids: Seq<u128>,
    n: int,
) -> ImportState
    decreases n,
{
    if n <= 0 {
        ImportState {
            catalog: s.exercises,
            summary: ImportSummaryView {
                inserted: 0,
                skipped: 0,
                outcomes: Seq::empty(),
                unknown_muscles: Seq::empty(),
            },
        }
    } else {
        let before = import_state(s, defs, ids, n - 1);
        let def = defs[n - 1];
        let outcome = import_outcome(before.catalog, def);
        ImportState {
            catalog: if outcome == ImportOutcome::Inserted {
                before.catalog.push(
                    new_exercise(
                        before.catalog,
                        ids[n - 1],
                        def.name@,
                        muscle_of(def.primary_muscle@)->0,
                        def.description.deep_view(),
                    ),
                )
            } else {
                before.catalog
            },
            summary: ImportSummaryView {
                inserted: if outcome == ImportOutcome::Inserted {
                    (before.summary.inserted + 1) as usize
                } else {
                    before.summary.inserted
                },
                skipped: if outcome == ImportOutcome::Inserted {
                    before.summary.skipped
                } else {
                    (before.summary.skipped + 1) as usize
                },
                outcomes: before.summary.outcomes.push(outcome),
                unknown_muscles: if outcome == ImportOutcome::UnknownMuscle {
                    with_text(before.summary.unknown_muscles, def.primary_muscle@)
                } else {
                    before.summary.unknown_muscles
                },
            },
        }
    }
}

/// The display numbers of the catalog.
pub open spec fn display_numbers(catalog: Seq<ExerciseView>) -> Seq<u32> {
    Seq::new(catalog.len(), |i: int| catalog[i].idx)
}

/// The exercise that a reference names for a deletion: a number is a display
/// number, anything else the name of one exercise.
pub open spec fn exercise_to_delete(catalog: Seq<ExerciseView>, text: Seq<char>) -> Option<int> {
    match parse_integer(text) {
        Some(n) => if 0 <= n <= u32::MAX {
            position(display_numbers(catalog), n as u32)
        } else {
            None
        },
        None => unique_position(exercise_names(catalog), text),
    }
}

/// Delete: removes an exercise with its variants. The outcome is its name.
pub open spec fn delete_exercise_spec(s: StoreView, exercise: Seq<char>) -> Result<
    (StoreView, Seq<char>),
    Error,
> {
    match exercise_to_delete(s.exercises, exercise) {
        None => Err(Error::ExerciseNotFound),
        Some(i) => Ok((StoreView { exercises: s.exercises.remove(i), ..s }, s.exercises[i].name)),
    }
}

/// The row of the list for an exercise.
pub open spec fn row_of(e: ExerciseView) -> ExerciseRowView {
    ExerciseRowView {
        idx: e.idx,
        name: e.name,
        primary_muscle: e.muscle,
        description: e.description,
    }
}

/// The rows of the first `n` exercises whose muscle group has the name
/// `muscle`, or of all of them where no muscle group is given.
pub open spec fn exercise_rows(
    catalog: Seq<ExerciseView>,
    muscle: Option<Seq<char>>,
    n: int,
) -> Seq<ExerciseRowView>
    decreases n,
{
    if n <= 0 {
        Seq::empty()
    } else {
        let before = exercise_rows(catalog, muscle, n - 1);
        let shown = match muscle {
            Some(m) => muscle_name(catalog[n - 1].muscle) == m,
            None => true,
        };
        if shown {
            before.push(row_of(catalog[n - 1]))
        } else {
            before
        }
    }
}

/// The muscle group that a text names in any letter case.
pub fn parse_muscle(text: &str) -> (m: Option<Muscle>)
    ensures
        m == muscle_of(text@),
{
    if has_control_chars(text) {
        None
    } else {
        let lower = to_ascii_lowercase(text);
        muscle_from_name(lower.as_str())
    }
}

/// The highest display number of the catalog, zero where it is empty.
pub fn last_idx(catalog: &Vec<Exercise>) -> (idx: u32)
    ensures
        idx == highest_idx(catalog.deep_view(), catalog.len() as int),
{
    let mut idx: u32 = 0;
    let mut n: usize = 0;
    while n < catalog.len()
        invariant
            n <= catalog.len(),
            idx == highest_idx(catalog.deep_view(), n as int),
        decreases catalog.len() - n,
    {
        if catalog[n].idx > idx {
            idx = catalog[n].idx;
        }
        n += 1;
    }
    idx
}

fn named_in_catalog(catalog: &Vec<Exercise>, name: &str) -> (found: bool)
    ensures
        found == (position(exercise_names(catalog.deep_view()), name@) is Some),
{
    let ghost names = exercise_names(catalog.deep_view());
    let mut i: usize = 0;
    while i < catalog.len()
        invariant
            names == exercise_names(catalog.deep_view()),
            position(names, name@) == position_from(names, name@, i as int),
        decreases catalog.len() - i,
    {
        if str_eq(catalog[i].name.as_str(), name) {
            return true;
        }
        i += 1;
    }
    false
}

/// Add with the identifier given.
pub fn create_exercise_with_id(
    store: &mut Store,
    name: &str,
    muscle: &str,
    description: Option<String>,
    new_id: u128,
) -> (r: Result<u32, Error>)
    ensures
        match create_exercise_spec(old(store)@, name@, muscle@, description.deep_view(), new_id) {
            Ok((after, idx)) => r == Ok::<u32, Error>(idx) && final(store)@ == after,
            Err(e) => r == Err::<u32, Error>(e) && final(store)@ == old(store)@,
        },
{
    let m = match parse_muscle(muscle) {
        Some(m) => m,
        None => {
            return Err(Error::InvalidMuscle);
        },
    };
    if named_in_catalog(&store.exercises, name) {
        return Err(Error::DuplicateExercise);
    }
    let last = last_idx(&store.exercises);
    if last == u32::MAX {
        return Err(Error::StorageFailure);
    }
    let idx: u32 = last + 1;
    let made = Exercise {
        id: new_id,
        idx,
        name: name.to_owned(),
        muscle: m,
        description,
        variants: Vec::new(),
        best_estimated_1rm_x30: None,
        best_date: None,
    };
    assert(made.deep_view() =~~= new_exercise(
        old(store)@.exercises,
        new_id,
        name@,
        m,
        description.deep_view(),
    ));
    let ghost view = made.deep_view();
    store.exercises.push(made);
    assert(store.exercises.deep_view() =~= old(store).exercises.deep_view().push(view));
    assert(store@ =~~= create_exercise_spec(
        old(store)@,
        name@,
        muscle@,
        description.deep_view(),
        new_id,
    )->Ok_0.0);
    Ok(idx)
}

/// Add: puts a new exercise at the end of the catalog, with the next display
/// number, which it returns. The muscle group may be written in any letter
/// case. The exercise is refused where the muscle group is none of the known
/// ones and where the catalog holds an exercise of the name. The new row gets
/// a fresh random identifier.
pub fn create_exercise(
    store: &mut Store,
    name: &str,
    muscle: &str,
    description: Option<String>,
) -> (r: Result<u32, Error>)
    ensures
        exists|new_id: u128|
            match #[trigger] create_exercise_spec(
                old(store)@,
                name@,
                muscle@,
                description.deep_view(),
                new_id,
            ) {
                Ok((after, idx)) => r == Ok::<u32, Error>(idx) && final(store)@ == after,
                Err(e) => r == Err::<u32, Error>(e) && final(store)@ == old(store)@,
            },
{
    let new_id = fresh_id();
    create_exercise_with_id(store, name, muscle, description, new_id)
}

fn sorted_place(list: &Vec<String>, text: &str) -> (at: usize)
    ensures
        at == sorted_place_from(list.deep_view(), text@, 0),
        at <= list.len(),
{
    let mut i: usize = 0;
    while i < list.len()
        invariant
            i <= list.len(),
            sorted_place_from(list.deep_view(), text@, 0) == sorted_place_from(
                list.deep_view(),
                text@,
                i as int,
            ),
        decreases list.len() - i,
    {
        if !str_less(list[i].as_str(), text) {
            return i;
        }
        i += 1;
    }
    i
}

/// Puts a text at its place in a list that stands in the order of the code
/// points, unless the list has it there already.
pub fn insert_text(list: &mut Vec<String>, text: &str)
    ensures
        final(list).deep_view() == with_text(old(list).deep_view(), text@),
{
    let at = sorted_place(list, text);
    if at < list.len() && str_eq(list[at].as_str(), text) {
        return ;
    }
    list.insert(at, text.to_owned());
    assert(list.deep_view() =~= old(list).deep_view().insert(at as int, text@));
}

/// Import with the identifiers given: takes the exercises of a file into the
/// catalog, the `i`-th with the identifier `ids[i]`.
pub fn import_exercises_with_ids(store: &mut Store, file: &ExerciseImport, ids: &Vec<u128>) -> (r:
    ImportSummary)
    requires
        ids.len() >= file.exercise.len(),
    ensures
        r@ == import_state(old(store)@, file.exercise@, ids@, file.exercise.len() as int).summary,
        final(store)@ == (StoreView {
            exercises: import_state(
                old(store)@,
                file.exercise@,
                ids@,
                file.exercise.len() as int,
            ).catalog,
            ..old(store)@
        }),
{
    let ghost before = old(store)@;
    let mut summary = ImportSummary {
        inserted: 0,
        skipped: 0,
        outcomes: Vec::new(),
        unknown_muscles: Vec::new(),
    };
    assert(summary@ =~~= import_state(before, file.exercise@, ids@, 0).summary);
    assert(store.exercises.deep_view() == import_state(before, file.exercise@, ids@, 0).catalog);
    let mut n: usize = 0;
    while n < file.exercise.len()
        invariant
            n <= file.exercise.len() <= ids.len(),
            before == old(store)@,
            summary@ == import_state(before, file.exercise@, ids@, n as int).summary,
            store.exercises.deep_view() == import_state(
                before,
                file.exercise@,
                ids@,
                n as int,
            ).catalog,
            store.programs == old(store).programs,
            store.sessions == old(store).sessions,
            store.records == old(store).records,
            store.fallback_sets == old(store).fallback_sets,
            summary.inserted <= n,
            summary.skipped <= n,
        decreases file.exercise.len() - n,
    {
        let def = &file.exercise[n];
        let ghost here = import_state(before, file.exercise@, ids@, n as int);
        let ghost next = import_state(before, file.exercise@, ids@, n + 1);
        let ghost reported = summary@;
        let outcome = match parse_muscle(def.primary_muscle.as_str()) {
            None => {
                insert_text(&mut summary.unknown_muscles, def.primary_muscle.as_str());
                summary.skipped = summary.skipped + 1;
                ImportOutcome::UnknownMuscle
            },
            Some(m) => {
                let last = last_idx(&store.exercises);
                if named_in_catalog(&store.exercises, def.name.as_str()) || last == u32::MAX {
                    summary.skipped = summary.skipped + 1;
                    ImportOutcome::AlreadyExists
                } else {
                    let made = Exercise {
                        id: ids[n],
                        idx: last + 1,
                        name: def.name.clone(),
                        muscle: m,
                        description: clone_text(&def.description),
                        variants: Vec::new(),
                        best_estimated_1rm_x30: None,
                        best_date: None,
                    };
                    assert(made.deep_view() =~~= new_exercise(
                        here.catalog,
                        ids@[n as int],
                        def.name@,
                        m,
                        def.description.deep_view(),
                    ));
                    let ghost view = made.deep_view();
                    store.exercises.push(made);
                    assert(store.exercises.deep_view() =~= here.catalog.push(view));
                    summary.inserted = summary.inserted + 1;
                    ImportOutcome::Inserted
                }
            },
        };
        summary.outcomes.push(outcome);
        assert(outcome == import_outcome(here.catalog, file.exercise@[n as int]));
        assert(summary@ =~~= next.summary);
        n += 1;
    }
    assert(store@ =~~= (StoreView {
        exercises: import_state(before, file.exercise@, ids@, file.exercise.len() as int).catalog,
        ..before
    }));
    summary
}

/// Import: takes the exercises of a file into the catalog, in the order of
/// the file. An exercise whose muscle group is none of the known ones is
/// passed over and its muscle group reported; one whose name the catalog
/// holds is passed over; every other one goes to the end of the catalog with
/// the next display number. New rows get fresh random identifiers.
pub fn import_exercises(store: &mut Store, file: &ExerciseImport) -> (r: ImportSummary)
    ensures
        exists|ids: Seq<u128>|
            #![trigger import_state(old(store)@, file.exercise@, ids, file.exercise.len() as int)]
            r@ == import_state(old(store)@, file.exercise@, ids, file.exercise.len() as int).summary
                && final(store)@ == (StoreView {
                exercises: import_state(
                    old(store)@,
                    file.exercise@,
                    ids,
                    file.exercise.len() as int,
                ).catalog,
                ..old(store)@
            }),
{
    let mut ids: Vec<u128> = Vec::new();
    while ids.len() < file.exercise.len()
        decreases file.exercise.len() - ids.len(),
    {
        ids.push(fresh_id());
    }
    import_exercises_with_ids(store, file, &ids)
}

fn numbered_in_catalog(catalog: &Vec<Exercise>, idx: u32) -> (found: Option<usize>)
    ensures
        match found {
            Some(i) => position(display_numbers(catalog.deep_view()), idx) == Some(i as int) && i
                < catalog.len(),
            None => position(display_numbers(catalog.deep_view()), idx) is None,
        },
{
    let ghost numbers = display_numbers(catalog.deep_view());
    let mut i: usize = 0;
    while i < catalog.len()
        invariant
            numbers == display_numbers(catalog.deep_view()),
            position(numbers, idx) == position_from(numbers, idx, i as int),
        decreases catalog.len() - i,
    {
        if catalog[i].idx == idx {
            return Some(i);
        }
        i += 1;
    }
    None
}

/// Delete: removes the exercise that `exercise` names, a number being its
/// display number and anything else its exact name, with its variants, and
/// returns its name.
pub fn delete_exercise(store: &mut Store, exercise: &str) -> (r: Result<String, Error>)
    ensures
        match delete_exercise_spec(old(store)@, exercise@) {
            Ok((after, name)) => r is Ok && r->Ok_0@ == name && final(store)@ == after,
            Err(e) => r == Err::<String, Error>(e) && final(store)@ == old(store)@,
        },
{
    let found = match parse_i64(exercise) {
        Some(n) => {
            if 0 <= n && n <= 0xffff_ffff {
                numbered_in_catalog(&store.exercises, n as u32)
            } else {
                None
            }
        },
        None => {
            let reference = parse_reference(exercise);
            find_exercise(&store.exercises, &reference)
        },
    };
    match found {
        Some(i) => {
            let removed = store.exercises.remove(i);
            assert(store@ =~~= delete_exercise_spec(old(store)@, exercise@)->Ok_0.0);
            Ok(removed.name)
        },
        None => Err(Error::ExerciseNotFound),
    }
}

/// List: one row for each exercise of the catalog, in the order of the
/// display numbers; with a muscle group given, for each exercise of that
/// muscle group, written in lower case.
pub fn list_exercises(store: &Store, muscle: Option<&str>) -> (rows: Vec<ExerciseRow>)
    ensures
        rows.deep_view() == exercise_rows(
            store@.exercises,
            muscle.deep_view(),
            store@.exercises.len() as int,
        ),
{
    let mut rows: Vec<ExerciseRow> = Vec::new();
    assert(rows.deep_view() =~= Seq::<ExerciseRowView>::empty());
    let mut n: usize = 0;
    while n < store.exercises.len()
        invariant
            n <= store.exercises.len(),
            rows.deep_view() == exercise_rows(store@.exercises, muscle.deep_view(), n as int),
        decreases store.exercises.len() - n,
    {
        let e = &store.exercises[n];
        let shown = match muscle {
            Some(m) => str_eq(name_of_muscle(e.muscle), m),
            None => true,
        };
        if shown {
            let ghost before = rows.deep_view();
            let row = ExerciseRow {
                idx: e.idx,
                name: e.name.clone(),
                primary_muscle: e.muscle,
                description: clone_text(&e.description),
            };
            assert(row.deep_view() =~~= row_of(store@.exercises[n as int]));
            rows.push(row);
            assert(rows.deep_view() =~= before.push(row_of(store@.exercises[n as int])));
        }
        n += 1;
    }
    rows
}

/// The highest number among the first `n` variants, zero where there is none.
pub open spec fn highest_variant(variants: Seq<ExerciseVariantView>, n: int) -> nat
    decreases n,
{
    if n <= 0 {
        0
    } else {
        let before = highest_variant(variants, n - 1);
        if variants[n - 1].idx > before {
            variants[n - 1].idx as nat
        } else {
            before
        }
    }
}

/// Adds a variant to the exercise that the reference names, by 1-based
/// catalog position or exact name, with the next number among the variants
/// of the exercise. The outcome is that number.
pub open spec fn add_variant_spec(s: StoreView, exercise: Seq<char>, name: Seq<char>) -> Result<
    (StoreView, u32),
    Error,
> {
    match crate::catalog::resolve_exercise(s, crate::refs::reference_of(exercise)) {
        None => Err(Error::ExerciseNotFound),
        Some(x) => {
            let e = s.exercises[x];
            let last = highest_variant(e.variants, e.variants.len() as int);
            if last >= u32::MAX {
                Err(Error::StorageFailure)
            } else {
                Ok(
                    (
                        StoreView {
                            exercises: s.exercises.update(
                                x,
                                ExerciseView {
                                    variants: e.variants.push(
                                        ExerciseVariantView { idx: (last + 1) as u32, name },
                                    ),
                                    ..e
                                },
                            ),
                            ..s
                        },
                        (last + 1) as u32,
                    ),
                )
            }
        },
    }
}

fn last_variant(variants: &Vec<ExerciseVariant>) -> (idx: u32)
    ensures
        idx == highest_variant(variants.deep_view(), variants.len() as int),
{
    let mut idx: u32 = 0;
    let mut n: usize = 0;
    while n < variants.len()
        invariant
            n <= variants.len(),
            idx == highest_variant(variants.deep_view(), n as int),
        decreases variants.len() - n,
    {
        if variants[n].idx > idx {
            idx = variants[n].idx;
        }
        n += 1;
    }
    idx
}

/// Adds a named variant to the exercise that `exercise` names, by 1-based
/// catalog position or exact name. The variant gets the next number among
/// the variants of the exercise, which is returned.
pub fn add_variant(store: &mut Store, exercise: &str, name: &str) -> (r: Result<u32, Error>)
    ensures
        match add_variant_spec(old(store)@, exercise@, name@) {
            Ok((after, idx)) => r == Ok::<u32, Error>(idx) && final(store)@ == after,
            Err(e) => r == Err::<u32, Error>(e) && final(store)@ == old(store)@,
        },
{
    let reference = parse_reference(exercise);
    let x = match find_exercise(&store.exercises, &reference) {
        Some(x) => x,
        None => {
            return Err(Error::ExerciseNotFound);
        },
    };
    let last = last_variant(&store.exercises[x].variants);
    if last == u32::MAX {
        return Err(Error::StorageFailure);
    }
    let idx: u32 = last + 1;
    store.exercises[x].variants.push(ExerciseVariant { idx, name: name.to_owned() });
    assert(store@ =~~= add_variant_spec(old(store)@, exercise@, name@)->Ok_0.0);
    Ok(idx)
}

} // verus!
