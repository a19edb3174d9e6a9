//! The records the tracker keeps, and their mathematical views.
//!
//! Identifiers are 128-bit numbers, times are seconds since the Unix epoch,
//! weights are whole grams, and targets for perceived exertion and for
//! percentages of a one-repetition maximum are tenths. The view of a record
//! holds the same fields with strings as sequences of characters and vectors
//! as sequences.

use vstd::prelude::*;

verus! {

/// The closed set of primary muscle groups.
#[derive(Clone, Copy, Debug, PartialEq, Eq, Structural)]
pub enum Muscle {
    Biceps,
    Triceps,
    Forearms,
    Chest,
    Shoulders,
    Back,
    Quads,
    Hamstrings,
    Glutes,
    Calves,
    Abs,
}

/// The formulas by which a one-repetition maximum can be estimated.
#[derive(Clone, Copy, Debug, PartialEq, Eq, Structural)]
pub enum OneRMFormula {
    Epley,
    Brzycki,
    Lombardi,
    OConner,
}

/// A named variant of an exercise, numbered within its exercise.
#[derive(Clone, Debug, PartialEq, Eq)]
pub struct ExerciseVariant {
    pub idx: u32,
    pub name: String,
}

/// The view of an [`ExerciseVariant`].
pub struct ExerciseVariantView {
    pub idx: u32,
    pub name: Seq<char>,
}

impl DeepView for ExerciseVariant {
    type V = ExerciseVariantView;

    open spec fn deep_view(&self) -> ExerciseVariantView {
        ExerciseVariantView { idx: self.idx, name: self.name@ }
    }
}

impl View for ExerciseVariant {
    type V = ExerciseVariantView;

    open spec fn view(&self) -> ExerciseVariantView {
        self.deep_view()
    }
}

/// An exercise of the catalog.
#[derive(Clone, Debug, PartialEq, Eq)]
pub struct Exercise {
    pub id: u128,
    /// The display number, which grows with every exercise added.
    pub idx: u32,
    pub name: String,
    pub muscle: Muscle,
    pub description: Option<String>,
    pub variants: Vec<ExerciseVariant>,
    /// Thirty times the estimate of the record shown for the exercise.
    pub best_estimated_1rm_x30: Option<u128>,
    /// When the record shown for the exercise was set.
    pub best_date: Option<u64>,
}

/// The view of an [`Exercise`].
#[verifier::ext_equal]
pub struct ExerciseView {
    pub id: u128,
    pub idx: u32,
    pub name: Seq<char>,
    pub muscle: Muscle,
    pub description: Option<Seq<char>>,
    pub variants: Seq<ExerciseVariantView>,
    pub best_estimated_1rm_x30: Option<u128>,
    pub best_date: Option<u64>,
}

impl DeepView for Exercise {
    type V = ExerciseView;

    open spec fn deep_view(&self) -> ExerciseView {
        ExerciseView {
            id: self.id,
            idx: self.idx,
            name: self.name@,
            muscle: self.muscle,
            description: self.description.deep_view(),
            variants: self.variants.deep_view(),
            best_estimated_1rm_x30: self.best_estimated_1rm_x30,
            best_date: self.best_date,
        }
    }
}

impl View for Exercise {
    type V = ExerciseView;

    open spec fn view(&self) -> ExerciseView {
        self.deep_view()
    }
}

/// The prescription of one exercise within a block.
#[derive(Clone, Debug, PartialEq, Eq)]
pub struct ProgramExercise {
    pub id: u128,
    pub exercise_id: u128,
    /// The prescribed number of sets.
    pub sets: u32,
    /// The repetition target of each set, as written in the program.
    pub reps: Vec<String>,
    /// The target exertion of each set, in tenths.
    pub target_rpe: Vec<u32>,
    /// The target share of the reference maximum of each set, in tenths of a percent.
    pub target_rm_percent: Vec<u32>,
    pub notes: Option<String>,
    /// The reference one-repetition maximum in grams.
    pub program_1rm: Option<u32>,
    pub technique: Option<String>,
    pub technique_group: Option<u32>,
    pub order_index: u32,
}

/// The view of a [`ProgramExercise`].
#[verifier::ext_equal]
pub struct ProgramExerciseView {
    pub id: u128,
    pub exercise_id: u128,
    pub sets: u32,
    pub reps: Seq<Seq<char>>,
    pub target_rpe: Seq<u32>,
    pub target_rm_percent: Seq<u32>,
    pub notes: Option<Seq<char>>,
    pub program_1rm: Option<u32>,
    pub technique: Option<Seq<char>>,
    pub technique_group: Option<u32>,
    pub order_index: u32,
}

impl DeepView for ProgramExercise {
    type V = ProgramExerciseView;

    open spec fn deep_view(&self) -> ProgramExerciseView {
        ProgramExerciseView {
            id: self.id,
            exercise_id: self.exercise_id,
            sets: self.sets,
            reps: self.reps.deep_view(),
            target_rpe: self.target_rpe@,
            target_rm_percent: self.target_rm_percent@,
            notes: self.notes.deep_view(),
            program_1rm: self.program_1rm,
            technique: self.technique.deep_view(),
            technique_group: self.technique_group,
            order_index: self.order_index,
        }
    }
}

impl View for ProgramExercise {
    type V = ProgramExerciseView;

    open spec fn view(&self) -> ProgramExerciseView {
        self.deep_view()
    }
}

/// A named phase of a program with its prescriptions in display order.
#[derive(Clone, Debug, PartialEq, Eq)]
pub struct Block {
    pub id: u128,
    pub name: String,
    pub description: Option<String>,
    pub week: Option<u32>,
    pub exercises: Vec<ProgramExercise>,
}

/// The view of a [`Block`].
#[verifier::ext_equal]
pub struct BlockView {
    pub id: u128,
    pub name: Seq<char>,
    pub description: Option<Seq<char>>,
    pub week: Option<u32>,
    pub exercises: Seq<ProgramExerciseView>,
}

impl DeepView for Block {
    type V = BlockView;

    open spec fn deep_view(&self) -> BlockView {
        BlockView {
            id: self.id,
            name: self.name@,
            description: self.description.deep_view(),
            week: self.week,
            exercises: self.exercises.deep_view(),
        }
    }
}

impl View for Block {
    type V = BlockView;

    open spec fn view(&self) -> BlockView {
        self.deep_view()
    }
}

/// A training program with its blocks in display order.
#[derive(Clone, Debug, PartialEq, Eq)]
pub struct Program {
    pub id: u128,
    pub name: String,
    pub description: Option<String>,
    pub blocks: Vec<Block>,
}

/// The view of a [`Program`].
#[verifier::ext_equal]
pub struct ProgramView {
    pub id: u128,
    pub name: Seq<char>,
    pub description: Option<Seq<char>>,
    pub blocks: Seq<BlockView>,
}

impl DeepView for Program {
    type V = ProgramView;

    open spec fn deep_view(&self) -> ProgramView {
        ProgramView {
            id: self.id,
            name: self.name@,
            description: self.description.deep_view(),
            blocks: self.blocks.deep_view(),
        }
    }
}

impl View for Program {
    type V = ProgramView;

    open spec fn view(&self) -> ProgramView {
        self.deep_view()
    }
}

/// One logged set. Its slot is its place among the sets of its exercise.
#[derive(Clone, Debug, PartialEq, Eq)]
pub struct ExerciseSet {
    pub id: u128,
    /// Grams; zero for a bodyweight set.
    pub weight: u32,
    pub reps: u32,
    /// Perceived exertion in tenths.
    pub rpe: Option<u32>,
    /// Share of the one-repetition maximum in tenths of a percent.
    pub rm_percent: Option<u32>,
    pub notes: Option<String>,
    /// When the set was last written.
    pub timestamp: u64,
    pub bodyweight: bool,
    /// Set to keep the set out of the personal records.
    pub ignore_for_one_rm: bool,
}

/// The view of an [`ExerciseSet`].
#[verifier::ext_equal]
pub struct ExerciseSetView {
    pub id: u128,
    pub weight: u32,
    pub reps: u32,
    pub rpe: Option<u32>,
    pub rm_percent: Option<u32>,
    pub notes: Option<Seq<char>>,
    pub timestamp: u64,
    pub bodyweight: bool,
    pub ignore_for_one_rm: bool,
}

impl DeepView for ExerciseSet {
    type V = ExerciseSetView;

    open spec fn deep_view(&self) -> ExerciseSetView {
        ExerciseSetView {
            id: self.id,
            weight: self.weight,
            reps: self.reps,
            rpe: self.rpe,
            rm_percent: self.rm_percent,
            notes: self.notes.deep_view(),
            timestamp: self.timestamp,
            bodyweight: self.bodyweight,
            ignore_for_one_rm: self.ignore_for_one_rm,
        }
    }
}

impl View for ExerciseSet {
    type V = ExerciseSetView;

    open spec fn view(&self) -> ExerciseSetView {
        self.deep_view()
    }
}

/// One exercise of a training session with its sets in the order they were
/// logged.
#[derive(Clone, Debug, PartialEq, Eq)]
pub struct SessionExercise {
    pub id: u128,
    pub exercise_id: u128,
    pub note: Option<String>,
    pub sets: Vec<ExerciseSet>,
}

/// The view of a [`SessionExercise`].
#[verifier::ext_equal]
pub struct SessionExerciseView {
    pub id: u128,
    pub exercise_id: u128,
    pub note: Option<Seq<char>>,
    pub sets: Seq<ExerciseSetView>,
}

impl DeepView for SessionExercise {
    type V = SessionExerciseView;

    open spec fn deep_view(&self) -> SessionExerciseView {
        SessionExerciseView {
            id: self.id,
            exercise_id: self.exercise_id,
            note: self.note.deep_view(),
            sets: self.sets.deep_view(),
        }
    }
}

impl View for SessionExercise {
    type V = SessionExerciseView;

    open spec fn view(&self) -> SessionExerciseView {
        self.deep_view()
    }
}

/// A training session with its exercises in the order they joined it. The
/// session is in progress while it has no end time.
#[derive(Clone, Debug, PartialEq, Eq)]
pub struct TrainingSession {
    pub id: u128,
    pub block_id: u128,
    pub start_time: u64,
    pub end_time: Option<u64>,
    pub exercises: Vec<SessionExercise>,
}

/// The view of a [`TrainingSession`].
#[verifier::ext_equal]
pub struct TrainingSessionView {
    pub id: u128,
    pub block_id: u128,
    pub start_time: u64,
    pub end_time: Option<u64>,
    pub exercises: Seq<SessionExerciseView>,
}

impl DeepView for TrainingSession {
    type V = TrainingSessionView;

    open spec fn deep_view(&self) -> TrainingSessionView {
        TrainingSessionView {
            id: self.id,
            block_id: self.block_id,
            start_time: self.start_time,
            end_time: self.end_time,
            exercises: self.exercises.deep_view(),
        }
    }
}

impl View for TrainingSession {
    type V = TrainingSessionView;

    open spec fn view(&self) -> TrainingSessionView {
        self.deep_view()
    }
}

/// One entry of the personal-record log.
#[derive(Clone, Copy, Debug, PartialEq, Eq, Structural)]
pub struct PersonalRecord {
    pub exercise_id: u128,
    /// When the record was set.
    pub date: u64,
    /// Grams; zero marks a bodyweight record.
    pub weight: u32,
    pub reps: u32,
    /// Thirty times the estimated one-repetition maximum, in grams.
    pub estimated_1rm_x30: u128,
}

/// What was lifted in an earlier session at some slot.
#[derive(Clone, Copy, Debug, PartialEq, Eq, Structural)]
pub struct SetReference {
    /// Grams.
    pub weight: u32,
    pub reps: u32,
    /// Thirty times the estimated one-repetition maximum, in grams.
    pub estimated_1rm_x30: u128,
}

/// The whole state of the tracker.
#[derive(Clone, Debug, PartialEq, Eq)]
pub struct Store {
    /// The catalog in the order of the display numbers.
    pub exercises: Vec<Exercise>,
    /// The programs in display order.
    pub programs: Vec<Program>,
    /// The sessions in the order they were started.
    pub sessions: Vec<TrainingSession>,
    /// The personal-record log in the order the records were written.
    pub records: Vec<PersonalRecord>,
    /// The number of sets shown for an exercise that the block does not prescribe.
    pub fallback_sets: u32,
}

/// The view of a [`Store`].
#[verifier::ext_equal]
pub struct StoreView {
    pub exercises: Seq<ExerciseView>,
    pub programs: Seq<ProgramView>,
    pub sessions: Seq<TrainingSessionView>,
    pub records: Seq<PersonalRecord>,
    pub fallback_sets: u32,
}

impl View for Store {
    type V = StoreView;

    open spec fn view(&self) -> StoreView {
        StoreView {
            exercises: self.exercises.deep_view(),
            programs: self.programs.deep_view(),
            sessions: self.sessions.deep_view(),
            records: self.records@,
            fallback_sets: self.fallback_sets,
        }
    }
}

/// The number of sets shown for an exercise that the block does not prescribe,
/// unless the store is told otherwise.
pub const DEFAULT_FALLBACK_SETS: u32 = 2;

impl Store {
    /// A store that holds nothing.
    pub fn new() -> (store: Store)
        ensures
            store@.exercises.len() == 0,
            store@.programs.len() == 0,
            store@.sessions.len() == 0,
            store@.records.len() == 0,
            store@.fallback_sets == DEFAULT_FALLBACK_SETS,
    {
        Store {
            exercises: Vec::new(),
            programs: Vec::new(),
            sessions: Vec::new(),
            records: Vec::new(),
            fallback_sets: DEFAULT_FALLBACK_SETS,
        }
    }
}

} // verus!
