//! The commands of the tracker as plain values.

use vstd::prelude::*;

verus! {

/// A parsed command line.
#[derive(Clone, Debug, PartialEq, Eq)]
pub struct Cli {
    /// Whether machine-readable output is asked for.
    pub json: bool,
    pub cmd: Commands,
}

/// The commands of the tracker.
#[derive(Clone, Debug, PartialEq, Eq)]
pub enum Commands {
    Session(SessionCmd),
    Exercise(ExerciseCmd),
    Config(ConfigCmd),
    Program(ProgramCmd),
    Calendar { year: Option<i32>, month: Option<u32> },
    Status { muscle: Option<String>, weeks: u32, graph: bool },
    Db(DbCmd),
}

/// The commands of the session state machine.
#[derive(Clone, Debug, PartialEq, Eq)]
#[allow(inconsistent_fields)]
pub enum SessionCmd {
    Start(StartArgs),
    Cancel,
    Show,
    End,
    Edit {
        /// The 1-based place of the exercise in the session.
        exercise: usize,
        /// Kilograms, or the bodyweight word.
        weight: String,
        reps: i32,
        /// The 1-based slot to write to; the next free one where none is given.
        set: Option<usize>,
        /// Asks for a new set; sets are appended in any case where no slot is
        /// given.
        new: bool,
    },
    Swap { exercise: usize, new_exercise: String },
    AddEx { exercise: String, sets: i32 },
    Note { exercise: usize, note: String },
    Log {
        /// Day, month and year with hyphens between them.
        date: String,
    },
}

/// The commands on the exercise catalog.
#[derive(Clone, Debug, PartialEq, Eq)]
#[allow(inconsistent_fields)]
pub enum ExerciseCmd {
    Add { name: String, muscle: String, desc: Option<String> },
    Import { file: String },
    List { muscle: Option<String> },
    Delete { exercise: String },
    Show { exercise: Vec<String>, graph: bool },
}

/// The commands on the configuration.
#[derive(Clone, Debug, PartialEq, Eq)]
pub enum ConfigCmd {
    List,
    Get { key: String },
    /// Sets or overrides a key.
    SetValue { key: String, val: String },
    Unset { key: String },
}

/// The commands on the training programs.
#[derive(Clone, Debug, PartialEq, Eq)]
pub enum ProgramCmd {
    Import { files: Vec<String> },
    List,
    Show { program: String },
    Delete { program: String },
}

/// What a start is given: references to a program and to one of its blocks,
/// and optionally a week.
#[derive(Clone, Debug, PartialEq, Eq)]
pub struct StartArgs {
    pub program: String,
    pub block: String,
    pub week: Option<i32>,
}

/// The commands on the database as a whole.
#[derive(Clone, Debug, PartialEq, Eq)]
#[allow(inconsistent_fields)]
pub enum DbCmd {
    Export { file: Option<String> },
    Import { file: String },
    Migrate { old_db: String },
}

} // verus!
