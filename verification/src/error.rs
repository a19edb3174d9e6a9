//! The errors a command can end in, and the four classes they fall into.

use vstd::prelude::*;

verus! {

/// Why a command was refused. The store is left untouched by a refused command.
#[derive(Clone, Copy, Debug, PartialEq, Eq, Structural)]
pub enum Error {
    /// No training session is in progress.
    NoActiveSession,
    /// The program reference names no program.
    ProgramNotFound,
    /// The block reference names no block of the program.
    BlockNotFound,
    /// The exercise reference names no exercise of the catalog.
    ExerciseNotFound,
    /// The index names no exercise of the session.
    SessionExerciseNotFound,
    /// No completed session started on the given day.
    SessionNotFound,
    /// A training session is already in progress.
    SessionAlreadyActive,
    /// The catalog already holds an exercise of that name.
    DuplicateExercise,
    /// The weight is neither a decimal number nor the bodyweight word.
    InvalidWeight,
    /// The set index is zero: slots count from one.
    InvalidSetIndex,
    /// The text is no calendar date.
    InvalidDate,
    /// The muscle group is not one of the known ones.
    InvalidMuscle,
    /// The number of repetitions or of sets is negative.
    InvalidCount,
    /// A row that the command has to write to has gone missing.
    StorageFailure,
}

/// The four classes of failure.
#[derive(Clone, Copy, Debug, PartialEq, Eq, Structural)]
pub enum ErrorKind {
    NotFound,
    Conflict,
    InvalidInput,
    StorageFailure,
}

impl Error {
    /// The class an error belongs to.
    pub open spec fn kind_of(self) -> ErrorKind {
        match self {
            Error::NoActiveSession
            | Error::ProgramNotFound
            | Error::BlockNotFound
            | Error::ExerciseNotFound
            | Error::SessionExerciseNotFound
            | Error::SessionNotFound => ErrorKind::NotFound,
            Error::SessionAlreadyActive | Error::DuplicateExercise => ErrorKind::Conflict,
            Error::InvalidWeight
            | Error::InvalidSetIndex
            | Error::InvalidDate
            | Error::InvalidMuscle
            | Error::InvalidCount => ErrorKind::InvalidInput,
            Error::StorageFailure => ErrorKind::StorageFailure,
        }
    }

    /// The class this error belongs to.
    pub fn kind(&self) -> (k: ErrorKind)
        ensures
            k == self.kind_of(),
    {
        match self {
            Error::NoActiveSession => ErrorKind::NotFound,
            Error::ProgramNotFound => ErrorKind::NotFound,
            Error::BlockNotFound => ErrorKind::NotFound,
            Error::ExerciseNotFound => ErrorKind::NotFound,
            Error::SessionExerciseNotFound => ErrorKind::NotFound,
            Error::SessionNotFound => ErrorKind::NotFound,
            Error::SessionAlreadyActive => ErrorKind::Conflict,
            Error::DuplicateExercise => ErrorKind::Conflict,
            Error::InvalidWeight => ErrorKind::InvalidInput,
            Error::InvalidSetIndex => ErrorKind::InvalidInput,
            Error::InvalidDate => ErrorKind::InvalidInput,
            Error::InvalidMuscle => ErrorKind::InvalidInput,
            Error::InvalidCount => ErrorKind::InvalidInput,
            Error::StorageFailure => ErrorKind::StorageFailure,
        }
    }

    /// The one-line description of an error.
    pub open spec fn text_of(self) -> Seq<char> {
        match self {
            Error::NoActiveSession => "no active session"@,
            Error::ProgramNotFound => "no such program"@,
            Error::BlockNotFound => "no such block in the program"@,
            Error::ExerciseNotFound => "no such exercise"@,
            Error::SessionExerciseNotFound => "no exercise at that index in the session"@,
            Error::SessionNotFound => "no completed session on that day"@,
            Error::SessionAlreadyActive => "there is already an active session"@,
            Error::DuplicateExercise => "an exercise of that name already exists"@,
            Error::InvalidWeight => "invalid weight"@,
            Error::InvalidSetIndex => "no set at that index"@,
            Error::InvalidDate => "invalid date"@,
            Error::InvalidMuscle => "unknown muscle group"@,
            Error::InvalidCount => "a count must not be negative"@,
            Error::StorageFailure => "storage failure"@,
        }
    }

    /// A one-line description for the user.
    pub fn message(&self) -> (text: &'static str)
        ensures
            text@ == self.text_of(),
    {
        match self {
            Error::NoActiveSession => "no active session",
            Error::ProgramNotFound => "no such program",
            Error::BlockNotFound => "no such block in the program",
            Error::ExerciseNotFound => "no such exercise",
            Error::SessionExerciseNotFound => "no exercise at that index in the session",
            Error::SessionNotFound => "no completed session on that day",
            Error::SessionAlreadyActive => "there is already an active session",
            Error::DuplicateExercise => "an exercise of that name already exists",
            Error::InvalidWeight => "invalid weight",
            Error::InvalidSetIndex => "no set at that index",
            Error::InvalidDate => "invalid date",
            Error::InvalidMuscle => "unknown muscle group",
            Error::InvalidCount => "a count must not be negative",
            Error::StorageFailure => "storage failure",
        }
    }
}

} // verus!
