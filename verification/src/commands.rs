//! The session commands as one function of the parsed command.

use crate::cli::SessionCmd;
use crate::dates::parsed_day;
use crate::error::Error;
use crate::laws::{
    handle_keeps_one_active, handle_keeps_records_rising, handle_keeps_sessions_with_blocks,
    records_rise,
};
use crate::models::Store;
use crate::report::{
    log_spec, session_log, show_session, show_spec, SessionReport, SessionReportView,
};
use crate::session::{
    add_exercise, cancel_session, edit_set, finish_session, set_note, start_session, swap_exercise,
};
use crate::transitions::{
    add_exercise_spec, at_most_one_active, cancel_spec, edit_spec, end_spec, note_spec,
    sessions_have_blocks, start_spec, swap_spec, ExerciseAdded, ExerciseSwapped, SessionEnded,
    SessionEndedView, SessionStarted, SetLogged,
};
use vstd::prelude::*;

verus! {

/// What a session command reports.
#[derive(Clone, Debug, PartialEq, Eq)]
pub enum SessionOutput {
    Started(SessionStarted),
    /// The identifier of the removed session.
    Cancelled(u128),
    Shown(SessionReport),
    Ended(SessionEnded),
    Edited(SetLogged),
    Swapped(ExerciseSwapped),
    Added(ExerciseAdded),
    /// The identifier of the session exercise that got the note.
    Noted(u128),
    Logged(SessionReport),
}

/// The view of a [`SessionOutput`].
pub enum SessionOutputView {
    Started(SessionStarted),
    Cancelled(u128),
    Shown(SessionReportView),
    Ended(SessionEndedView),
    Edited(SetLogged),
    Swapped(ExerciseSwapped),
    Added(ExerciseAdded),
    Noted(u128),
    Logged(SessionReportView),
}

impl View for SessionOutput {
    type V = SessionOutputView;

    open spec fn view(&self) -> SessionOutputView {
        match self {
            SessionOutput::Started(x) => SessionOutputView::Started(*x),
            SessionOutput::Cancelled(x) => SessionOutputView::Cancelled(*x),
            SessionOutput::Shown(x) => SessionOutputView::Shown(x@),
            SessionOutput::Ended(x) => SessionOutputView::Ended(x@),
            SessionOutput::Edited(x) => SessionOutputView::Edited(*x),
            SessionOutput::Swapped(x) => SessionOutputView::Swapped(*x),
            SessionOutput::Added(x) => SessionOutputView::Added(*x),
            SessionOutput::Noted(x) => SessionOutputView::Noted(*x),
            SessionOutput::Logged(x) => SessionOutputView::Logged(x@),
        }
    }
}

/// The store and the output that a session command leaves, or the error it
/// ends in. `session_id`, `ids` and `new_id` are the identifiers that new rows
/// get. A negative number of repetitions or of sets is refused before the
/// store is looked at. The week of a start takes no part in finding the block.
pub open spec fn handle_spec(
    cmd: SessionCmd,
    s: crate::models::StoreView,
    now: u64,
    session_id: u128,
    ids: Seq<u128>,
    new_id: u128,
) -> Result<(crate::models::StoreView, SessionOutputView), Error> {
    match cmd {
        SessionCmd::Start(args) => match start_spec(
            s,
            args.program@,
            args.block@,
            now,
            session_id,
            ids,
        ) {
            Ok((after, x)) => Ok((after, SessionOutputView::Started(x))),
            Err(e) => Err(e),
        },
        SessionCmd::Cancel => match cancel_spec(s) {
            Ok((after, x)) => Ok((after, SessionOutputView::Cancelled(x))),
            Err(e) => Err(e),
        },
        SessionCmd::Show => match show_spec(s) {
            Ok(x) => Ok((s, SessionOutputView::Shown(x))),
            Err(e) => Err(e),
        },
        SessionCmd::End => match end_spec(s, now) {
            Ok((after, x)) => Ok((after, SessionOutputView::Ended(x))),
            Err(e) => Err(e),
        },
        SessionCmd::Edit { exercise, weight, reps, set, new } => if reps < 0 {
            Err(Error::InvalidCount)
        } else {
            match edit_spec(s, exercise, weight@, reps as u32, set, now, new_id) {
                Ok((after, x)) => Ok((after, SessionOutputView::Edited(x))),
                Err(e) => Err(e),
            }
        },
        SessionCmd::Swap { exercise, new_exercise } => match swap_spec(
            s,
            exercise,
            new_exercise@,
            new_id,
        ) {
            Ok((after, x)) => Ok((after, SessionOutputView::Swapped(x))),
            Err(e) => Err(e),
        },
        SessionCmd::AddEx { exercise, sets } => if sets < 0 {
            Err(Error::InvalidCount)
        } else {
            match add_exercise_spec(s, exercise@, sets as u32, new_id) {
                Ok((after, x)) => Ok((after, SessionOutputView::Added(x))),
                Err(e) => Err(e),
            }
        },
        SessionCmd::Note { exercise, note } => match note_spec(s, exercise, note@) {
            Ok((after, x)) => Ok((after, SessionOutputView::Noted(x))),
            Err(e) => Err(e),
        },
        SessionCmd::Log { date } => match parsed_day(date@, "%d-%m-%Y"@) {
            None => Err(Error::InvalidDate),
            Some(day) => match log_spec(s, day) {
                Ok(x) => Ok((s, SessionOutputView::Logged(x))),
                Err(e) => Err(e),
            },
        },
    }
}

/// Whether a result and a store are what a session command leaves with the
/// given identifiers for new rows.
pub open spec fn handled(
    cmd: SessionCmd,
    before: crate::models::StoreView,
    now: u64,
    session_id: u128,
    ids: Seq<u128>,
    new_id: u128,
    r: Result<SessionOutput, Error>,
    after: crate::models::StoreView,
) -> bool {
    match handle_spec(cmd, before, now, session_id, ids, new_id) {
        Ok((next, out)) => r is Ok && r->Ok_0@ == out && after == next,
        Err(e) => r == Err::<SessionOutput, Error>(e) && after == before,
    }
}

/// What a session command leaves keeps at most one session in progress,
/// keeps the figures of the record log rising and keeps the block of every
/// session among the programs.
pub proof fn handled_keeps_invariants(
    cmd: SessionCmd,
    before: crate::models::StoreView,
    now: u64,
    session_id: u128,
    ids: Seq<u128>,
    new_id: u128,
    r: Result<SessionOutput, Error>,
    after: crate::models::StoreView,
)
    requires
        handled(cmd, before, now, session_id, ids, new_id, r, after),
    ensures
        at_most_one_active(before) ==> at_most_one_active(after),
        records_rise(before.records) ==> records_rise(after.records),
        sessions_have_blocks(before) ==> sessions_have_blocks(after),
{
    if at_most_one_active(before) {
        handle_keeps_one_active(cmd, before, now, session_id, ids, new_id);
    }
    if sessions_have_blocks(before) {
        handle_keeps_sessions_with_blocks(cmd, before, now, session_id, ids, new_id);
    }
    if records_rise(before.records) {
        handle_keeps_records_rising(cmd, before, now, session_id, ids, new_id);
    }
}

/// Whether a result and a store are what a session command leaves, with
/// some identifiers for new rows, and the store still has at most one session
/// in progress and a record log with rising figures where it had before.
spec fn carried_out(
    cmd: SessionCmd,
    before: crate::models::StoreView,
    now: u64,
    r: Result<SessionOutput, Error>,
    after: crate::models::StoreView,
) -> bool {
    &&& exists|session_id: u128, ids: Seq<u128>, new_id: u128|
        handled(cmd, before, now, session_id, ids, new_id, r, after)
    &&& at_most_one_active(before) ==> at_most_one_active(after)
    &&& records_rise(before.records) ==> records_rise(after.records)
    &&& sessions_have_blocks(before) ==> sessions_have_blocks(after)
}

proof fn lemma_carried_out(
    cmd: SessionCmd,
    before: crate::models::StoreView,
    now: u64,
    session_id: u128,
    ids: Seq<u128>,
    new_id: u128,
    r: Result<SessionOutput, Error>,
    after: crate::models::StoreView,
)
    requires
        handled(cmd, before, now, session_id, ids, new_id, r, after),
    ensures
        carried_out(cmd, before, now, r, after),
{
    handled_keeps_invariants(cmd, before, now, session_id, ids, new_id, r, after);
}

fn handle_start(cmd: &SessionCmd, args: &crate::cli::StartArgs, store: &mut Store, now: u64) -> (r:
    Result<SessionOutput, Error>)
    requires
        *cmd == SessionCmd::Start(*args),
    ensures
        carried_out(*cmd, old(store)@, now, r, final(store)@),
{
    let ghost before = store@;
    let r = start_session(store, args.program.as_str(), args.block.as_str(), now);
    let out = match r {
        Ok(x) => Ok(SessionOutput::Started(x)),
        Err(e) => Err(e),
    };
    proof {
        let (session_id, ids) = choose|session_id: u128, ids: Seq<u128>|
            match #[trigger] start_spec(
                before,
                args.program@,
                args.block@,
                now,
                session_id,
                ids,
            ) {
                Ok((after, started)) => r == Ok::<SessionStarted, Error>(started) && store@
                    == after,
                Err(e) => r == Err::<SessionStarted, Error>(e) && store@ == before,
            };
        lemma_carried_out(*cmd, before, now, session_id, ids, 0, out, store@);
    }
    out
}

fn handle_edit(
    cmd: &SessionCmd,
    exercise: usize,
    weight: &String,
    reps: i32,
    set: Option<usize>,
    new: bool,
    store: &mut Store,
    now: u64,
) -> (r: Result<SessionOutput, Error>)
    requires
        *cmd == (SessionCmd::Edit { exercise, weight: *weight, reps, set, new }),
    ensures
        carried_out(*cmd, old(store)@, now, r, final(store)@),
{
    let ghost before = store@;
    if reps < 0 {
        let out = Err(Error::InvalidCount);
        proof {
            lemma_carried_out(*cmd, before, now, 0, Seq::empty(), 0, out, store@);
        }
        return out;
    }
    let r = edit_set(store, exercise, weight.as_str(), reps as u32, set, now);
    let out = match r {
        Ok(x) => Ok(SessionOutput::Edited(x)),
        Err(e) => Err(e),
    };
    proof {
        let new_id = choose|new_id: u128|
            match #[trigger] edit_spec(before, exercise, weight@, reps as u32, set, now, new_id) {
                Ok((after, logged)) => r == Ok::<SetLogged, Error>(logged) && store@ == after,
                Err(e) => r == Err::<SetLogged, Error>(e) && store@ == before,
            };
        lemma_carried_out(*cmd, before, now, 0, Seq::empty(), new_id, out, store@);
    }
    out
}

fn handle_swap(
    cmd: &SessionCmd,
    exercise: usize,
    new_exercise: &String,
    store: &mut Store,
    now: u64,
) -> (r: Result<SessionOutput, Error>)
    requires
        *cmd == (SessionCmd::Swap { exercise, new_exercise: *new_exercise }),
    ensures
        carried_out(*cmd, old(store)@, now, r, final(store)@),
{
    let ghost before = store@;
    let r = swap_exercise(store, exercise, new_exercise.as_str());
    let out = match r {
        Ok(x) => Ok(SessionOutput::Swapped(x)),
        Err(e) => Err(e),
    };
    proof {
        let new_id = choose|new_id: u128|
            match #[trigger] swap_spec(before, exercise, new_exercise@, new_id) {
                Ok((after, swapped)) => r == Ok::<ExerciseSwapped, Error>(swapped) && store@
                    == after,
                Err(e) => r == Err::<ExerciseSwapped, Error>(e) && store@ == before,
            };
        lemma_carried_out(*cmd, before, now, 0, Seq::empty(), new_id, out, store@);
    }
    out
}

fn handle_add(cmd: &SessionCmd, exercise: &String, sets: i32, store: &mut Store, now: u64) -> (r:
    Result<SessionOutput, Error>)
    requires
        *cmd == (SessionCmd::AddEx { exercise: *exercise, sets }),
    ensures
        carried_out(*cmd, old(store)@, now, r, final(store)@),
{
    let ghost before = store@;
    if sets < 0 {
        let out = Err(Error::InvalidCount);
        proof {
            lemma_carried_out(*cmd, before, now, 0, Seq::empty(), 0, out, store@);
        }
        return out;
    }
    let r = add_exercise(store, exercise.as_str(), sets as u32);
    let out = match r {
        Ok(x) => Ok(SessionOutput::Added(x)),
        Err(e) => Err(e),
    };
    proof {
        let new_id = choose|new_id: u128|
            match #[trigger] add_exercise_spec(before, exercise@, sets as u32, new_id) {
                Ok((after, added)) => r == Ok::<ExerciseAdded, Error>(added) && store@ == after,
                Err(e) => r == Err::<ExerciseAdded, Error>(e) && store@ == before,
            };
        lemma_carried_out(*cmd, before, now, 0, Seq::empty(), new_id, out, store@);
    }
    out
}

/// Runs a session command on the store at the time `now`. A command that is
/// refused leaves the store as it was. Whatever the command, the store still
/// has at most one session in progress, a record log with rising figures and
/// the block of every session among its programs, where it had before.
pub fn handle(cmd: &SessionCmd, store: &mut Store, now: u64) -> (r: Result<SessionOutput, Error>)
    ensures
        exists|session_id: u128, ids: Seq<u128>, new_id: u128|
            handled(*cmd, old(store)@, now, session_id, ids, new_id, r, final(store)@),
        at_most_one_active(old(store)@) ==> at_most_one_active(final(store)@),
        records_rise(old(store)@.records) ==> records_rise(final(store)@.records),
        sessions_have_blocks(old(store)@) ==> sessions_have_blocks(final(store)@),
{
    let ghost before = store@;
    let out = match cmd {
        SessionCmd::Start(args) => {
            return handle_start(cmd, args, store, now);
        },
        SessionCmd::Edit { exercise, weight, reps, set, new } => {
            return handle_edit(cmd, *exercise, weight, *reps, *set, *new, store, now);
        },
        SessionCmd::Swap { exercise, new_exercise } => {
            return handle_swap(cmd, *exercise, new_exercise, store, now);
        },
        SessionCmd::AddEx { exercise, sets } => {
            return handle_add(cmd, exercise, *sets, store, now);
        },
        SessionCmd::Cancel => match cancel_session(store) {
            Ok(x) => Ok(SessionOutput::Cancelled(x)),
            Err(e) => Err(e),
        },
        SessionCmd::Show => match show_session(store) {
            Ok(x) => Ok(SessionOutput::Shown(x)),
            Err(e) => Err(e),
        },
        SessionCmd::End => match finish_session(store, now) {
            Ok(x) => Ok(SessionOutput::Ended(x)),
            Err(e) => Err(e),
        },
        SessionCmd::Note { exercise, note } => match set_note(store, *exercise, note.as_str()) {
            Ok(x) => Ok(SessionOutput::Noted(x)),
            Err(e) => Err(e),
        },
        SessionCmd::Log { date } => match session_log(store, date.as_str()) {
            Ok(x) => Ok(SessionOutput::Logged(x)),
            Err(e) => Err(e),
        },
    };
    proof {
        lemma_carried_out(*cmd, before, now, 0, Seq::empty(), 0, out, store@);
    }
    out
}

/// Runs a session command on the store at the time of the clock. A command
/// that is refused leaves the store as it was.
pub fn run(cmd: &SessionCmd, store: &mut Store) -> (r: Result<SessionOutput, Error>)
    ensures
        exists|now: u64, session_id: u128, ids: Seq<u128>, new_id: u128|
            handled(*cmd, old(store)@, now, session_id, ids, new_id, r, final(store)@),
        at_most_one_active(old(store)@) ==> at_most_one_active(final(store)@),
        records_rise(old(store)@.records) ==> records_rise(final(store)@.records),
        sessions_have_blocks(old(store)@) ==> sessions_have_blocks(final(store)@),
{
    let now = crate::dates::current_time();
    handle(cmd, store, now)
}

} // verus!
