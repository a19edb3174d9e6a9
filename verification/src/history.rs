//! The history query: what was lifted at a slot the last time.

use crate::models::{
    SessionExercise, SessionExerciseView, SetReference, Store, StoreView, TrainingSessionView,
};
use crate::pr::{epley_x30, estimated_1rm_x30};
use vstd::prelude::*;

verus! {

/// A weighted set found in a completed session.
#[derive(Clone, Copy, Debug, PartialEq, Eq, Structural)]
pub struct Sighting {
    pub timestamp: u64,
    /// Grams.
    pub weight: u32,
    pub reps: u32,
}

/// The set at 0-based `slot` of a session exercise, where it carries weight.
pub open spec fn sighting_at(x: SessionExerciseView, slot: int) -> Option<Sighting> {
    if 0 <= slot < x.sets.len() && x.sets[slot].weight > 0 {
        Some(
            Sighting {
                timestamp: x.sets[slot].timestamp,
                weight: x.sets[slot].weight,
                reps: x.sets[slot].reps,
            },
        )
    } else {
        None
    }
}

/// The more recent of two sightings; on equal times the second.
pub open spec fn later_of(a: Option<Sighting>, b: Option<Sighting>) -> Option<Sighting> {
    match (a, b) {
        (_, None) => a,
        (None, Some(_)) => b,
        (Some(x), Some(y)) => if y.timestamp >= x.timestamp {
            b
        } else {
            a
        },
    }
}

/// The most recent weighted set at `slot` among the first `n` exercises of a
/// session that are instances of `exercise_id`.
pub open spec fn previous_in_session(
    exercises: Seq<SessionExerciseView>,
    n: int,
    exercise_id: u128,
    slot: int,
) -> Option<Sighting>
    decreases n,
{
    if n <= 0 {
        None
    } else {
        later_of(
            previous_in_session(exercises, n - 1, exercise_id, slot),
            if exercises[n - 1].exercise_id == exercise_id {
                sighting_at(exercises[n - 1], slot)
            } else {
                None
            },
        )
    }
}

/// The most recent weighted set of `exercise_id` at `slot` among the completed
/// ones of the first `n` sessions.
pub open spec fn previous_in_sessions(
    sessions: Seq<TrainingSessionView>,
    n: int,
    exercise_id: u128,
    slot: int,
) -> Option<Sighting>
    decreases n,
{
    if n <= 0 {
        None
    } else {
        later_of(
            previous_in_sessions(sessions, n - 1, exercise_id, slot),
            if sessions[n - 1].end_time is Some {
                previous_in_session(
                    sessions[n - 1].exercises,
                    sessions[n - 1].exercises.len() as int,
                    exercise_id,
                    slot,
                )
            } else {
                None
            },
        )
    }
}

/// A sighting with its estimate, as the history query returns it.
pub open spec fn reference_of_sighting(found: Option<Sighting>) -> Option<SetReference> {
    match found {
        Some(x) => Some(
            SetReference {
                weight: x.weight,
                reps: x.reps,
                estimated_1rm_x30: epley_x30(x.weight as nat, x.reps as nat) as u128,
            },
        ),
        None => None,
    }
}

/// The history query: among the sets of completed sessions that stand at
/// 0-based `slot` of an instance of `exercise_id` and carry weight, the one
/// written last.
pub open spec fn previous_set_spec(s: StoreView, exercise_id: u128, slot: int) -> Option<
    SetReference,
> {
    reference_of_sighting(
        previous_in_sessions(s.sessions, s.sessions.len() as int, exercise_id, slot),
    )
}

/// Whether a sighting is one of the sets that the history query looks at: a
/// weighted set at `slot` of an instance of `exercise_id` in a completed
/// session.
pub open spec fn is_sighting(s: StoreView, exercise_id: u128, slot: int, x: Sighting) -> bool {
    exists|i: int, j: int|
        0 <= i < s.sessions.len() && s.sessions[i].end_time is Some && 0 <= j
            < s.sessions[i].exercises.len() && s.sessions[i].exercises[j].exercise_id
            == exercise_id && #[trigger] sighting_at(s.sessions[i].exercises[j], slot) == Some(x)
}

proof fn lemma_previous_in_session(
    exercises: Seq<SessionExerciseView>,
    n: int,
    exercise_id: u128,
    slot: int,
)
    requires
        0 <= n <= exercises.len(),
    ensures
        match previous_in_session(exercises, n, exercise_id, slot) {
            Some(x) => (exists|j: int|
                0 <= j < n && exercises[j].exercise_id == exercise_id && #[trigger] sighting_at(
                    exercises[j],
                    slot,
                ) == Some(x)) && forall|j: int|
                0 <= j < n && exercises[j].exercise_id == exercise_id && (#[trigger] sighting_at(
                    exercises[j],
                    slot,
                )) is Some ==> sighting_at(exercises[j], slot)->0.timestamp <= x.timestamp,
            None => forall|j: int|
                0 <= j < n && exercises[j].exercise_id == exercise_id ==> (#[trigger] sighting_at(
                    exercises[j],
                    slot,
                )) is None,
        },
    decreases n,
{
    if n > 0 {
        lemma_previous_in_session(exercises, n - 1, exercise_id, slot);
        let before = previous_in_session(exercises, n - 1, exercise_id, slot);
        let now = previous_in_session(exercises, n, exercise_id, slot);
        if now is Some {
            let x = now->0;
            if exercises[n - 1].exercise_id == exercise_id && sighting_at(exercises[n - 1], slot)
                == Some(x) {
                assert(sighting_at(exercises[n - 1], slot) == Some(x));
            } else {
                assert(before == Some(x));
                let j = choose|j: int|
                    0 <= j < n - 1 && exercises[j].exercise_id == exercise_id
                        && #[trigger] sighting_at(exercises[j], slot) == Some(x);
                assert(0 <= j < n && sighting_at(exercises[j], slot) == Some(x));
            }
        }
    }
}

/// What the history query returns is one of the sets it looks at, and none of
/// them was written later; it returns nothing only where there is no such
/// set.
pub proof fn lemma_previous_is_latest(s: StoreView, n: int, exercise_id: u128, slot: int)
    requires
        0 <= n <= s.sessions.len(),
    ensures
        match previous_in_sessions(s.sessions, n, exercise_id, slot) {
            Some(x) => is_sighting(s, exercise_id, slot, x) && forall|i: int, j: int|
                0 <= i < n && s.sessions[i].end_time is Some && 0 <= j
                    < s.sessions[i].exercises.len() && s.sessions[i].exercises[j].exercise_id
                    == exercise_id && (#[trigger] sighting_at(
                    s.sessions[i].exercises[j],
                    slot,
                )) is Some ==> sighting_at(s.sessions[i].exercises[j], slot)->0.timestamp
                    <= x.timestamp,
            None => forall|i: int, j: int|
                0 <= i < n && s.sessions[i].end_time is Some && 0 <= j
                    < s.sessions[i].exercises.len() && s.sessions[i].exercises[j].exercise_id
                    == exercise_id ==> (#[trigger] sighting_at(
                    s.sessions[i].exercises[j],
                    slot,
                )) is None,
        },
    decreases n,
{
    if n > 0 {
        lemma_previous_is_latest(s, n - 1, exercise_id, slot);
        let t = s.sessions[n - 1];
        lemma_previous_in_session(t.exercises, t.exercises.len() as int, exercise_id, slot);
        let before = previous_in_sessions(s.sessions, n - 1, exercise_id, slot);
        let here = if t.end_time is Some {
            previous_in_session(t.exercises, t.exercises.len() as int, exercise_id, slot)
        } else {
            None
        };
        let now = previous_in_sessions(s.sessions, n, exercise_id, slot);
        assert(now == later_of(before, here));
        if now is Some {
            let x = now->0;
            if here == Some(x) {
                let j = choose|j: int|
                    0 <= j < t.exercises.len() && t.exercises[j].exercise_id == exercise_id
                        && #[trigger] sighting_at(t.exercises[j], slot) == Some(x);
                assert(sighting_at(s.sessions[n - 1].exercises[j], slot) == Some(x));
                assert(is_sighting(s, exercise_id, slot, x));
            } else {
                assert(before == Some(x));
            }
        }
    }
}

fn pick_later(a: Option<Sighting>, b: Option<Sighting>) -> (r: Option<Sighting>)
    ensures
        r == later_of(a, b),
{
    match (a, b) {
        (_, None) => a,
        (None, Some(_)) => b,
        (Some(x), Some(y)) => if y.timestamp >= x.timestamp {
            b
        } else {
            a
        },
    }
}

fn sighting_in(x: &SessionExercise, slot: usize) -> (r: Option<Sighting>)
    ensures
        r == sighting_at(x.deep_view(), slot as int),
{
    if slot < x.sets.len() && x.sets[slot].weight > 0 {
        Some(
            Sighting {
                timestamp: x.sets[slot].timestamp,
                weight: x.sets[slot].weight,
                reps: x.sets[slot].reps,
            },
        )
    } else {
        None
    }
}

fn previous_of_session(exercises: &Vec<SessionExercise>, exercise_id: u128, slot: usize) -> (r:
    Option<Sighting>)
    ensures
        r == previous_in_session(
            exercises.deep_view(),
            exercises.len() as int,
            exercise_id,
            slot as int,
        ),
{
    let mut found: Option<Sighting> = None;
    let mut i: usize = 0;
    while i < exercises.len()
        invariant
            i <= exercises.len(),
            found == previous_in_session(exercises.deep_view(), i as int, exercise_id, slot as int),
        decreases exercises.len() - i,
    {
        let here = if exercises[i].exercise_id == exercise_id {
            sighting_in(&exercises[i], slot)
        } else {
            None
        };
        found = pick_later(found, here);
        i += 1;
    }
    found
}

/// The history query: among the sets of completed sessions that stand at
/// 0-based `slot` of an instance of `exercise_id` and carry weight, the one
/// written last, and of two written at the same time the one of the later
/// session, or of the later exercise within a session. Bodyweight sets are
/// passed over. The store is not changed.
pub fn previous_set(store: &Store, exercise_id: u128, slot: usize) -> (r: Option<SetReference>)
    ensures
        r == previous_set_spec(store@, exercise_id, slot as int),
{
    let mut found: Option<Sighting> = None;
    let mut i: usize = 0;
    while i < store.sessions.len()
        invariant
            i <= store.sessions.len(),
            found == previous_in_sessions(
                store.sessions.deep_view(),
                i as int,
                exercise_id,
                slot as int,
            ),
        decreases store.sessions.len() - i,
    {
        let here = if store.sessions[i].end_time.is_some() {
            previous_of_session(&store.sessions[i].exercises, exercise_id, slot)
        } else {
            None
        };
        found = pick_later(found, here);
        i += 1;
    }
    match found {
        Some(x) => Some(
            SetReference {
                weight: x.weight,
                reps: x.reps,
                estimated_1rm_x30: estimated_1rm_x30(x.weight, x.reps),
            },
        ),
        None => None,
    }
}

} // verus!
