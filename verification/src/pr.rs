//! The personal-record engine.
//!
//! Weights are whole grams. The Epley estimate of a one-repetition maximum is
//! `weight * (1 + reps / 30)`; to keep it exact the engine works with thirty
//! times that value, `weight * (30 + reps)`, called the score.

use crate::models::PersonalRecord;
use vstd::prelude::*;

verus! {

/// A logged set put forward as a personal record.
#[derive(Clone, Copy, Debug, PartialEq, Eq, Structural)]
pub struct Candidate {
    /// Grams; zero marks a bodyweight set.
    pub weight: u32,
    pub reps: u32,
}

/// Thirty times the Epley estimate: zero without repetitions or without
/// weight, else `weight * (30 + reps)`.
pub open spec fn epley_x30(weight: nat, reps: nat) -> nat {
    if reps == 0 {
        0
    } else {
        weight * (30 + reps)
    }
}

/// The Epley estimate in whole grams, rounded down.
pub open spec fn epley_grams(weight: nat, reps: nat) -> nat {
    epley_x30(weight, reps) / 30
}

/// Whether `r` is a record of `exercise_id` on the track of a set of `weight`:
/// the bodyweight track for sets without weight, the weighted track for all
/// others.
pub open spec fn same_track(r: PersonalRecord, exercise_id: u128, weight: u32) -> bool {
    r.exercise_id == exercise_id && (r.weight == 0) == (weight == 0)
}

/// The figure by which a record is compared on its track: repetitions on the
/// bodyweight track, the score on the weighted track.
pub open spec fn record_metric(r: PersonalRecord) -> nat {
    if r.weight == 0 {
        r.reps as nat
    } else {
        r.estimated_1rm_x30 as nat
    }
}

/// The figure by which a candidate is compared on its track.
pub open spec fn candidate_metric(c: Candidate) -> nat {
    if c.weight == 0 {
        c.reps as nat
    } else {
        epley_x30(c.weight as nat, c.reps as nat)
    }
}

/// The best figure among the first `n` records that lie on the track of a set
/// of `weight` for `exercise_id`, or `None` where there is no such record.
pub open spec fn best_on_track(
    records: Seq<PersonalRecord>,
    n: int,
    exercise_id: u128,
    weight: u32,
) -> Option<nat>
    decreases n,
{
    if n <= 0 {
        None
    } else {
        let before = best_on_track(records, n - 1, exercise_id, weight);
        let r = records[n - 1];
        if same_track(r, exercise_id, weight) {
            match before {
                Some(m) if m >= record_metric(r) => Some(m),
                _ => Some(record_metric(r)),
            }
        } else {
            before
        }
    }
}

/// Whether candidate `c` is a new record for `exercise_id`: with no record on
/// its track any set with repetitions is one, otherwise only a strict
/// improvement is.
pub open spec fn is_new_record(
    records: Seq<PersonalRecord>,
    exercise_id: u128,
    c: Candidate,
) -> bool {
    match best_on_track(records, records.len() as int, exercise_id, c.weight) {
        None => c.reps > 0,
        Some(best) => candidate_metric(c) > best,
    }
}

/// The record that a candidate becomes when it is written at time `now`.
pub open spec fn record_of(exercise_id: u128, c: Candidate, now: u64) -> PersonalRecord {
    PersonalRecord {
        exercise_id,
        date: now,
        weight: c.weight,
        reps: c.reps,
        estimated_1rm_x30: epley_x30(c.weight as nat, c.reps as nat) as u128,
    }
}

/// The record that is shown for an exercise: among the first `n` records, the
/// one of `exercise_id` with the highest estimate, the later one on a tie.
pub open spec fn authoritative(records: Seq<PersonalRecord>, n: int, exercise_id: u128) -> Option<
    PersonalRecord,
>
    decreases n,
{
    if n <= 0 {
        None
    } else {
        let before = authoritative(records, n - 1, exercise_id);
        let r = records[n - 1];
        if r.exercise_id == exercise_id {
            match before {
                Some(b) if b.estimated_1rm_x30 > r.estimated_1rm_x30 => Some(b),
                _ => Some(r),
            }
        } else {
            before
        }
    }
}

/// The better of two candidates of one session: a weighted set beats a
/// bodyweight set, otherwise the higher figure wins and the earlier set on a tie.
pub open spec fn better_candidate(a: Option<Candidate>, b: Candidate) -> Candidate {
    match a {
        None => b,
        Some(a) => {
            if a.weight == 0 && b.weight != 0 {
                b
            } else if a.weight != 0 && b.weight == 0 {
                a
            } else if candidate_metric(b) > candidate_metric(a) {
                b
            } else {
                a
            }
        },
    }
}

/// The score of a set fits in 128 bits.
pub proof fn lemma_epley_bound(weight: u32, reps: u32)
    ensures
        epley_x30(weight as nat, reps as nat) <= 0xffff_ffff * 0x1_0000_001d,
        epley_x30(weight as nat, reps as nat) <= u128::MAX,
{
    let w = weight as nat;
    let r = reps as nat;
    assert(w * (30 + r) <= 0xffff_ffff * 0x1_0000_001d) by (nonlinear_arith)
        requires
            w <= 0xffff_ffff,
            r <= 0xffff_ffff,
    ;
}

/// Thirty times the Epley estimate of a one-repetition maximum, for a weight in
/// grams.
pub fn estimated_1rm_x30(weight: u32, reps: u32) -> (score: u128)
    ensures
        score == epley_x30(weight as nat, reps as nat),
{
    proof {
        lemma_epley_bound(weight, reps);
    }
    if reps == 0 {
        0
    } else {
        (weight as u128) * (30 + reps as u128)
    }
}

/// The Epley estimate of a one-repetition maximum in whole grams, rounded down.
pub fn epley_1rm(weight: u32, reps: u32) -> (grams: u128)
    ensures
        grams == epley_grams(weight as nat, reps as nat),
{
    estimated_1rm_x30(weight, reps) / 30
}

/// The figure by which a candidate is compared on its track.
pub fn metric_of_candidate(c: Candidate) -> (m: u128)
    ensures
        m == candidate_metric(c),
{
    if c.weight == 0 {
        c.reps as u128
    } else {
        estimated_1rm_x30(c.weight, c.reps)
    }
}

/// The best figure on the candidate's track among the records of an exercise.
pub fn best_metric(records: &Vec<PersonalRecord>, exercise_id: u128, weight: u32) -> (best: Option<
    u128,
>)
    ensures
        match best {
            Some(m) => best_on_track(records@, records@.len() as int, exercise_id, weight) == Some(
                m as nat,
            ),
            None => best_on_track(records@, records@.len() as int, exercise_id, weight) is None,
        },
{
    let mut best: Option<u128> = None;
    let mut i: usize = 0;
    while i < records.len()
        invariant
            i <= records.len(),
            match best {
                Some(m) => best_on_track(records@, i as int, exercise_id, weight) == Some(m as nat),
                None => best_on_track(records@, i as int, exercise_id, weight) is None,
            },
        decreases records.len() - i,
    {
        let r = records[i];
        if r.exercise_id == exercise_id && (r.weight == 0) == (weight == 0) {
            let m: u128 = if r.weight == 0 {
                r.reps as u128
            } else {
                r.estimated_1rm_x30
            };
            match best {
                Some(b) => {
                    if b < m {
                        best = Some(m);
                    }
                },
                None => {
                    best = Some(m);
                },
            }
        }
        i += 1;
    }
    best
}

/// Decides whether a candidate set is a new personal record for an exercise.
pub fn check_new_record(records: &Vec<PersonalRecord>, exercise_id: u128, c: Candidate) -> (yes:
    bool)
    ensures
        yes == is_new_record(records@, exercise_id, c),
{
    let m = metric_of_candidate(c);
    match best_metric(records, exercise_id, c.weight) {
        None => c.reps > 0,
        Some(best) => m > best,
    }
}

/// The record that is shown for an exercise, if it has any.
pub fn authoritative_record(records: &Vec<PersonalRecord>, exercise_id: u128) -> (best: Option<
    PersonalRecord,
>)
    ensures
        best == authoritative(records@, records@.len() as int, exercise_id),
{
    let mut best: Option<PersonalRecord> = None;
    let mut i: usize = 0;
    while i < records.len()
        invariant
            i <= records.len(),
            best == authoritative(records@, i as int, exercise_id),
        decreases records.len() - i,
    {
        let r = records[i];
        if r.exercise_id == exercise_id {
            match best {
                Some(b) => {
                    if !(b.estimated_1rm_x30 > r.estimated_1rm_x30) {
                        best = Some(r);
                    }
                },
                None => {
                    best = Some(r);
                },
            }
        }
        i += 1;
    }
    best
}

/// Picks the better of the best candidate so far and a further set.
pub fn pick_better(a: Option<Candidate>, b: Candidate) -> (c: Candidate)
    ensures
        c == better_candidate(a, b),
{
    match a {
        None => b,
        Some(a) => {
            if a.weight == 0 && b.weight != 0 {
                b
            } else if a.weight != 0 && b.weight == 0 {
                a
            } else if metric_of_candidate(b) > metric_of_candidate(a) {
                b
            } else {
                a
            }
        },
    }
}

} // verus!
