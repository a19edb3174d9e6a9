use lazarus::error::Error;
use lazarus::models::{
    Block, Exercise, ExerciseSet, Muscle, PersonalRecord, Program, ProgramExercise,
    SessionExercise, Store, TrainingSession,
};
use lazarus::refs::Load;
use lazarus::session::{
    edit_set, edit_set_with_id, finish_session, start_session, start_session_with_ids,
    swap_exercise,
};
use lazarus::report::show_session;

fn exercise(id: u128, idx: u32, name: &str, muscle: Muscle) -> Exercise {
    Exercise {
        id,
        idx,
        name: name.to_string(),
        muscle,
        description: None,
        variants: Vec::new(),
        best_estimated_1rm_x30: None,
        best_date: None,
    }
}

fn prescription(id: u128, exercise_id: u128, sets: u32, reps: &[&str], order: u32) -> ProgramExercise {
    ProgramExercise {
        id,
        exercise_id,
        sets,
        reps: reps.iter().map(|r| r.to_string()).collect(),
        target_rpe: Vec::new(),
        target_rm_percent: Vec::new(),
        notes: None,
        program_1rm: None,
        technique: None,
        technique_group: None,
        order_index: order,
    }
}

/// Program "P" with block "B" that prescribes 3 sets of 5 of "Bench Press";
/// the catalog also holds "Incline Press".
fn bench_store() -> Store {
    let mut store = Store::new();
    store.exercises.push(exercise(1, 1, "Bench Press", Muscle::Chest));
    store.exercises.push(exercise(2, 2, "Incline Press", Muscle::Chest));
    store.programs.push(Program {
        id: 10,
        name: "P".to_string(),
        description: None,
        blocks: vec![Block {
            id: 20,
            name: "B".to_string(),
            description: None,
            week: None,
            exercises: vec![prescription(30, 1, 3, &["5", "5", "5"], 0)],
        }],
    });
    store
}

#[test]
fn start_then_show_lists_the_prescription() {
    let mut store = bench_store();
    let started = start_session(&mut store, "P", "B", 1_000).unwrap();
    assert_eq!(started.exercises, 1);
    assert_eq!(started.block_id, 20);
    let report = show_session(&store).unwrap();
    assert_eq!(report.session_id, started.session_id);
    assert_eq!(report.block_name, Some("B".to_string()));
    assert_eq!(report.exercises.len(), 1);
    let shown = &report.exercises[0];
    assert_eq!(shown.index, 1);
    assert_eq!(shown.name, Some("Bench Press".to_string()));
    assert_eq!(shown.best, None);
    assert_eq!(shown.prescribed_sets, 3);
    assert_eq!(shown.rows.len(), 3);
    for (k, row) in shown.rows.iter().enumerate() {
        assert_eq!(row.slot, k + 1);
        assert_eq!(row.target_reps, Some("5".to_string()));
        assert_eq!(row.target_rpe, None);
        assert_eq!(row.target_percent, None);
        assert_eq!(row.previous, None);
        assert_eq!(row.current, None);
    }
}

#[test]
fn edit_needs_a_session_and_reports_a_record() {
    let mut store = bench_store();
    let before = store.clone();
    assert_eq!(edit_set(&mut store, 1, "100", 5, None, 1_000), Err(Error::NoActiveSession));
    assert_eq!(Error::NoActiveSession.message(), "no active session");
    assert_eq!(store, before);
    start_session(&mut store, "P", "B", 1_000).unwrap();
    let logged = edit_set(&mut store, 1, "100", 5, None, 1_010).unwrap();
    assert_eq!(logged.set_number, 1);
    assert!(logged.inserted);
    assert_eq!(logged.load, Load::Weighted(100_000));
    assert_eq!(logged.reps, 5);
    assert!(logged.is_pr);
    let sets = &store.sessions[0].exercises[0].sets;
    assert_eq!(sets.len(), 1);
    assert_eq!(sets[0].weight, 100_000);
    assert_eq!(sets[0].reps, 5);
    assert!(!sets[0].bodyweight);
    assert_eq!(sets[0].timestamp, 1_010);
    assert_eq!(
        store.records,
        vec![PersonalRecord {
            exercise_id: 1,
            date: 1_010,
            weight: 100_000,
            reps: 5,
            estimated_1rm_x30: 3_500_000,
        }]
    );
    assert_eq!(store.exercises[0].best_estimated_1rm_x30, Some(3_500_000));
    assert_eq!(store.exercises[0].best_date, Some(1_010));
}

#[test]
fn edit_of_a_given_slot_overwrites() {
    let mut store = bench_store();
    start_session(&mut store, "P", "B", 1_000).unwrap();
    let first = edit_set(&mut store, 1, "100", 5, None, 1_010).unwrap();
    let second = edit_set(&mut store, 1, "110", 5, Some(1), 1_020).unwrap();
    assert_eq!(second.set_number, 1);
    assert!(!second.inserted);
    assert_eq!(second.set_id, first.set_id);
    let sets = &store.sessions[0].exercises[0].sets;
    assert_eq!(sets.len(), 1);
    assert_eq!(sets[0].weight, 110_000);
    assert_eq!(sets[0].reps, 5);
    assert_eq!(sets[0].timestamp, 1_020);
}

#[test]
fn swap_keeps_place_and_sets() {
    let mut store = bench_store();
    start_session(&mut store, "P", "B", 1_000).unwrap();
    edit_set(&mut store, 1, "100", 5, None, 1_010).unwrap();
    edit_set(&mut store, 1, "100", 4, None, 1_020).unwrap();
    let before = store.sessions[0].exercises[0].clone();
    let swapped = swap_exercise(&mut store, 1, "Incline Press").unwrap();
    assert_eq!(swapped.old_exercise_id, 1);
    assert_eq!(swapped.new_exercise_id, 2);
    assert_eq!(swapped.sets, 3);
    assert!(swapped.prescription_created);
    assert_eq!(store.sessions[0].exercises.len(), 1);
    let after = &store.sessions[0].exercises[0];
    assert_eq!(after.id, before.id);
    assert_eq!(after.exercise_id, 2);
    assert_eq!(after.sets, before.sets);
    let report = show_session(&store).unwrap();
    assert_eq!(report.exercises[0].index, 1);
    assert_eq!(report.exercises[0].name, Some("Incline Press".to_string()));
    assert_eq!(report.exercises[0].rows.len(), 3);
    assert!(report.exercises[0].rows[0].current.is_some());
    assert!(report.exercises[0].rows[1].current.is_some());
    assert!(report.exercises[0].rows[2].current.is_none());
    let block = &store.programs[0].blocks[0];
    assert_eq!(block.exercises.len(), 2);
    assert_eq!(block.exercises[1].exercise_id, 2);
    assert_eq!(block.exercises[1].sets, 3);
    assert_eq!(block.exercises[1].order_index, 999);
}

fn logged_session(id: u128, start: u64, set_time: u64) -> TrainingSession {
    TrainingSession {
        id,
        block_id: 20,
        start_time: start,
        end_time: None,
        exercises: vec![SessionExercise {
            id: id + 1,
            exercise_id: 1,
            note: None,
            sets: vec![ExerciseSet {
                id: id + 2,
                weight: 100_000,
                reps: 5,
                rpe: None,
                rm_percent: None,
                notes: None,
                timestamp: set_time,
                bodyweight: false,
                ignore_for_one_rm: false,
            }],
        }],
    }
}

#[test]
fn end_writes_a_record_once() {
    let mut store = bench_store();
    store.sessions.push(logged_session(100, 1_000, 1_010));
    let ended = finish_session(&mut store, 2_000).unwrap();
    assert_eq!(ended.session_id, 100);
    assert_eq!(ended.end_time, 2_000);
    let record = PersonalRecord {
        exercise_id: 1,
        date: 2_000,
        weight: 100_000,
        reps: 5,
        estimated_1rm_x30: 3_500_000,
    };
    assert_eq!(ended.new_records, vec![record]);
    assert_eq!(store.records, vec![record]);
    assert_eq!(store.exercises[0].best_estimated_1rm_x30, Some(3_500_000));
    assert_eq!(store.exercises[0].best_date, Some(2_000));
    assert_eq!(store.sessions[0].end_time, Some(2_000));
    assert_eq!(lazarus::pr::epley_1rm(100_000, 5), 116_666);

    store.sessions.push(logged_session(200, 3_000, 3_010));
    let again = finish_session(&mut store, 4_000).unwrap();
    assert_eq!(again.new_records, Vec::new());
    assert_eq!(store.records, vec![record]);
    assert_eq!(store.exercises[0].best_date, Some(2_000));
    assert_eq!(finish_session(&mut store, 5_000).map(|e| e.session_id), Err(Error::NoActiveSession));
}

#[test]
fn ids_given_to_a_start_are_used() {
    let mut store = bench_store();
    let started = start_session_with_ids(&mut store, "1", "1", 1_000, 77, &vec![78]).unwrap();
    assert_eq!(started.session_id, 77);
    assert_eq!(store.sessions[0].id, 77);
    assert_eq!(store.sessions[0].exercises[0].id, 78);
    let logged = edit_set_with_id(&mut store, 1, "bw", 12, None, 1_010, 79).unwrap();
    assert_eq!(logged.set_id, 79);
    assert_eq!(logged.load, Load::Bodyweight);
    assert_eq!(store.sessions[0].exercises[0].sets[0].id, 79);
    assert!(store.sessions[0].exercises[0].sets[0].bodyweight);
}
