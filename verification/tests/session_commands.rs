use lazarus::cli::{SessionCmd, StartArgs};
use lazarus::commands::{handle, run, SessionOutput};
use lazarus::dates::time_from_seconds;
use lazarus::error::{Error, ErrorKind};
use lazarus::models::{
    Block, Exercise, ExerciseSet, Muscle, PersonalRecord, Program, ProgramExercise,
    SessionExercise, SetReference, Store, TrainingSession,
};
use lazarus::refs::Load;
use lazarus::report::{
    session_log, session_log_on, show_session, show_timer, PercentTarget,
};
use lazarus::session::{
    add_exercise, all_sessions_have_blocks, count_active, order_of_prescriptions, add_exercise_with_id, cancel_session, edit_set, edit_set_with_id,
    finish_session, set_note, start_session, start_session_with_ids, swap_exercise,
    swap_exercise_with_id,
};
use lazarus::transitions::LoggedSet;

fn exercise(id: u128, idx: u32, name: &str, muscle: Muscle) -> Exercise {
    Exercise {
        id,
        idx,
        name: name.to_string(),
        muscle,
        description: None,
        variants: Vec::new(),
        best_estimated_1rm_x30: None,
        best_date: None,
    }
}

fn prescription(id: u128, exercise_id: u128, sets: u32, order: u32) -> ProgramExercise {
    ProgramExercise {
        id,
        exercise_id,
        sets,
        reps: Vec::new(),
        target_rpe: Vec::new(),
        target_rm_percent: Vec::new(),
        notes: None,
        program_1rm: None,
        technique: None,
        technique_group: None,
        order_index: order,
    }
}

/// A catalog of four exercises and the program "Strength" with the blocks
/// "Lower" (squat, pull-up) and "Upper" (bench with targets, pull-up).
fn gym() -> Store {
    let mut store = Store::new();
    store.exercises.push(exercise(1, 1, "Bench Press", Muscle::Chest));
    store.exercises.push(exercise(2, 2, "Squat", Muscle::Quads));
    store.exercises.push(exercise(3, 3, "Pull-up", Muscle::Back));
    store.exercises.push(exercise(4, 5, "Incline Press", Muscle::Chest));
    let mut bench = prescription(31, 1, 2, 0);
    bench.reps = vec!["5".to_string(), "6-8".to_string(), "10".to_string()];
    bench.target_rpe = vec![80];
    bench.target_rm_percent = vec![700, 825, 900];
    bench.program_1rm = Some(120_000);
    store.programs.push(Program {
        id: 10,
        name: "Strength".to_string(),
        description: Some("twice a week".to_string()),
        blocks: vec![
            Block {
                id: 21,
                name: "Lower".to_string(),
                description: None,
                week: Some(1),
                exercises: vec![prescription(41, 2, 3, 0), prescription(42, 3, 2, 1)],
            },
            Block {
                id: 22,
                name: "Upper".to_string(),
                description: Some("push and pull".to_string()),
                week: Some(1),
                exercises: vec![bench, prescription(32, 3, 4, 1)],
            },
        ],
    });
    store
}

fn active_count(store: &Store) -> usize {
    store.sessions.iter().filter(|s| s.end_time.is_none()).count()
}

#[test]
fn start_resolves_names_and_indices() {
    let mut by_name = gym();
    let started = start_session(&mut by_name, "Strength", "Upper", 100).unwrap();
    assert_eq!(started.block_id, 22);
    assert_eq!(started.exercises, 2);
    let mut by_index = gym();
    let started = start_session(&mut by_index, "1", "2", 100).unwrap();
    assert_eq!(started.block_id, 22);
    let session = &by_index.sessions[0];
    assert_eq!(session.start_time, 100);
    assert_eq!(session.end_time, None);
    assert_eq!(session.block_id, 22);
    let ids: Vec<u128> = session.exercises.iter().map(|x| x.exercise_id).collect();
    assert_eq!(ids, vec![1, 3]);
    assert!(session.exercises.iter().all(|x| x.sets.is_empty() && x.note.is_none()));
}

#[test]
fn start_reports_what_it_cannot_resolve() {
    let mut store = gym();
    let before = store.clone();
    assert_eq!(start_session(&mut store, "Hypertrophy", "Upper", 1), Err(Error::ProgramNotFound));
    assert_eq!(start_session(&mut store, "2", "Upper", 1), Err(Error::ProgramNotFound));
    assert_eq!(start_session(&mut store, "0", "Upper", 1), Err(Error::ProgramNotFound));
    assert_eq!(start_session(&mut store, "-1", "Upper", 1), Err(Error::ProgramNotFound));
    assert_eq!(start_session(&mut store, "Strength", "Arms", 1), Err(Error::BlockNotFound));
    assert_eq!(start_session(&mut store, "Strength", "3", 1), Err(Error::BlockNotFound));
    assert_eq!(start_session(&mut store, "strength", "Upper", 1), Err(Error::ProgramNotFound));
    assert_eq!(store, before);
}

#[test]
fn a_second_start_is_a_conflict() {
    let mut store = gym();
    start_session(&mut store, "Strength", "Upper", 100).unwrap();
    let before = store.clone();
    assert_eq!(
        start_session(&mut store, "Strength", "Lower", 200),
        Err(Error::SessionAlreadyActive)
    );
    assert_eq!(Error::SessionAlreadyActive.kind(), ErrorKind::Conflict);
    assert_eq!(store, before);
    assert_eq!(active_count(&store), 1);
    // the conflict is reported first, whatever the references name
    assert_eq!(
        start_session(&mut store, "Nothing", "Lower", 200),
        Err(Error::SessionAlreadyActive)
    );
    assert_eq!(
        start_session(&mut store, "Strength", "Nothing", 200),
        Err(Error::SessionAlreadyActive)
    );
    assert_eq!(store, before);
    finish_session(&mut store, 300).unwrap();
    assert_eq!(active_count(&store), 0);
    start_session(&mut store, "Strength", "Lower", 400).unwrap();
    assert_eq!(active_count(&store), 1);
    cancel_session(&mut store).unwrap();
    assert_eq!(active_count(&store), 0);
}

#[test]
fn an_ambiguous_name_resolves_to_nothing() {
    let mut store = gym();
    let mut twin = store.programs[0].clone();
    twin.id = 11;
    store.programs.push(twin);
    assert_eq!(start_session(&mut store, "Strength", "Upper", 1), Err(Error::ProgramNotFound));
    assert!(start_session(&mut store, "2", "Upper", 1).is_ok());
}

#[test]
fn a_number_is_an_index_even_where_it_is_a_name() {
    let mut store = gym();
    store.programs[0].blocks[0].name = "2".to_string();
    let started = start_session(&mut store, "Strength", "2", 1).unwrap();
    assert_eq!(started.block_id, 22);
    cancel_session(&mut store).unwrap();
    let started = start_session(&mut store, "Strength", "+1", 1).unwrap();
    assert_eq!(started.block_id, 21);
    cancel_session(&mut store).unwrap();
    let started = start_session(&mut store, "Strength", "002", 1).unwrap();
    assert_eq!(started.block_id, 22);
}

#[test]
fn edit_checks_its_arguments_in_order() {
    let mut store = gym();
    // no session: reported before the weight is looked at
    assert_eq!(edit_set(&mut store, 9, "heavy", 5, Some(0), 1), Err(Error::NoActiveSession));
    start_session(&mut store, "Strength", "Upper", 100).unwrap();
    let before = store.clone();
    assert_eq!(edit_set(&mut store, 9, "heavy", 5, Some(0), 1), Err(Error::InvalidWeight));
    assert_eq!(edit_set(&mut store, 9, "100", 5, Some(0), 1), Err(Error::SessionExerciseNotFound));
    assert_eq!(edit_set(&mut store, 0, "100", 5, None, 1), Err(Error::SessionExerciseNotFound));
    assert_eq!(edit_set(&mut store, 3, "100", 5, None, 1), Err(Error::SessionExerciseNotFound));
    assert_eq!(edit_set(&mut store, 1, "100", 5, Some(0), 1), Err(Error::InvalidSetIndex));
    assert_eq!(store, before);
    assert_eq!(Error::InvalidWeight.kind(), ErrorKind::InvalidInput);
    assert_eq!(Error::InvalidSetIndex.kind(), ErrorKind::InvalidInput);
    assert_eq!(Error::SessionExerciseNotFound.kind(), ErrorKind::NotFound);
    assert_eq!(Error::NoActiveSession.kind(), ErrorKind::NotFound);
}

#[test]
fn weights_are_read_as_grams() {
    let cases: [(&str, Option<Load>); 16] = [
        ("100", Some(Load::Weighted(100_000))),
        ("62.5", Some(Load::Weighted(62_500))),
        ("0.1259", Some(Load::Weighted(125))),
        (".5", Some(Load::Weighted(500))),
        ("5.", Some(Load::Weighted(5_000))),
        ("0", Some(Load::Weighted(0))),
        ("007.25", Some(Load::Weighted(7_250))),
        ("4294967.295", Some(Load::Weighted(4_294_967_295))),
        ("4294967.296", None),
        ("bw", Some(Load::Bodyweight)),
        ("BW", Some(Load::Bodyweight)),
        ("Bw", Some(Load::Bodyweight)),
        ("", None),
        (".", None),
        ("-5", None),
        ("1e2", None),
    ];
    for (text, want) in cases {
        assert_eq!(lazarus::refs::parse_weight(text), want, "{}", text);
    }
    assert_eq!(lazarus::refs::parse_weight("1.2.3"), None);
    assert_eq!(lazarus::refs::parse_weight("bodyweight"), None);
    assert_eq!(lazarus::refs::parse_weight(" 5"), None);
}

#[test]
fn sets_get_the_next_free_slot() {
    let mut store = gym();
    start_session(&mut store, "Strength", "Upper", 100).unwrap();
    for n in 1..=4 {
        let logged = edit_set(&mut store, 2, "bw", 10 - n, None, 100 + n as u64).unwrap();
        assert_eq!(logged.set_number, n as usize);
        assert!(logged.inserted);
        assert_eq!(logged.exercise_id, 3);
    }
    // beyond the two prescribed sets of the first exercise, by explicit index
    edit_set(&mut store, 1, "80", 5, Some(1), 200).unwrap();
    edit_set(&mut store, 1, "80", 5, Some(2), 201).unwrap();
    let extra = edit_set(&mut store, 1, "80", 5, Some(3), 202).unwrap();
    assert!(extra.inserted);
    assert_eq!(extra.set_number, 3);
    assert_eq!(store.sessions[0].exercises[0].sets.len(), 3);
    assert_eq!(store.sessions[0].exercises[1].sets.len(), 4);
}

#[test]
fn a_set_index_beyond_the_sets_makes_the_next_set() {
    let mut store = gym();
    start_session(&mut store, "Strength", "Upper", 100).unwrap();
    // no set is logged yet: the index 3 names no row, and a row is made at the first slot
    let first = edit_set(&mut store, 1, "80", 5, Some(3), 110).unwrap();
    assert!(first.inserted);
    assert_eq!(first.set_number, 1);
    // the same once more makes a second row: only an index up to the next free slot
    // is good for overwriting what the first edit wrote
    let second = edit_set(&mut store, 1, "80", 5, Some(3), 120).unwrap();
    assert!(second.inserted);
    assert_eq!(second.set_number, 2);
    let third = edit_set(&mut store, 1, "80", 5, Some(3), 130).unwrap();
    assert_eq!((third.inserted, third.set_number), (true, 3));
    let fourth = edit_set(&mut store, 1, "85", 5, Some(3), 140).unwrap();
    assert_eq!((fourth.inserted, fourth.set_number), (false, 3));
    assert_eq!(fourth.set_id, third.set_id);
    let weights: Vec<u32> = store.sessions[0].exercises[0].sets.iter().map(|s| s.weight).collect();
    assert_eq!(weights, vec![80_000, 80_000, 85_000]);
    let far = edit_set(&mut store, 1, "90", 5, Some(usize::MAX), 150).unwrap();
    assert_eq!((far.inserted, far.set_number), (true, 4));
}

#[test]
fn editing_a_slot_leaves_the_other_rows_alone() {
    let mut store = gym();
    start_session(&mut store, "Strength", "Upper", 100).unwrap();
    edit_set(&mut store, 1, "80", 5, None, 110).unwrap();
    edit_set(&mut store, 1, "85", 5, None, 120).unwrap();
    edit_set(&mut store, 1, "90", 5, None, 130).unwrap();
    edit_set(&mut store, 2, "bw", 8, None, 140).unwrap();
    let before = store.clone();
    let logged = edit_set(&mut store, 1, "87.5", 3, Some(2), 150).unwrap();
    assert!(!logged.inserted);
    let old = &before.sessions[0].exercises[0].sets;
    let new = &store.sessions[0].exercises[0].sets;
    assert_eq!(new.len(), 3);
    assert_eq!(new[0], old[0]);
    assert_eq!(new[2], old[2]);
    assert_eq!(new[1].id, old[1].id);
    assert_eq!(new[1].weight, 87_500);
    assert_eq!(new[1].reps, 3);
    assert_eq!(new[1].timestamp, 150);
    assert_eq!(store.sessions[0].exercises[1], before.sessions[0].exercises[1]);
}

#[test]
fn editing_twice_is_editing_once() {
    let mut once = gym();
    start_session_with_ids(&mut once, "Strength", "Upper", 100, 500, &vec![501, 502]).unwrap();
    edit_set_with_id(&mut once, 1, "80", 5, None, 110, 600).unwrap();
    let first = edit_set_with_id(&mut once, 1, "100", 5, Some(2), 120, 601).unwrap();
    assert!(first.inserted && first.is_pr);
    let mut twice = once.clone();
    let second = edit_set_with_id(&mut twice, 1, "100", 5, Some(2), 120, 602).unwrap();
    assert!(!second.inserted);
    assert!(!second.is_pr);
    assert_eq!(second.set_id, 601);
    assert_eq!(twice, once);
    let third = edit_set_with_id(&mut twice, 1, "100", 5, Some(2), 130, 603).unwrap();
    assert!(!third.inserted && !third.is_pr);
    assert_eq!(twice.records, once.records);
    assert_eq!(twice.exercises, once.exercises);
    assert_eq!(twice.sessions[0].exercises[0].sets.len(), 2);
    assert_eq!(twice.sessions[0].exercises[0].sets[1].timestamp, 130);
    assert_eq!(twice.sessions[0].exercises[0].sets[1].weight, 100_000);
}

#[test]
fn only_an_improvement_is_a_record() {
    let mut store = gym();
    start_session(&mut store, "Strength", "Upper", 100).unwrap();
    // 80 kg x 5: 80000 * 35 = 2_800_000
    assert!(edit_set(&mut store, 1, "80", 5, None, 110).unwrap().is_pr);
    // the same again is no record
    assert!(!edit_set(&mut store, 1, "80", 5, None, 120).unwrap().is_pr);
    // 70 kg x 10: 70000 * 40 = 2_800_000: equal, no record
    assert!(!edit_set(&mut store, 1, "70", 10, None, 130).unwrap().is_pr);
    // 70 kg x 11: 2_870_000
    assert!(edit_set(&mut store, 1, "70", 11, None, 140).unwrap().is_pr);
    // no repetitions, no record
    assert!(!edit_set(&mut store, 1, "200", 0, None, 150).unwrap().is_pr);
    // the bodyweight track is apart from the weighted one
    assert!(!edit_set(&mut store, 1, "bw", 0, None, 160).unwrap().is_pr);
    assert!(edit_set(&mut store, 1, "bw", 3, None, 170).unwrap().is_pr);
    assert!(!edit_set(&mut store, 1, "bw", 3, None, 180).unwrap().is_pr);
    assert!(edit_set(&mut store, 1, "bw", 4, None, 190).unwrap().is_pr);
    // another exercise starts afresh
    assert!(edit_set(&mut store, 2, "10", 1, None, 200).unwrap().is_pr);
    let metrics: Vec<(u128, u32, u32, u128)> = store
        .records
        .iter()
        .map(|r| (r.exercise_id, r.weight, r.reps, r.estimated_1rm_x30))
        .collect();
    assert_eq!(
        metrics,
        vec![
            (1, 80_000, 5, 2_800_000),
            (1, 70_000, 11, 2_870_000),
            (1, 0, 3, 0),
            (1, 0, 4, 0),
            (3, 10_000, 1, 310_000),
        ]
    );
    // the cached best is the record with the highest estimate
    assert_eq!(store.exercises[0].best_estimated_1rm_x30, Some(2_870_000));
    assert_eq!(store.exercises[0].best_date, Some(140));
    assert_eq!(store.exercises[2].best_estimated_1rm_x30, Some(310_000));
    assert_eq!(store.exercises[1].best_estimated_1rm_x30, None);
}

#[test]
fn a_set_out_of_consideration_sets_no_record() {
    let mut store = gym();
    start_session(&mut store, "Strength", "Upper", 100).unwrap();
    edit_set(&mut store, 1, "50", 5, None, 110).unwrap();
    store.sessions[0].exercises[0].sets[0].ignore_for_one_rm = true;
    let logged = edit_set(&mut store, 1, "150", 5, Some(1), 120).unwrap();
    assert!(!logged.is_pr);
    assert_eq!(store.records.len(), 1);
    let ended = finish_session(&mut store, 130).unwrap();
    assert!(ended.new_records.is_empty());
}

#[test]
fn swap_takes_over_the_set_count() {
    let mut store = gym();
    start_session_with_ids(&mut store, "Strength", "Upper", 100, 500, &vec![501, 502]).unwrap();
    // by catalog position: the fourth exercise is "Incline Press"
    let swapped = swap_exercise_with_id(&mut store, 2, "4", 700).unwrap();
    assert_eq!(swapped.session_exercise_id, 502);
    assert_eq!(swapped.old_exercise_id, 3);
    assert_eq!(swapped.new_exercise_id, 4);
    assert_eq!(swapped.sets, 4);
    assert!(swapped.prescription_created);
    let block = &store.programs[0].blocks[1];
    assert_eq!(block.exercises.len(), 3);
    assert_eq!(block.exercises[2].id, 700);
    assert_eq!(block.exercises[2].exercise_id, 4);
    assert_eq!(block.exercises[2].sets, 4);
    assert_eq!(block.exercises[2].order_index, 999);
    // swapping to an exercise that the block prescribes reuses its prescription
    let back = swap_exercise_with_id(&mut store, 2, "Bench Press", 701).unwrap();
    assert!(!back.prescription_created);
    assert_eq!(back.sets, 4);
    let block = &store.programs[0].blocks[1];
    assert_eq!(block.exercises.len(), 3);
    assert_eq!(block.exercises[0].exercise_id, 1);
    assert_eq!(block.exercises[0].sets, 4);
    assert_eq!(store.sessions[0].exercises[1].exercise_id, 1);
}

#[test]
fn swap_of_an_added_exercise_falls_back() {
    let mut store = gym();
    start_session(&mut store, "Strength", "Upper", 100).unwrap();
    let added = add_exercise(&mut store, "Squat", 5).unwrap();
    assert_eq!(added.position, 3);
    assert_eq!(added.sets, 5);
    assert_eq!(added.exercise_id, 2);
    let swapped = swap_exercise(&mut store, 3, "Incline Press").unwrap();
    assert_eq!(swapped.sets, 2);
    store.fallback_sets = 3;
    let mut other = gym();
    other.fallback_sets = 3;
    start_session(&mut other, "Strength", "Upper", 100).unwrap();
    add_exercise(&mut other, "2", 5).unwrap();
    assert_eq!(swap_exercise(&mut other, 3, "Incline Press").unwrap().sets, 3);
}

#[test]
fn swap_reports_what_it_cannot_do() {
    let mut store = gym();
    assert_eq!(swap_exercise(&mut store, 1, "Squat"), Err(Error::NoActiveSession));
    start_session(&mut store, "Strength", "Upper", 100).unwrap();
    let before = store.clone();
    assert_eq!(swap_exercise(&mut store, 3, "Squat"), Err(Error::SessionExerciseNotFound));
    assert_eq!(swap_exercise(&mut store, 0, "Squat"), Err(Error::SessionExerciseNotFound));
    assert_eq!(swap_exercise(&mut store, 1, "Deadlift"), Err(Error::ExerciseNotFound));
    assert_eq!(swap_exercise(&mut store, 1, "5"), Err(Error::ExerciseNotFound));
    assert_eq!(store, before);
    // the block of the session has gone
    store.programs.clear();
    let before = store.clone();
    assert_eq!(swap_exercise(&mut store, 1, "Squat"), Err(Error::StorageFailure));
    assert_eq!(Error::StorageFailure.kind(), ErrorKind::StorageFailure);
    assert_eq!(store, before);
}

#[test]
fn added_exercises_go_to_the_end() {
    let mut store = gym();
    assert_eq!(add_exercise(&mut store, "Squat", 3), Err(Error::NoActiveSession));
    start_session(&mut store, "Strength", "Lower", 100).unwrap();
    assert_eq!(add_exercise(&mut store, "Deadlift", 3), Err(Error::ExerciseNotFound));
    let added = add_exercise_with_id(&mut store, "Bench Press", 3, 900).unwrap();
    assert_eq!(added.session_exercise_id, 900);
    assert_eq!(added.position, 3);
    let ids: Vec<u128> = store.sessions[0].exercises.iter().map(|x| x.exercise_id).collect();
    assert_eq!(ids, vec![2, 3, 1]);
    // no prescription is made: the fallback count is shown
    assert_eq!(store.programs[0].blocks[0].exercises.len(), 2);
    let report = show_session(&store).unwrap();
    assert_eq!(report.exercises[2].prescribed_sets, 2);
    assert_eq!(report.exercises[2].rows.len(), 2);
}

#[test]
fn notes_are_trimmed_and_overwritten() {
    let mut store = gym();
    assert_eq!(set_note(&mut store, 1, "x"), Err(Error::NoActiveSession));
    start_session_with_ids(&mut store, "Strength", "Upper", 100, 500, &vec![501, 502]).unwrap();
    assert_eq!(set_note(&mut store, 3, "x"), Err(Error::SessionExerciseNotFound));
    assert_eq!(set_note(&mut store, 2, "  slow negatives \n"), Ok(502));
    assert_eq!(store.sessions[0].exercises[1].note, Some("slow negatives".to_string()));
    assert_eq!(set_note(&mut store, 2, "wide grip"), Ok(502));
    assert_eq!(store.sessions[0].exercises[1].note, Some("wide grip".to_string()));
    assert_eq!(store.sessions[0].exercises[0].note, None);
    assert_eq!(show_session(&store).unwrap().exercises[1].note, Some("wide grip".to_string()));
}

#[test]
fn cancel_removes_the_session_for_good() {
    let mut store = gym();
    assert_eq!(cancel_session(&mut store), Err(Error::NoActiveSession));
    start_session(&mut store, "Strength", "Upper", 100).unwrap();
    finish_session(&mut store, 200).unwrap();
    start_session_with_ids(&mut store, "Strength", "Lower", 300, 800, &vec![801, 802]).unwrap();
    edit_set(&mut store, 1, "100", 5, None, 310).unwrap();
    assert_eq!(cancel_session(&mut store), Ok(800));
    assert_eq!(store.sessions.len(), 1);
    assert_eq!(store.sessions[0].end_time, Some(200));
    assert_eq!(cancel_session(&mut store), Err(Error::NoActiveSession));
    assert_eq!(show_session(&store).map(|r| r.session_id), Err(Error::NoActiveSession));
}

#[test]
fn end_settles_each_exercise_once() {
    let mut store = gym();
    start_session(&mut store, "Strength", "Upper", 100).unwrap();
    add_exercise(&mut store, "Pull-up", 2).unwrap();
    // sets logged behind the back of the record engine
    let set = |id: u128, weight: u32, reps: u32, bodyweight: bool| ExerciseSet {
        id,
        weight,
        reps,
        rpe: None,
        rm_percent: None,
        notes: None,
        timestamp: 150,
        bodyweight,
        ignore_for_one_rm: false,
    };
    store.sessions[0].exercises[0].sets = vec![set(1, 60_000, 10, false), set(2, 80_000, 3, false)];
    store.sessions[0].exercises[1].sets = vec![set(3, 0, 8, true), set(4, 0, 12, true)];
    store.sessions[0].exercises[2].sets = vec![set(5, 0, 15, true), set(6, 5_000, 1, false)];
    let ended = finish_session(&mut store, 200).unwrap();
    // bench: 60 x 10 = 2_400_000 against 80 x 3 = 2_640_000
    // pull-up: over both instances the weighted set is the candidate
    assert_eq!(
        ended.new_records,
        vec![
            PersonalRecord {
                exercise_id: 1,
                date: 200,
                weight: 80_000,
                reps: 3,
                estimated_1rm_x30: 2_640_000
            },
            PersonalRecord {
                exercise_id: 3,
                date: 200,
                weight: 5_000,
                reps: 1,
                estimated_1rm_x30: 155_000
            },
        ]
    );
    assert_eq!(store.records, ended.new_records);
    assert_eq!(store.exercises[0].best_estimated_1rm_x30, Some(2_640_000));
    assert_eq!(store.exercises[2].best_date, Some(200));
    assert_eq!(ended.start_time, 100);
    assert_eq!(ended.end_time, 200);
    assert_eq!(ended.exercises.len(), 3);
    assert_eq!(ended.exercises[0].name, Some("Bench Press".to_string()));
    assert_eq!(
        ended.exercises[1].sets,
        vec![
            LoggedSet { weight: 0, reps: 8, bodyweight: true },
            LoggedSet { weight: 0, reps: 12, bodyweight: true }
        ]
    );
}

#[test]
fn end_on_the_bodyweight_track_compares_repetitions() {
    let mut store = gym();
    start_session(&mut store, "Strength", "Lower", 100).unwrap();
    edit_set(&mut store, 2, "bw", 10, None, 110).unwrap();
    finish_session(&mut store, 120).unwrap();
    assert_eq!(store.records.len(), 1);
    start_session(&mut store, "Strength", "Lower", 200).unwrap();
    let set = ExerciseSet {
        id: 77,
        weight: 0,
        reps: 11,
        rpe: None,
        rm_percent: None,
        notes: None,
        timestamp: 210,
        bodyweight: true,
        ignore_for_one_rm: false,
    };
    store.sessions[1].exercises[1].sets.push(set);
    let ended = finish_session(&mut store, 220).unwrap();
    assert_eq!(ended.new_records.len(), 1);
    assert_eq!(ended.new_records[0].reps, 11);
    assert_eq!(ended.new_records[0].weight, 0);
    assert_eq!(ended.new_records[0].estimated_1rm_x30, 0);
}

#[test]
fn records_rise_along_the_log() {
    let mut store = gym();
    let mut now = 100;
    for (weight, reps) in [("60", 5), ("50", 5), ("60", 6), ("bw", 5), ("61", 6), ("bw", 5), ("bw", 9), ("40", 30)] {
        start_session(&mut store, "Strength", "Upper", now).unwrap();
        edit_set(&mut store, 1, weight, reps, None, now + 1).unwrap();
        edit_set(&mut store, 1, weight, reps, None, now + 2).unwrap();
        finish_session(&mut store, now + 3).unwrap();
        now += 10;
    }
    for track in [true, false] {
        let figures: Vec<u128> = store
            .records
            .iter()
            .filter(|r| (r.weight == 0) == track)
            .map(|r| if track { r.reps as u128 } else { r.estimated_1rm_x30 })
            .collect();
        assert!(figures.len() >= 2);
        assert!(figures.windows(2).all(|w| w[0] < w[1]), "{:?}", figures);
    }
    assert!(store.records.windows(2).all(|w| w[0].date <= w[1].date));
    assert_eq!(store.records.len(), 6);
}

#[test]
fn show_lays_out_targets_history_and_sets() {
    let mut store = gym();
    // an earlier, completed session
    start_session(&mut store, "Strength", "Upper", 1_000).unwrap();
    edit_set(&mut store, 1, "80", 5, None, 1_010).unwrap();
    edit_set(&mut store, 1, "bw", 20, None, 1_020).unwrap();
    edit_set(&mut store, 1, "85", 4, None, 1_030).unwrap();
    finish_session(&mut store, 1_100).unwrap();
    start_session(&mut store, "Strength", "Upper", 2_000).unwrap();
    edit_set(&mut store, 1, "82.5", 5, None, 2_010).unwrap();
    edit_set(&mut store, 1, "82.5", 5, None, 2_020).unwrap();
    edit_set(&mut store, 1, "82.5", 4, None, 2_030).unwrap();
    edit_set(&mut store, 1, "bw", 9, None, 2_040).unwrap();
    let report = show_session(&store).unwrap();
    assert_eq!(report.block_name, Some("Upper".to_string()));
    assert_eq!(report.block_description, Some("push and pull".to_string()));
    assert_eq!(report.start_time, 2_000);
    assert_eq!(report.end_time, None);
    let bench = &report.exercises[0];
    assert_eq!(bench.prescribed_sets, 2);
    // four sets are logged where two are prescribed: all four are shown
    assert_eq!(bench.rows.len(), 4);
    let best = bench.best.unwrap();
    // 85 kg x 4 = 2_890_000 stays ahead of 82.5 kg x 5 = 2_887_500
    assert_eq!((best.weight, best.reps, best.estimated_1rm_x30), (85_000, 4, 2_890_000));
    assert_eq!(bench.rows[0].target_reps, Some("5".to_string()));
    assert_eq!(bench.rows[1].target_reps, Some("6-8".to_string()));
    assert_eq!(bench.rows[2].target_reps, Some("10".to_string()));
    assert_eq!(bench.rows[3].target_reps, None);
    let exertions: Vec<Option<u32>> = bench.rows.iter().map(|r| r.target_rpe).collect();
    assert_eq!(exertions, vec![Some(80), None, None, None]);
    // 70 %, 82.5 % and 90 % of 120 kg
    assert_eq!(bench.rows[0].target_percent, Some(PercentTarget { share: 700, weight: 84_000 }));
    assert_eq!(bench.rows[1].target_percent, Some(PercentTarget { share: 825, weight: 99_000 }));
    assert_eq!(bench.rows[2].target_percent, Some(PercentTarget { share: 900, weight: 108_000 }));
    assert_eq!(bench.rows[3].target_percent, None);
    assert_eq!(
        bench.rows[0].previous,
        Some(SetReference { weight: 80_000, reps: 5, estimated_1rm_x30: 2_800_000 })
    );
    // the bodyweight set of the earlier session is passed over
    assert_eq!(bench.rows[1].previous, None);
    assert_eq!(
        bench.rows[2].previous,
        Some(SetReference { weight: 85_000, reps: 4, estimated_1rm_x30: 2_890_000 })
    );
    assert_eq!(bench.rows[3].previous, None);
    assert_eq!(
        bench.rows[0].current,
        Some(LoggedSet { weight: 82_500, reps: 5, bodyweight: false })
    );
    assert_eq!(bench.rows[3].current, Some(LoggedSet { weight: 0, reps: 9, bodyweight: true }));
    let pull = &report.exercises[1];
    assert_eq!(pull.index, 2);
    assert_eq!(pull.rows.len(), 4);
    assert!(pull.rows.iter().all(|r| r.current.is_none() && r.previous.is_none()));
    assert!(pull.rows.iter().all(|r| r.target_rpe.is_none() && r.target_percent.is_none()));
    assert!(pull.rows.iter().all(|r| r.target_reps.is_none()));
    assert_eq!(pull.best, None);
}

#[test]
fn targets_without_a_reference_maximum_are_unset() {
    let mut store = gym();
    store.programs[0].blocks[1].exercises[0].program_1rm = None;
    start_session(&mut store, "Strength", "Upper", 1_000).unwrap();
    let report = show_session(&store).unwrap();
    assert_eq!(report.exercises[0].rows[0].target_rpe, Some(80));
    assert_eq!(report.exercises[0].rows[0].target_percent, None);
    assert_eq!(report.exercises[0].rows[1].target_rpe, None);
    assert_eq!(report.exercises[0].rows[1].target_percent, None);
}

#[test]
fn the_history_query_returns_the_latest_weighted_set() {
    let mut store = gym();
    assert_eq!(lazarus::history::previous_set(&store, 1, 0), None);
    for (start, weight) in [(1_000, "60"), (3_000, "70"), (2_000, "65")] {
        start_session(&mut store, "Strength", "Upper", start).unwrap();
        edit_set(&mut store, 1, weight, 5, None, start + 10).unwrap();
        finish_session(&mut store, start + 100).unwrap();
    }
    // the set written last counts, not the session listed last
    assert_eq!(
        lazarus::history::previous_set(&store, 1, 0),
        Some(SetReference { weight: 70_000, reps: 5, estimated_1rm_x30: 2_450_000 })
    );
    assert_eq!(lazarus::history::previous_set(&store, 1, 1), None);
    assert_eq!(lazarus::history::previous_set(&store, 3, 0), None);
    // a session in progress is no history
    start_session(&mut store, "Strength", "Upper", 5_000).unwrap();
    edit_set(&mut store, 1, "75", 5, None, 5_010).unwrap();
    assert_eq!(lazarus::history::previous_set(&store, 1, 0).unwrap().weight, 70_000);
    finish_session(&mut store, 5_100).unwrap();
    assert_eq!(lazarus::history::previous_set(&store, 1, 0).unwrap().weight, 75_000);
}

#[test]
fn log_finds_the_session_of_a_day() {
    let mut store = gym();
    // 5 March 2024 is day 738_950 and begins at 1_709_596_800
    let day_start: u64 = 1_709_596_800;
    assert_eq!(lazarus::dates::day_of_time(day_start), 738_950);
    assert_eq!(lazarus::dates::day_of_time(day_start - 1), 738_949);
    assert_eq!(lazarus::dates::day_of_time(0), 719_163);
    for (start, block) in [(day_start + 100, "Upper"), (day_start + 5_000, "Lower"), (day_start + 90_000, "Upper")] {
        start_session(&mut store, "Strength", block, start).unwrap();
        finish_session(&mut store, start + 50).unwrap();
    }
    start_session(&mut store, "Strength", "Upper", day_start + 6_000).unwrap();
    let report = session_log(&store, "05-03-2024").unwrap();
    assert_eq!(report.start_time, day_start + 5_000);
    assert_eq!(report.block_name, Some("Lower".to_string()));
    assert_eq!(report.end_time, Some(day_start + 5_050));
    assert_eq!(session_log(&store, "5-3-2024").unwrap().start_time, day_start + 5_000);
    assert_eq!(session_log(&store, "06-03-2024").unwrap().start_time, day_start + 90_000);
    assert_eq!(session_log(&store, "04-03-2024").map(|r| r.session_id), Err(Error::SessionNotFound));
    assert_eq!(session_log(&store, "2024-03-05").map(|r| r.session_id), Err(Error::InvalidDate));
    assert_eq!(session_log(&store, "31-02-2024").map(|r| r.session_id), Err(Error::InvalidDate));
    assert_eq!(session_log(&store, "today").map(|r| r.session_id), Err(Error::InvalidDate));
    assert_eq!(session_log_on(&store, 738_950).unwrap().start_time, day_start + 5_000);
    assert_eq!(session_log_on(&store, 1).map(|r| r.session_id), Err(Error::SessionNotFound));
    assert_eq!(Error::SessionNotFound.kind(), ErrorKind::NotFound);
}

#[test]
fn the_timer_shows_the_time_run() {
    let mut store = gym();
    assert_eq!(show_timer(&store, 10), Err(Error::NoActiveSession));
    start_session(&mut store, "Strength", "Upper", 1_000).unwrap();
    assert_eq!(show_timer(&store, 1_000), Ok("00:00:00".to_string()));
    assert_eq!(show_timer(&store, 1_000 + 3_723), Ok("01:02:03".to_string()));
    assert_eq!(show_timer(&store, 1_000 + 360_000), Ok("100:00:00".to_string()));
    assert_eq!(show_timer(&store, 10), Ok("00:00:00".to_string()));
}

#[test]
fn handle_runs_the_commands() {
    let mut store = gym();
    let start = SessionCmd::Start(StartArgs {
        program: "Strength".to_string(),
        block: "Upper".to_string(),
        week: Some(3),
    });
    assert!(matches!(handle(&start, &mut store, 100), Ok(SessionOutput::Started(_))));
    assert_eq!(handle(&start, &mut store, 100), Err(Error::SessionAlreadyActive));
    let edit = SessionCmd::Edit {
        exercise: 1,
        weight: "100".to_string(),
        reps: 5,
        set: None,
        new: false,
    };
    match handle(&edit, &mut store, 110) {
        Ok(SessionOutput::Edited(logged)) => {
            assert_eq!(logged.set_number, 1);
            assert!(logged.is_pr);
        }
        other => panic!("{:?}", other),
    }
    let negative = SessionCmd::Edit {
        exercise: 1,
        weight: "100".to_string(),
        reps: -5,
        set: None,
        new: true,
    };
    assert_eq!(handle(&negative, &mut store, 120), Err(Error::InvalidCount));
    assert_eq!(Error::InvalidCount.kind(), ErrorKind::InvalidInput);
    let add = SessionCmd::AddEx { exercise: "Squat".to_string(), sets: 3 };
    assert!(matches!(handle(&add, &mut store, 130), Ok(SessionOutput::Added(_))));
    let add = SessionCmd::AddEx { exercise: "Squat".to_string(), sets: -1 };
    assert_eq!(handle(&add, &mut store, 130), Err(Error::InvalidCount));
    let swap = SessionCmd::Swap { exercise: 3, new_exercise: "Incline Press".to_string() };
    assert!(matches!(handle(&swap, &mut store, 140), Ok(SessionOutput::Swapped(_))));
    let note = SessionCmd::Note { exercise: 1, note: " paused ".to_string() };
    assert!(matches!(handle(&note, &mut store, 150), Ok(SessionOutput::Noted(_))));
    match handle(&SessionCmd::Show, &mut store, 160) {
        Ok(SessionOutput::Shown(report)) => {
            assert_eq!(report.exercises.len(), 3);
            assert_eq!(report.exercises[0].note, Some("paused".to_string()));
            assert_eq!(report.exercises[2].name, Some("Incline Press".to_string()));
        }
        other => panic!("{:?}", other),
    }
    match handle(&SessionCmd::End, &mut store, 170) {
        Ok(SessionOutput::Ended(ended)) => assert!(ended.new_records.is_empty()),
        other => panic!("{:?}", other),
    }
    let log = SessionCmd::Log { date: "01-01-1970".to_string() };
    assert!(matches!(handle(&log, &mut store, 180), Ok(SessionOutput::Logged(_))));
    let log = SessionCmd::Log { date: "1970".to_string() };
    assert_eq!(handle(&log, &mut store, 180), Err(Error::InvalidDate));
    assert_eq!(handle(&SessionCmd::Cancel, &mut store, 190), Err(Error::NoActiveSession));
    assert!(matches!(handle(&start, &mut store, 200), Ok(SessionOutput::Started(_))));
    assert!(matches!(handle(&SessionCmd::Cancel, &mut store, 210), Ok(SessionOutput::Cancelled(_))));
}

#[test]
fn fresh_rows_get_different_identifiers() {
    let mut store = gym();
    let started = start_session(&mut store, "Strength", "Upper", 100).unwrap();
    let first = edit_set(&mut store, 1, "50", 5, None, 110).unwrap();
    let second = edit_set(&mut store, 1, "50", 5, None, 120).unwrap();
    let ids = [
        started.session_id,
        store.sessions[0].exercises[0].id,
        store.sessions[0].exercises[1].id,
        first.set_id,
        second.set_id,
    ];
    for i in 0..ids.len() {
        for j in 0..i {
            assert_ne!(ids[i], ids[j]);
        }
    }
}

#[test]
fn a_session_lists_its_training_session_type() {
    // the store is plain data: a session can be put together by hand
    let session = TrainingSession {
        id: 1,
        block_id: 22,
        start_time: 5,
        end_time: None,
        exercises: vec![SessionExercise { id: 2, exercise_id: 1, note: None, sets: Vec::new() }],
    };
    let mut store = gym();
    store.sessions.push(session);
    let report = show_session(&store).unwrap();
    assert_eq!(report.session_id, 1);
    assert_eq!(report.exercises[0].rows.len(), 2);
}

#[test]
fn a_session_follows_the_order_indices() {
    let mut store = gym();
    // the block holds its prescriptions out of order
    let block = &mut store.programs[0].blocks[1];
    block.exercises.push(prescription(33, 2, 1, 0));
    block.exercises.push(prescription(34, 4, 1, 1));
    block.exercises[0].order_index = 7;
    // order indices 7, 1, 0, 1 for the exercises 1, 3, 2, 4
    assert_eq!(order_of_prescriptions(&block.exercises), vec![2, 1, 3, 0]);
    start_session(&mut store, "Strength", "Upper", 100).unwrap();
    let ids: Vec<u128> = store.sessions[0].exercises.iter().map(|x| x.exercise_id).collect();
    assert_eq!(ids, vec![2, 3, 4, 1]);
    let shown: Vec<u128> = show_session(&store).unwrap().exercises.iter().map(|x| x.exercise_id).collect();
    assert_eq!(shown, vec![2, 3, 4, 1]);
    assert_eq!(order_of_prescriptions(&Vec::new()), Vec::<usize>::new());
}

#[test]
fn sessions_in_progress_are_counted() {
    let mut store = gym();
    assert_eq!(count_active(&store), 0);
    start_session(&mut store, "Strength", "Upper", 100).unwrap();
    assert_eq!(count_active(&store), 1);
    finish_session(&mut store, 200).unwrap();
    assert_eq!(count_active(&store), 0);
    start_session(&mut store, "Strength", "Lower", 300).unwrap();
    assert_eq!(start_session(&mut store, "Strength", "Lower", 300), Err(Error::SessionAlreadyActive));
    edit_set(&mut store, 1, "50", 5, None, 310).unwrap();
    swap_exercise(&mut store, 1, "Bench Press").unwrap();
    add_exercise(&mut store, "Squat", 1).unwrap();
    set_note(&mut store, 1, "x").unwrap();
    assert_eq!(count_active(&store), 1);
    assert_eq!(store.sessions.len(), 2);
    cancel_session(&mut store).unwrap();
    assert_eq!(count_active(&store), 0);
    assert_eq!(store.sessions.len(), 1);
}

#[test]
fn run_takes_the_time_from_the_clock() {
    let mut store = gym();
    let start = SessionCmd::Start(StartArgs {
        program: "Strength".to_string(),
        block: "Upper".to_string(),
        week: None,
    });
    assert!(matches!(run(&start, &mut store), Ok(SessionOutput::Started(_))));
    // later than the first of January 2024
    assert!(store.sessions[0].start_time > 1_704_067_200);
    let started = store.sessions[0].start_time;
    let edit = SessionCmd::Edit {
        exercise: 1,
        weight: "60".to_string(),
        reps: 5,
        set: None,
        new: false,
    };
    assert!(matches!(run(&edit, &mut store), Ok(SessionOutput::Edited(_))));
    assert!(store.sessions[0].exercises[0].sets[0].timestamp >= started);
    assert!(matches!(run(&SessionCmd::End, &mut store), Ok(SessionOutput::Ended(_))));
    assert!(store.sessions[0].end_time.unwrap() >= started);
    assert_eq!(run(&SessionCmd::End, &mut store), Err(Error::NoActiveSession));
}

#[test]
fn a_reading_before_the_epoch_counts_as_the_epoch() {
    assert_eq!(time_from_seconds(0), 0);
    assert_eq!(time_from_seconds(1_709_596_800), 1_709_596_800);
    assert_eq!(time_from_seconds(i64::MAX), i64::MAX as u64);
    assert_eq!(time_from_seconds(-1), 0);
    assert_eq!(time_from_seconds(i64::MIN), 0);
}

#[test]
fn sessions_keep_their_blocks_through_the_commands() {
    let mut store = gym();
    assert!(all_sessions_have_blocks(&store));
    start_session(&mut store, "Strength", "Upper", 100).unwrap();
    assert!(all_sessions_have_blocks(&store));
    edit_set(&mut store, 1, "60", 5, None, 110).unwrap();
    edit_set(&mut store, 1, "60", 4, None, 120).unwrap();
    let before = store.sessions[0].exercises.clone();
    // the block is there, the exercise is there, the reference names one: the swap succeeds
    let swapped = swap_exercise(&mut store, 1, "Incline Press").unwrap();
    assert_eq!(swapped.session_exercise_id, before[0].id);
    assert_eq!(store.sessions[0].exercises.len(), before.len());
    assert_eq!(store.sessions[0].exercises[0].id, before[0].id);
    assert_eq!(store.sessions[0].exercises[0].exercise_id, 4);
    assert_eq!(store.sessions[0].exercises[0].sets, before[0].sets);
    assert_eq!(store.sessions[0].exercises[0].note, before[0].note);
    assert_eq!(store.sessions[0].exercises[1], before[1]);
    assert!(all_sessions_have_blocks(&store));
    add_exercise(&mut store, "Squat", 2).unwrap();
    set_note(&mut store, 2, "strict").unwrap();
    finish_session(&mut store, 200).unwrap();
    assert!(all_sessions_have_blocks(&store));
    start_session(&mut store, "Strength", "Lower", 300).unwrap();
    cancel_session(&mut store).unwrap();
    assert!(all_sessions_have_blocks(&store));
    // a session whose block no program holds
    store.programs[0].blocks.remove(1);
    assert!(!all_sessions_have_blocks(&store));
}
