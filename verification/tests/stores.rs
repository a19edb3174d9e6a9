use lazarus::calendar::{extent_of_month, month_calendar, month_calendar_from};
use lazarus::error::{Error, ErrorKind};
use lazarus::exercise::{
    add_variant, create_exercise, create_exercise_with_id, delete_exercise, import_exercises,
    import_exercises_with_ids, insert_text, last_idx, list_exercises, parse_muscle,
    ImportOutcome,
};
use lazarus::models::{
    Block, Exercise, Muscle, OneRMFormula, Program, ProgramExercise, Store, TrainingSession,
};
use lazarus::program::{
    delete_program, import_program, import_program_with_ids, list_programs, BlockExerciseImport,
    BlockImport, ProgramImport, ProgramImported,
};
use lazarus::session::start_session;
use lazarus::types::{ExerciseDef, ExerciseImport};

fn exercise(id: u128, idx: u32, name: &str, muscle: Muscle) -> Exercise {
    Exercise {
        id,
        idx,
        name: name.to_string(),
        muscle,
        description: None,
        variants: Vec::new(),
        best_estimated_1rm_x30: None,
        best_date: None,
    }
}

fn catalog() -> Store {
    let mut store = Store::new();
    store.exercises.push(exercise(1, 1, "Bench Press", Muscle::Chest));
    store.exercises.push(exercise(2, 2, "Squat", Muscle::Quads));
    store.exercises.push(exercise(3, 3, "Pull-up", Muscle::Back));
    store.exercises.push(exercise(4, 5, "Incline Press", Muscle::Chest));
    store.programs.push(Program {
        id: 10,
        name: "Strength".to_string(),
        description: None,
        blocks: vec![Block {
            id: 20,
            name: "Full".to_string(),
            description: None,
            week: None,
            exercises: vec![ProgramExercise {
                id: 30,
                exercise_id: 2,
                sets: 5,
                reps: vec!["5".to_string()],
                target_rpe: Vec::new(),
                target_rm_percent: Vec::new(),
                notes: None,
                program_1rm: None,
                technique: None,
                technique_group: None,
                order_index: 0,
            }],
        }],
    });
    store
}

fn def(name: &str, muscle: &str) -> ExerciseDef {
    ExerciseDef { name: name.to_string(), description: None, primary_muscle: muscle.to_string() }
}

fn item(name: &str, sets: u32) -> BlockExerciseImport {
    BlockExerciseImport {
        name: name.to_string(),
        sets,
        reps: None,
        target_rpe: None,
        target_rm_percent: None,
        notes: None,
        program_1rm: None,
        technique: None,
        group: None,
    }
}

#[test]
fn a_new_exercise_gets_the_next_number() {
    let mut store = catalog();
    assert_eq!(last_idx(&store.exercises), 5);
    let idx = create_exercise_with_id(&mut store, "Deadlift", "Back", Some("from the floor".to_string()), 99);
    assert_eq!(idx, Ok(6));
    let made = store.exercises.last().unwrap();
    assert_eq!(made.id, 99);
    assert_eq!(made.idx, 6);
    assert_eq!(made.name, "Deadlift");
    assert_eq!(made.muscle, Muscle::Back);
    assert_eq!(made.description, Some("from the floor".to_string()));
    assert_eq!(made.best_estimated_1rm_x30, None);
    assert_eq!(create_exercise(&mut store, "Curl", "biceps", None), Ok(7));
    let mut empty = Store::new();
    assert_eq!(create_exercise(&mut empty, "Curl", "BICEPS", None), Ok(1));
}

#[test]
fn an_exercise_is_refused_for_its_muscle_or_its_name() {
    let mut store = catalog();
    let before = store.clone();
    assert_eq!(create_exercise(&mut store, "Squat", "quads", None), Err(Error::DuplicateExercise));
    assert_eq!(create_exercise(&mut store, "Lunge", "legs", None), Err(Error::InvalidMuscle));
    assert_eq!(create_exercise(&mut store, "Squat", "legs", None), Err(Error::InvalidMuscle));
    assert_eq!(create_exercise(&mut store, "Lunge", "quads\n", None), Err(Error::InvalidMuscle));
    assert_eq!(Error::DuplicateExercise.kind(), ErrorKind::Conflict);
    assert_eq!(Error::InvalidMuscle.kind(), ErrorKind::InvalidInput);
    assert_eq!(store, before);
    store.exercises[0].idx = u32::MAX;
    assert_eq!(create_exercise(&mut store, "Lunge", "quads", None), Err(Error::StorageFailure));
}

#[test]
fn muscles_are_read_in_any_case() {
    assert_eq!(parse_muscle("chest"), Some(Muscle::Chest));
    assert_eq!(parse_muscle("CHEST"), Some(Muscle::Chest));
    assert_eq!(parse_muscle("Hamstrings"), Some(Muscle::Hamstrings));
    assert_eq!(parse_muscle("abs"), Some(Muscle::Abs));
    assert_eq!(parse_muscle("ab"), None);
    assert_eq!(parse_muscle("chest "), None);
    assert_eq!(parse_muscle("che\u{0}st"), None);
    assert_eq!(parse_muscle(""), None);
    let all = [
        Muscle::Biceps,
        Muscle::Triceps,
        Muscle::Forearms,
        Muscle::Chest,
        Muscle::Shoulders,
        Muscle::Back,
        Muscle::Quads,
        Muscle::Hamstrings,
        Muscle::Glutes,
        Muscle::Calves,
        Muscle::Abs,
    ];
    let names = lazarus::types::allowed_muscles();
    assert_eq!(names.len(), 11);
    for (m, name) in all.iter().zip(names.iter()) {
        assert_eq!(m.to_string(), *name);
        assert_eq!(lazarus::types::name_of_muscle(*m), *name);
        assert_eq!(lazarus::types::muscle_from_name(name), Some(*m));
        assert_eq!(parse_muscle(&name.to_uppercase()), Some(*m));
    }
}

#[test]
fn cannonical_muscle_gives_the_lower_case_name() {
    assert_eq!(lazarus::types::cannonical_muscle("CHEST"), Some("chest".to_string()));
    assert_eq!(lazarus::types::cannonical_muscle("Quads"), Some("quads".to_string()));
    assert_eq!(lazarus::types::cannonical_muscle("calves"), Some("calves".to_string()));
    assert_eq!(lazarus::types::cannonical_muscle("legs"), None);
    assert_eq!(lazarus::types::cannonical_muscle(""), None);
    assert_eq!(lazarus::types::cannonical_muscle("ÇHEST"), None);
}

#[test]
fn an_import_of_exercises_reports_each_one() {
    let mut store = catalog();
    let file = ExerciseImport {
        exercise: vec![
            def("Row", "back"),
            def("Squat", "quads"),
            def("Curl", "arms"),
            def("Dip", "TRICEPS"),
            def("Fly", "Arms"),
            def("Kick", "arms"),
            def("Row", "back"),
        ],
    };
    let ids = vec![101, 102, 103, 104, 105, 106, 107];
    let summary = import_exercises_with_ids(&mut store, &file, &ids);
    assert_eq!(summary.inserted, 2);
    assert_eq!(summary.skipped, 5);
    assert_eq!(
        summary.outcomes,
        vec![
            ImportOutcome::Inserted,
            ImportOutcome::AlreadyExists,
            ImportOutcome::UnknownMuscle,
            ImportOutcome::Inserted,
            ImportOutcome::UnknownMuscle,
            ImportOutcome::UnknownMuscle,
            ImportOutcome::AlreadyExists,
        ]
    );
    assert_eq!(summary.unknown_muscles, vec!["Arms".to_string(), "arms".to_string()]);
    assert_eq!(store.exercises.len(), 6);
    assert_eq!((store.exercises[4].id, store.exercises[4].idx), (101, 6));
    assert_eq!(store.exercises[4].name, "Row");
    assert_eq!((store.exercises[5].id, store.exercises[5].idx), (104, 7));
    assert_eq!(store.exercises[5].muscle, Muscle::Triceps);
    let again = import_exercises(&mut store, &file);
    assert_eq!(again.inserted, 0);
    assert_eq!(again.skipped, 7);
    assert_eq!(store.exercises.len(), 6);
    let nothing = import_exercises(&mut store, &ExerciseImport { exercise: Vec::new() });
    assert_eq!((nothing.inserted, nothing.skipped), (0, 0));
}

#[test]
fn texts_are_kept_in_order_and_once() {
    let mut list: Vec<String> = Vec::new();
    for text in ["pear", "apple", "fig", "apple", "Zebra", "figs", "", "pear"] {
        insert_text(&mut list, text);
    }
    assert_eq!(list, vec!["", "Zebra", "apple", "fig", "figs", "pear"]);
}

#[test]
fn exercises_are_listed_by_muscle() {
    let store = catalog();
    let all = list_exercises(&store, None);
    assert_eq!(all.len(), 4);
    assert_eq!(all[3].idx, 5);
    assert_eq!(all[3].name, "Incline Press");
    assert_eq!(all[3].primary_muscle, Muscle::Chest);
    let chest: Vec<String> = list_exercises(&store, Some("chest")).into_iter().map(|r| r.name).collect();
    assert_eq!(chest, vec!["Bench Press", "Incline Press"]);
    assert!(list_exercises(&store, Some("Chest")).is_empty());
    assert!(list_exercises(&store, Some("glutes")).is_empty());
}

#[test]
fn an_exercise_is_deleted_by_number_or_name() {
    let mut store = catalog();
    assert_eq!(delete_exercise(&mut store, "4"), Err(Error::ExerciseNotFound));
    assert_eq!(delete_exercise(&mut store, "-5"), Err(Error::ExerciseNotFound));
    assert_eq!(delete_exercise(&mut store, "Deadlift"), Err(Error::ExerciseNotFound));
    assert_eq!(Error::ExerciseNotFound.kind(), ErrorKind::NotFound);
    assert_eq!(delete_exercise(&mut store, "5"), Ok("Incline Press".to_string()));
    assert_eq!(delete_exercise(&mut store, "Squat"), Ok("Squat".to_string()));
    let names: Vec<&str> = store.exercises.iter().map(|e| e.name.as_str()).collect();
    assert_eq!(names, vec!["Bench Press", "Pull-up"]);
    // the program still prescribes the deleted exercise; a session of it shows no name
    start_session(&mut store, "Strength", "Full", 1).unwrap();
    let report = lazarus::report::show_session(&store).unwrap();
    assert_eq!(report.exercises[0].exercise_id, 2);
    assert_eq!(report.exercises[0].name, None);
    assert_eq!(report.exercises[0].rows.len(), 5);
}

fn alpha() -> ProgramImport {
    let mut bench = item("Bench Press", 3);
    bench.reps = Some(vec!["5".to_string(), "5".to_string(), "5".to_string()]);
    bench.target_rpe = Some(vec![70, 80, 90]);
    bench.program_1rm = Some(100_000);
    bench.notes = Some("pause".to_string());
    bench.group = Some(1);
    ProgramImport {
        name: "Alpha".to_string(),
        description: Some("first".to_string()),
        blocks: vec![
            BlockImport {
                name: "Push".to_string(),
                description: None,
                exercises: vec![bench, item("Bench Press", 9), item("Squat", 2)],
            },
            BlockImport {
                name: "Legs".to_string(),
                description: Some("heavy".to_string()),
                exercises: vec![item("Squat", 4)],
            },
        ],
    }
}

#[test]
fn a_program_is_imported_in_the_order_of_the_names() {
    let mut store = catalog();
    let r = import_program_with_ids(
        &mut store,
        &alpha(),
        100,
        &vec![200, 201],
        &vec![vec![300, 301, 302], vec![400]],
    );
    assert_eq!(r, ProgramImported::Imported { program_id: 100, updated: false });
    let names: Vec<&str> = store.programs.iter().map(|p| p.name.as_str()).collect();
    assert_eq!(names, vec!["Alpha", "Strength"]);
    let program = &store.programs[0];
    assert_eq!(program.id, 100);
    assert_eq!(program.description, Some("first".to_string()));
    let blocks: Vec<(&str, u128)> = program.blocks.iter().map(|b| (b.name.as_str(), b.id)).collect();
    assert_eq!(blocks, vec![("Legs", 201), ("Push", 200)]);
    let push = &program.blocks[1];
    // the second item names the exercise of the first and is passed over
    assert_eq!(push.exercises.len(), 2);
    assert_eq!(push.exercises[0].id, 300);
    assert_eq!(push.exercises[0].exercise_id, 1);
    assert_eq!(push.exercises[0].sets, 3);
    assert_eq!(push.exercises[0].reps, vec!["5", "5", "5"]);
    assert_eq!(push.exercises[0].target_rpe, vec![70, 80, 90]);
    assert_eq!(push.exercises[0].target_rm_percent, Vec::<u32>::new());
    assert_eq!(push.exercises[0].program_1rm, Some(100_000));
    assert_eq!(push.exercises[0].notes, Some("pause".to_string()));
    assert_eq!(push.exercises[0].technique_group, Some(1));
    assert_eq!(push.exercises[0].order_index, 0);
    assert_eq!(push.exercises[1].id, 302);
    assert_eq!(push.exercises[1].exercise_id, 2);
    assert_eq!(push.exercises[1].order_index, 2);
    assert_eq!(program.blocks[0].exercises[0].id, 400);
    assert_eq!(program.blocks[0].description, Some("heavy".to_string()));
    // display order decides what an index means
    let started = start_session(&mut store, "1", "2", 5).unwrap();
    assert_eq!(started.block_id, 200);
    assert_eq!(started.exercises, 2);
}

#[test]
fn a_program_with_unknown_exercises_is_not_imported() {
    let mut store = catalog();
    let before = store.clone();
    let mut file = alpha();
    file.blocks[0].exercises.push(item("Deadlift", 1));
    file.blocks[1].exercises.push(item("Press", 1));
    file.blocks[1].exercises.push(item("Deadlift", 1));
    let r = import_program(&mut store, &file);
    assert_eq!(
        r,
        ProgramImported::MissingExercises(vec!["Deadlift".to_string(), "Press".to_string()])
    );
    assert_eq!(store, before);
}

#[test]
fn a_program_of_the_same_name_gives_way() {
    let mut store = catalog();
    let mut file = alpha();
    file.name = "Strength".to_string();
    let r = import_program(&mut store, &file);
    assert_eq!(r, ProgramImported::Imported { program_id: 10, updated: true });
    assert_eq!(store.programs.len(), 1);
    assert_eq!(store.programs[0].id, 10);
    assert_eq!(store.programs[0].description, Some("first".to_string()));
    let blocks: Vec<&str> = store.programs[0].blocks.iter().map(|b| b.name.as_str()).collect();
    assert_eq!(blocks, vec!["Legs", "Push"]);
    let empty = ProgramImport { name: "Strength".to_string(), description: None, blocks: Vec::new() };
    assert_eq!(
        import_program(&mut store, &empty),
        ProgramImported::Imported { program_id: 10, updated: true }
    );
    assert!(store.programs[0].blocks.is_empty());
    assert_eq!(store.programs[0].description, None);
}

#[test]
fn programs_are_listed_and_deleted() {
    let mut store = catalog();
    import_program(&mut store, &alpha());
    let rows = list_programs(&store);
    assert_eq!(rows.len(), 2);
    assert_eq!((rows[0].idx, rows[0].name.as_str(), rows[0].blocks), (1, "Alpha", 2));
    assert_eq!((rows[1].idx, rows[1].name.as_str(), rows[1].blocks), (2, "Strength", 1));
    assert_eq!(rows[1].id, 10);
    assert_eq!(rows[0].description, Some("first".to_string()));
    assert_eq!(delete_program(&mut store, "3"), Err(Error::ProgramNotFound));
    assert_eq!(delete_program(&mut store, "Beta"), Err(Error::ProgramNotFound));
    assert_eq!(Error::ProgramNotFound.kind(), ErrorKind::NotFound);
    assert_eq!(Error::BlockNotFound.kind(), ErrorKind::NotFound);
    assert_eq!(delete_program(&mut store, "2"), Ok("Strength".to_string()));
    assert_eq!(delete_program(&mut store, "Alpha"), Ok("Alpha".to_string()));
    assert!(store.programs.is_empty());
    assert!(list_programs(&store).is_empty());
}

fn session(id: u128, start: u64, end: Option<u64>) -> TrainingSession {
    TrainingSession { id, block_id: 20, start_time: start, end_time: end, exercises: Vec::new() }
}

#[test]
fn a_month_is_laid_out_with_its_sessions() {
    let february: u64 = 1_706_745_600;
    let mut store = catalog();
    store.sessions.push(session(1, february - 1, Some(february + 5)));
    store.sessions.push(session(2, february + 9 * 86_400 + 43_200, Some(february + 9 * 86_400 + 46_800)));
    store.sessions.push(session(3, february + 9 * 86_400 + 50_000, Some(february + 9 * 86_400 + 49_000)));
    store.sessions.push(session(4, february + 29 * 86_400, None));
    let mut late = session(5, february + 28 * 86_400 + 86_399, None);
    late.block_id = 21;
    store.sessions.push(late);
    let cal = month_calendar(&store, 2024, 2, february + 29 * 86_400).unwrap();
    assert_eq!((cal.year, cal.month), (2024, 2));
    assert_eq!(cal.days, 29);
    // 1 February 2024 is a Thursday
    assert_eq!(cal.first_weekday, 4);
    let trained: Vec<usize> = (0..29).filter(|d| cal.trained[*d]).map(|d| d + 1).collect();
    assert_eq!(trained, vec![10, 29]);
    assert_eq!(cal.trained.len(), 29);
    let entries: Vec<(u128, u32, u64)> = cal.entries.iter().map(|e| (e.session_id, e.day, e.seconds)).collect();
    assert_eq!(entries, vec![(2, 10, 3_600), (3, 10, 0), (5, 29, 1)]);
    assert_eq!(cal.entries[0].program_name, Some("Strength".to_string()));
    assert_eq!(cal.entries[0].block_name, Some("Full".to_string()));
    assert_eq!(cal.entries[2].program_name, None);
    assert_eq!(cal.entries[2].end_time, None);
    let january = month_calendar(&store, 2024, 1, 0).unwrap();
    assert_eq!(january.days, 31);
    assert_eq!(january.first_weekday, 1);
    assert_eq!(january.entries.len(), 1);
    assert_eq!(january.entries[0].day, 31);
}

#[test]
fn months_have_their_lengths() {
    assert_eq!(extent_of_month(1970, 1), Some((719_163, 31)));
    assert_eq!(extent_of_month(2023, 2), Some((738_552, 28)));
    assert_eq!(extent_of_month(2024, 2), Some((738_917, 29)));
    assert_eq!(extent_of_month(2023, 12), Some((738_855, 31)));
    assert_eq!(extent_of_month(1, 1), Some((1, 31)));
    assert_eq!(extent_of_month(2024, 0), None);
    assert_eq!(extent_of_month(2024, 13), None);
    assert_eq!(extent_of_month(i32::MAX, 1), None);
    assert_eq!(extent_of_month(400_000, 1), None);
    let store = catalog();
    assert_eq!(month_calendar(&store, 2024, 13, 0).map(|c| c.days), Err(Error::InvalidDate));
    assert_eq!(month_calendar(&store, 2024, 0, 0).map(|c| c.days), Err(Error::InvalidDate));
    assert_eq!(Error::InvalidDate.kind(), ErrorKind::InvalidInput);
    let cal = month_calendar_from(&store, 2023, 12, 738_855, 31, 0);
    // 1 December 2023 is a Friday
    assert_eq!(cal.first_weekday, 5);
    assert_eq!(lazarus::dates::weekday(1), 1);
    assert_eq!(lazarus::dates::weekday(0), 0);
    assert_eq!(lazarus::dates::weekday(-1), 6);
    assert_eq!(lazarus::dates::weekday(-7), 0);
    assert_eq!(lazarus::dates::weekday(-8), 6);
}

#[test]
fn the_formulas_have_their_names() {
    let all = [OneRMFormula::Epley, OneRMFormula::Brzycki, OneRMFormula::Lombardi, OneRMFormula::OConner];
    assert_eq!(all.len(), 4);
    assert_ne!(OneRMFormula::Epley, OneRMFormula::Brzycki);
}

#[test]
fn variants_are_numbered_within_their_exercise() {
    let mut store = catalog();
    assert_eq!(add_variant(&mut store, "Bench Press", "close grip"), Ok(1));
    assert_eq!(add_variant(&mut store, "1", "paused"), Ok(2));
    assert_eq!(add_variant(&mut store, "Squat", "front"), Ok(1));
    assert_eq!(add_variant(&mut store, "Deadlift", "sumo"), Err(Error::ExerciseNotFound));
    assert_eq!(add_variant(&mut store, "9", "sumo"), Err(Error::ExerciseNotFound));
    let names: Vec<(u32, &str)> =
        store.exercises[0].variants.iter().map(|v| (v.idx, v.name.as_str())).collect();
    assert_eq!(names, vec![(1, "close grip"), (2, "paused")]);
    assert_eq!(store.exercises[1].variants.len(), 1);
    // a deleted exercise takes its variants with it
    delete_exercise(&mut store, "Bench Press").unwrap();
    assert!(store.exercises.iter().all(|e| e.variants.len() <= 1));
}
