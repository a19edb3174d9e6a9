//! The program store: importing, listing and deleting training programs.
//!
//! Programs stand in the store in the order of their names, and so do the
//! blocks within a program; a 1-based index in a command counts in that order.

use crate::catalog::{
    exercise_names, find_program, first_exercise_named, first_program_named, program_names, resolve,
};
use crate::error::Error;
use crate::ids::fresh_id;
use crate::lookup::{lemma_position_found, lemma_position_from, position, position_from};
use crate::models::{
    Block, BlockView, Exercise, ExerciseView, Program, ProgramExercise, ProgramExerciseView,
    ProgramView, Store, StoreView,
};
use crate::refs::{parse_reference, reference_of};
use crate::text::{clone_text, str_less, text_less};
use vstd::prelude::*;

verus! {

/// One prescription of a program file.
#[derive(Clone, Debug, PartialEq, Eq)]
pub struct BlockExerciseImport {
    /// The name of the exercise in the catalog.
    pub name: String,
    pub sets: u32,
    pub reps: Option<Vec<String>>,
    /// Tenths.
    pub target_rpe: Option<Vec<u32>>,
    /// Tenths of a percent.
    pub target_rm_percent: Option<Vec<u32>>,
    pub notes: Option<String>,
    /// Grams.
    pub program_1rm: Option<u32>,
    pub technique: Option<String>,
    pub group: Option<u32>,
}

/// The view of a [`BlockExerciseImport`].
#[verifier::ext_equal]
pub struct BlockExerciseImportView {
    pub name: Seq<char>,
    pub sets: u32,
    pub reps: Option<Seq<Seq<char>>>,
    pub target_rpe: Option<Seq<u32>>,
    pub target_rm_percent: Option<Seq<u32>>,
    pub notes: Option<Seq<char>>,
    pub program_1rm: Option<u32>,
    pub technique: Option<Seq<char>>,
    pub group: Option<u32>,
}

impl DeepView for BlockExerciseImport {
    type V = BlockExerciseImportView;

    open spec fn deep_view(&self) -> BlockExerciseImportView {
        BlockExerciseImportView {
            name: self.name@,
            sets: self.sets,
            reps: self.reps.deep_view(),
            target_rpe: match self.target_rpe {
                Some(v) => Some(v@),
                None => None,
            },
            target_rm_percent: match self.target_rm_percent {
                Some(v) => Some(v@),
                None => None,
            },
            notes: self.notes.deep_view(),
            program_1rm: self.program_1rm,
            technique: self.technique.deep_view(),
            group: self.group,
        }
    }
}

/// One block of a program file.
#[derive(Clone, Debug, PartialEq, Eq)]
pub struct BlockImport {
    pub name: String,
    pub description: Option<String>,
    pub exercises: Vec<BlockExerciseImport>,
}

/// The view of a [`BlockImport`].
#[verifier::ext_equal]
pub struct BlockImportView {
    pub name: Seq<char>,
    pub description: Option<Seq<char>>,
    pub exercises: Seq<BlockExerciseImportView>,
}

impl DeepView for BlockImport {
    type V = BlockImportView;

    open spec fn deep_view(&self) -> BlockImportView {
        BlockImportView {
            name: self.name@,
            description: self.description.deep_view(),
            exercises: self.exercises.deep_view(),
        }
    }
}

/// A program file.
#[derive(Clone, Debug, PartialEq, Eq)]
pub struct ProgramImport {
    pub name: String,
    pub description: Option<String>,
    pub blocks: Vec<BlockImport>,
}

/// The view of a [`ProgramImport`].
#[verifier::ext_equal]
pub struct ProgramImportView {
    pub name: Seq<char>,
    pub description: Option<Seq<char>>,
    pub blocks: Seq<BlockImportView>,
}

impl View for ProgramImport {
    type V = ProgramImportView;

    open spec fn view(&self) -> ProgramImportView {
        ProgramImportView {
            name: self.name@,
            description: self.description.deep_view(),
            blocks: self.blocks.deep_view(),
        }
    }
}

/// What an import of a program reports.
#[derive(Clone, Debug, PartialEq, Eq)]
pub enum ProgramImported {
    /// The program is in the store. `updated` tells whether a program of the
    /// name was there before and gave way.
    Imported { program_id: u128, updated: bool },
    /// Nothing was imported: the catalog lacks these exercises.
    MissingExercises(Vec<String>),
}

/// The view of a [`ProgramImported`].
pub enum ProgramImportedView {
    Imported { program_id: u128, updated: bool },
    MissingExercises(Seq<Seq<char>>),
}

impl View for ProgramImported {
    type V = ProgramImportedView;

    open spec fn view(&self) -> ProgramImportedView {
        match self {
            ProgramImported::Imported { program_id, updated } => ProgramImportedView::Imported {
                program_id: *program_id,
                updated: *updated,
            },
            ProgramImported::MissingExercises(names) => ProgramImportedView::MissingExercises(
                names.deep_view(),
            ),
        }
    }
}

/// One line of the list of programs.
#[derive(Clone, Debug, PartialEq, Eq)]
pub struct ProgramRow {
    /// The 1-based place of the program in display order.
    pub idx: usize,
    pub id: u128,
    pub name: String,
    pub description: Option<String>,
    /// The number of blocks.
    pub blocks: usize,
}

/// The view of a [`ProgramRow`].
#[verifier::ext_equal]
pub struct ProgramRowView {
    pub idx: usize,
    pub id: u128,
    pub name: Seq<char>,
    pub description: Option<Seq<char>>,
    pub blocks: usize,
}

impl DeepView for ProgramRow {
    type V = ProgramRowView;

    open spec fn deep_view(&self) -> ProgramRowView {
        ProgramRowView {
            idx: self.idx,
            id: self.id,
            name: self.name@,
            description: self.description.deep_view(),
            blocks: self.blocks,
        }
    }
}

/// The names of the exercises that a block of a program file prescribes.
pub open spec fn import_names(items: Seq<BlockExerciseImportView>) -> Seq<Seq<char>> {
    Seq::new(items.len(), |i: int| items[i].name)
}

/// Of the first `n` names of `wanted`, those that `known` lacks, each once,
/// added to `acc`.
pub open spec fn missing_names(
    known: Seq<Seq<char>>,
    wanted: Seq<Seq<char>>,
    n: int,
    acc: Seq<Seq<char>>,
) -> Seq<Seq<char>>
    decreases n,
{
    if n <= 0 {
        acc
    } else {
        let before = missing_names(known, wanted, n - 1, acc);
        let name = wanted[n - 1];
        if position(known, name) is None && position(before, name) is None {
            before.push(name)
        } else {
            before
        }
    }
}

/// The exercises that the first `n` blocks of a program file prescribe and
/// the catalog lacks, each once, in the order of the file.
pub open spec fn missing_exercises(
    catalog: Seq<ExerciseView>,
    blocks: Seq<BlockImportView>,
    n: int,
) -> Seq<Seq<char>>
    decreases n,
{
    if n <= 0 {
        Seq::empty()
    } else {
        missing_names(
            exercise_names(catalog),
            import_names(blocks[n - 1].exercises),
            blocks[n - 1].exercises.len() as int,
            missing_exercises(catalog, blocks, n - 1),
        )
    }
}

/// The list, or the empty list where there is none.
pub open spec fn or_empty<T>(list: Option<Seq<T>>) -> Seq<T> {
    match list {
        Some(l) => l,
        None => Seq::empty(),
    }
}

/// The prescription that an item of a program file becomes.
pub open spec fn prescription_of_import(
    item: BlockExerciseImportView,
    id: u128,
    exercise_id: u128,
    order_index: u32,
) -> ProgramExerciseView {
    ProgramExerciseView {
        id,
        exercise_id,
        sets: item.sets,
        reps: or_empty(item.reps),
        target_rpe: or_empty(item.target_rpe),
        target_rm_percent: or_empty(item.target_rm_percent),
        notes: item.notes,
        program_1rm: item.program_1rm,
        technique: item.technique,
        technique_group: item.group,
        order_index,
    }
}

/// The prescriptions that the first `n` items of a block of a program file
/// become: an item whose exercise an earlier item of the block names is
/// passed over, as is one whose exercise the catalog lacks; every other item
/// becomes a prescription with its place in the file as order index.
pub open spec fn block_prescriptions(
    catalog: Seq<ExerciseView>,
    items: Seq<BlockExerciseImportView>,
    ids: Seq<u128>,
    n: int,
) -> Seq<ProgramExerciseView>
    decreases n,
{
    if n <= 0 {
        Seq::empty()
    } else {
        let before = block_prescriptions(catalog, items, ids, n - 1);
        let item = items[n - 1];
        if position(import_names(items), item.name) == Some(n - 1) {
            match position(exercise_names(catalog), item.name) {
                Some(x) => before.push(
                    prescription_of_import(item, ids[n - 1], catalog[x].id, (n - 1) as u32),
                ),
                None => before,
            }
        } else {
            before
        }
    }
}

/// Where a block of this name goes among blocks in the order of their names:
/// the first position at or after `i` of a block with a later name, or the
/// length.
pub open spec fn block_place_from(blocks: Seq<BlockView>, name: Seq<char>, i: int) -> int
    decreases blocks.len() - i,
{
    if i < 0 || i >= blocks.len() {
        blocks.len() as int
    } else if text_less(name, blocks[i].name) {
        i
    } else {
        block_place_from(blocks, name, i + 1)
    }
}

/// Where a program of this name goes among programs in the order of their
/// names.
pub open spec fn program_place_from(programs: Seq<ProgramView>, name: Seq<char>, i: int) -> int
    decreases programs.len() - i,
{
    if i < 0 || i >= programs.len() {
        programs.len() as int
    } else if text_less(name, programs[i].name) {
        i
    } else {
        program_place_from(programs, name, i + 1)
    }
}

/// The blocks that the first `n` blocks of a program file become, in the
/// order of their names, blocks of one name in the order of the file.
pub open spec fn imported_blocks(
    catalog: Seq<ExerciseView>,
    blocks: Seq<BlockImportView>,
    block_ids: Seq<u128>,
    exercise_ids: Seq<Seq<u128>>,
    n: int,
) -> Seq<BlockView>
    decreases n,
{
    if n <= 0 {
        Seq::empty()
    } else {
        let before = imported_blocks(catalog, blocks, block_ids, exercise_ids, n - 1);
        let b = blocks[n - 1];
        before.insert(
            block_place_from(before, b.name, 0),
            BlockView {
                id: block_ids[n - 1],
                name: b.name,
                description: b.description,
                week: None,
                exercises: block_prescriptions(
                    catalog,
                    b.exercises,
                    exercise_ids[n - 1],
                    b.exercises.len() as int,
                ),
            },
        )
    }
}

/// Import: takes a program file into the store. Where the catalog lacks an
/// exercise that the file prescribes, nothing is imported. A program of the
/// same name keeps its identity and its place and gets the description and
/// the blocks of the file in place of its own; otherwise the program is new
/// and goes to its place in the order of the names.
pub open spec fn import_program_spec(
    s: StoreView,
    file: ProgramImportView,
    program_id: u128,
    block_ids: Seq<u128>,
    exercise_ids: Seq<Seq<u128>>,
) -> (StoreView, ProgramImportedView) {
    let missing = missing_exercises(s.exercises, file.blocks, file.blocks.len() as int);
    if missing.len() > 0 {
        (s, ProgramImportedView::MissingExercises(missing))
    } else {
        let blocks = imported_blocks(
            s.exercises,
            file.blocks,
            block_ids,
            exercise_ids,
            file.blocks.len() as int,
        );
        match position(program_names(s.programs), file.name) {
            Some(i) => (
                StoreView {
                    programs: s.programs.update(
                        i,
                        ProgramView { description: file.description, blocks, ..s.programs[i] },
                    ),
                    ..s
                },
                ProgramImportedView::Imported { program_id: s.programs[i].id, updated: true },
            ),
            None => (
                StoreView {
                    programs: s.programs.insert(
                        program_place_from(s.programs, file.name, 0),
                        ProgramView {
                            id: program_id,
                            name: file.name,
                            description: file.description,
                            blocks,
                        },
                    ),
                    ..s
                },
                ProgramImportedView::Imported { program_id, updated: false },
            ),
        }
    }
}

/// Whether the identifiers given to an import suffice: one for each block
/// and, for each block, one for each of its items.
pub open spec fn import_ids_suffice(
    file: ProgramImportView,
    block_ids: Seq<u128>,
    exercise_ids: Seq<Seq<u128>>,
) -> bool {
    &&& block_ids.len() >= file.blocks.len()
    &&& exercise_ids.len() >= file.blocks.len()
    &&& forall|b: int|
        0 <= b < file.blocks.len() ==> (#[trigger] exercise_ids[b]).len()
            >= file.blocks[b].exercises.len()
}

/// Delete: removes the program that the reference names, with its blocks. The
/// outcome is the name of the removed program.
pub open spec fn delete_program_spec(s: StoreView, program: Seq<char>) -> Result<
    (StoreView, Seq<char>),
    Error,
> {
    match resolve(program_names(s.programs), reference_of(program)) {
        None => Err(Error::ProgramNotFound),
        Some(p) => Ok((StoreView { programs: s.programs.remove(p), ..s }, s.programs[p].name)),
    }
}

/// The list of programs: one row for each program in display order.
pub open spec fn program_rows(programs: Seq<ProgramView>) -> Seq<ProgramRowView> {
    Seq::new(
        programs.len(),
        |i: int|
            ProgramRowView {
                idx: (i + 1) as usize,
                id: programs[i].id,
                name: programs[i].name,
                description: programs[i].description,
                blocks: programs[i].blocks.len() as usize,
            },
    )
}

fn clone_texts(list: &Option<Vec<String>>) -> (c: Vec<String>)
    ensures
        c.deep_view() == or_empty(list.deep_view()),
{
    let mut c: Vec<String> = Vec::new();
    match list {
        Some(list) => {
            let mut i: usize = 0;
            while i < list.len()
                invariant
                    i <= list.len(),
                    c.len() == i,
                    forall|j: int| 0 <= j < i ==> c.deep_view()[j] == list.deep_view()[j],
                decreases list.len() - i,
            {
                let ghost before = c.deep_view();
                c.push(list[i].clone());
                assert forall|j: int| 0 <= j < i implies
                    c.deep_view()[j] == list.deep_view()[j] by {
                    assert(c.deep_view()[j] == before[j]);
                }
                i += 1;
            }
            assert(c.deep_view() =~= list.deep_view());
        },
        None => {
            assert(c.deep_view() =~= Seq::<Seq<char>>::empty());
        },
    }
    c
}

fn clone_numbers(list: &Option<Vec<u32>>) -> (c: Vec<u32>)
    ensures
        c@ == or_empty(
            match list {
                Some(v) => Some(v@),
                None => None,
            },
        ),
{
    let mut c: Vec<u32> = Vec::new();
    match list {
        Some(list) => {
            let mut i: usize = 0;
            while i < list.len()
                invariant
                    i <= list.len(),
                    c.len() == i,
                    forall|j: int| 0 <= j < i ==> c@[j] == list@[j],
                decreases list.len() - i,
            {
                c.push(list[i]);
                i += 1;
            }
            assert(c@ =~= list@);
        },
        None => {
            assert(c@ =~= Seq::<u32>::empty());
        },
    }
    c
}

fn name_position(names: &Vec<String>, name: &String) -> (found: Option<usize>)
    ensures
        match found {
            Some(i) => position(names.deep_view(), name@) == Some(i as int) && i < names.len(),
            None => position(names.deep_view(), name@) is None,
        },
{
    let mut i: usize = 0;
    while i < names.len()
        invariant
            position(names.deep_view(), name@) == position_from(names.deep_view(), name@, i as int),
        decreases names.len() - i,
    {
        if names[i] == *name {
            return Some(i);
        }
        i += 1;
    }
    None
}

/// Adds to `missing` the exercises of a block of a program file that the
/// catalog lacks.
fn collect_missing(
    catalog: &Vec<Exercise>,
    items: &Vec<BlockExerciseImport>,
    missing: &mut Vec<String>,
)
    ensures
        final(missing).deep_view() == missing_names(
            exercise_names(catalog.deep_view()),
            import_names(items.deep_view()),
            items.len() as int,
            old(missing).deep_view(),
        ),
{
    let ghost known = exercise_names(catalog.deep_view());
    let ghost wanted = import_names(items.deep_view());
    let ghost acc = missing.deep_view();
    let mut n: usize = 0;
    while n < items.len()
        invariant
            n <= items.len(),
            known == exercise_names(catalog.deep_view()),
            wanted == import_names(items.deep_view()),
            missing.deep_view() == missing_names(known, wanted, n as int, acc),
        decreases items.len() - n,
    {
        let name = &items[n].name;
        assert(name@ == wanted[n as int]);
        if first_exercise_named(catalog, name).is_none() && name_position(missing, name).is_none() {
            let ghost before = missing.deep_view();
            missing.push(name.clone());
            assert(missing.deep_view() =~= before.push(name@));
        }
        n += 1;
    }
}

/// Whether item `i` of a block of a program file is the first of its name.
fn first_of_its_name(items: &Vec<BlockExerciseImport>, i: usize) -> (yes: bool)
    requires
        i < items.len(),
    ensures
        yes == (position(import_names(items.deep_view()), items.deep_view()[i as int].name)
            == Some(i as int)),
{
    let ghost names = import_names(items.deep_view());
    let mut j: usize = 0;
    while j < i
        invariant
            j <= i < items.len(),
            names == import_names(items.deep_view()),
            forall|k: int| 0 <= k < j ==> names[k] != names[i as int],
        decreases i - j,
    {
        if items[j].name == items[i].name {
            proof {
                lemma_position_from(names, names[i as int], 0);
                assert(names[j as int] == names[i as int]);
            }
            return false;
        }
        j += 1;
    }
    proof {
        lemma_position_found(names, names[i as int], 0, i as int);
    }
    true
}

/// The prescriptions that the items of a block of a program file become.
fn prescriptions_of(
    catalog: &Vec<Exercise>,
    items: &Vec<BlockExerciseImport>,
    ids: &Vec<u128>,
) -> (made: Vec<ProgramExercise>)
    requires
        ids.len() >= items.len(),
    ensures
        made.deep_view() == block_prescriptions(
            catalog.deep_view(),
            items.deep_view(),
            ids@,
            items.len() as int,
        ),
{
    let mut made: Vec<ProgramExercise> = Vec::new();
    let mut n: usize = 0;
    assert(made.deep_view() =~= Seq::<ProgramExerciseView>::empty());
    while n < items.len()
        invariant
            n <= items.len() <= ids.len(),
            made.deep_view() == block_prescriptions(
                catalog.deep_view(),
                items.deep_view(),
                ids@,
                n as int,
            ),
        decreases items.len() - n,
    {
        let item = &items[n];
        if first_of_its_name(items, n) {
            match first_exercise_named(catalog, &item.name) {
                Some(x) => {
                    let ghost before = made.deep_view();
                    let pe = ProgramExercise {
                        id: ids[n],
                        exercise_id: catalog[x].id,
                        sets: item.sets,
                        reps: clone_texts(&item.reps),
                        target_rpe: clone_numbers(&item.target_rpe),
                        target_rm_percent: clone_numbers(&item.target_rm_percent),
                        notes: clone_text(&item.notes),
                        program_1rm: item.program_1rm,
                        technique: clone_text(&item.technique),
                        technique_group: item.group,
                        order_index: #[verifier::truncate]
                        (n as u32),
                    };
                    assert(pe.deep_view() =~~= prescription_of_import(
                        items.deep_view()[n as int],
                        ids@[n as int],
                        catalog.deep_view()[x as int].id,
                        (n as int) as u32,
                    ));
                    made.push(pe);
                    assert(made.deep_view() =~= before.push(pe.deep_view()));
                },
                None => {},
            }
        }
        n += 1;
    }
    made
}

fn block_place(blocks: &Vec<Block>, name: &str) -> (at: usize)
    ensures
        at == block_place_from(blocks.deep_view(), name@, 0),
        at <= blocks.len(),
{
    let mut i: usize = 0;
    while i < blocks.len()
        invariant
            i <= blocks.len(),
            block_place_from(blocks.deep_view(), name@, 0) == block_place_from(
                blocks.deep_view(),
                name@,
                i as int,
            ),
        decreases blocks.len() - i,
    {
        if str_less(name, blocks[i].name.as_str()) {
            return i;
        }
        i += 1;
    }
    i
}

fn program_place(programs: &Vec<Program>, name: &str) -> (at: usize)
    ensures
        at == program_place_from(programs.deep_view(), name@, 0),
        at <= programs.len(),
{
    let mut i: usize = 0;
    while i < programs.len()
        invariant
            i <= programs.len(),
            program_place_from(programs.deep_view(), name@, 0) == program_place_from(
                programs.deep_view(),
                name@,
                i as int,
            ),
        decreases programs.len() - i,
    {
        if str_less(name, programs[i].name.as_str()) {
            return i;
        }
        i += 1;
    }
    i
}

/// The blocks that the blocks of a program file become.
fn blocks_of(
    catalog: &Vec<Exercise>,
    blocks: &Vec<BlockImport>,
    block_ids: &Vec<u128>,
    exercise_ids: &Vec<Vec<u128>>,
) -> (made: Vec<Block>)
    requires
        block_ids.len() >= blocks.len(),
        exercise_ids.len() >= blocks.len(),
        forall|b: int|
            0 <= b < blocks.len() ==> (#[trigger] exercise_ids[b]).len()
                >= blocks[b].exercises.len(),
    ensures
        made.deep_view() == imported_blocks(
            catalog.deep_view(),
            blocks.deep_view(),
            block_ids@,
            exercise_ids.deep_view(),
            blocks.len() as int,
        ),
{
    let mut made: Vec<Block> = Vec::new();
    assert(made.deep_view() =~= Seq::<BlockView>::empty());
    let mut n: usize = 0;
    while n < blocks.len()
        invariant
            n <= blocks.len(),
            block_ids.len() >= blocks.len(),
            exercise_ids.len() >= blocks.len(),
            forall|b: int|
                0 <= b < blocks.len() ==> (#[trigger] exercise_ids[b]).len()
                    >= blocks[b].exercises.len(),
            made.deep_view() == imported_blocks(
                catalog.deep_view(),
                blocks.deep_view(),
                block_ids@,
                exercise_ids.deep_view(),
                n as int,
            ),
        decreases blocks.len() - n,
    {
        let b = &blocks[n];
        let ghost before = made.deep_view();
        assert(exercise_ids[n as int].len() >= blocks[n as int].exercises.len());
        let exercises = prescriptions_of(catalog, &b.exercises, &exercise_ids[n]);
        assert(exercise_ids.deep_view()[n as int] == exercise_ids[n as int]@);
        let at = block_place(&made, b.name.as_str());
        let block = Block {
            id: block_ids[n],
            name: b.name.clone(),
            description: clone_text(&b.description),
            week: None,
            exercises,
        };
        let ghost view = block.deep_view();
        made.insert(at, block);
        assert(made.deep_view() =~= before.insert(at as int, view));
        n += 1;
    }
    made
}

/// The exercises that a program file prescribes and the catalog lacks.
fn missing_in(catalog: &Vec<Exercise>, blocks: &Vec<BlockImport>) -> (missing: Vec<String>)
    ensures
        missing.deep_view() == missing_exercises(
            catalog.deep_view(),
            blocks.deep_view(),
            blocks.len() as int,
        ),
{
    let mut missing: Vec<String> = Vec::new();
    assert(missing.deep_view() =~= Seq::<Seq<char>>::empty());
    let mut n: usize = 0;
    while n < blocks.len()
        invariant
            n <= blocks.len(),
            missing.deep_view() == missing_exercises(
                catalog.deep_view(),
                blocks.deep_view(),
                n as int,
            ),
        decreases blocks.len() - n,
    {
        collect_missing(catalog, &blocks[n].exercises, &mut missing);
        n += 1;
    }
    missing
}

/// Import with the identifiers given: takes a program file into the store.
/// `block_ids` holds an identifier for each block of the file and
/// `exercise_ids` for each block one for each of its items.
pub fn import_program_with_ids(
    store: &mut Store,
    file: &ProgramImport,
    program_id: u128,
    block_ids: &Vec<u128>,
    exercise_ids: &Vec<Vec<u128>>,
) -> (r: ProgramImported)
    requires
        import_ids_suffice(file@, block_ids@, exercise_ids.deep_view()),
    ensures
        r@ == import_program_spec(
            old(store)@,
            file@,
            program_id,
            block_ids@,
            exercise_ids.deep_view(),
        ).1,
        final(store)@ == import_program_spec(
            old(store)@,
            file@,
            program_id,
            block_ids@,
            exercise_ids.deep_view(),
        ).0,
{
    let missing = missing_in(&store.exercises, &file.blocks);
    if missing.len() > 0 {
        return ProgramImported::MissingExercises(missing);
    }
    assert forall|b: int| 0 <= b < file.blocks.len() implies (#[trigger] exercise_ids[b]).len()
        >= file.blocks[b].exercises.len() by {
        assert(exercise_ids.deep_view()[b] == exercise_ids[b]@);
        assert(file@.blocks[b].exercises.len() == file.blocks[b].exercises.len());
    }
    let blocks = blocks_of(&store.exercises, &file.blocks, block_ids, exercise_ids);
    match first_program_named(&store.programs, &file.name) {
        Some(i) => {
            store.programs[i].description = clone_text(&file.description);
            store.programs[i].blocks = blocks;
            assert(store@ =~~= import_program_spec(
                old(store)@,
                file@,
                program_id,
                block_ids@,
                exercise_ids.deep_view(),
            ).0);
            ProgramImported::Imported { program_id: store.programs[i].id, updated: true }
        },
        None => {
            let at = program_place(&store.programs, file.name.as_str());
            let program = Program {
                id: program_id,
                name: file.name.clone(),
                description: clone_text(&file.description),
                blocks,
            };
            let ghost view = program.deep_view();
            store.programs.insert(at, program);
            assert(store.programs.deep_view() =~= old(store).programs.deep_view().insert(
                at as int,
                view,
            ));
            assert(store@ =~~= import_program_spec(
                old(store)@,
                file@,
                program_id,
                block_ids@,
                exercise_ids.deep_view(),
            ).0);
            ProgramImported::Imported { program_id, updated: false }
        },
    }
}

/// Import: takes a program file into the store. Where the catalog lacks an
/// exercise that the file prescribes, nothing is imported and the lacking
/// exercises are reported. A program of the same name keeps its identity and
/// its place and gets the description and the blocks of the file in place of
/// its own; otherwise the program is new and goes to its place in the order
/// of the names. The blocks stand in the order of their names. Within a
/// block an exercise is prescribed once: an item whose exercise an earlier
/// item names is passed over. New rows get fresh random identifiers.
pub fn import_program(store: &mut Store, file: &ProgramImport) -> (r: ProgramImported)
    ensures
        exists|program_id: u128, block_ids: Seq<u128>, exercise_ids: Seq<Seq<u128>>|
            #![trigger import_program_spec(old(store)@, file@, program_id, block_ids, exercise_ids)]
            r@ == import_program_spec(old(store)@, file@, program_id, block_ids, exercise_ids).1
                && final(store)@ == import_program_spec(
                old(store)@,
                file@,
                program_id,
                block_ids,
                exercise_ids,
            ).0,
{
    let program_id = fresh_id();
    let mut block_ids: Vec<u128> = Vec::new();
    let mut exercise_ids: Vec<Vec<u128>> = Vec::new();
    let mut b: usize = 0;
    while b < file.blocks.len()
        invariant
            b <= file.blocks.len(),
            block_ids.len() == b,
            exercise_ids.len() == b,
            forall|k: int|
                0 <= k < b ==> (#[trigger] exercise_ids[k]).len() >= file.blocks[k].exercises.len(),
        decreases file.blocks.len() - b,
    {
        block_ids.push(fresh_id());
        let mut ids: Vec<u128> = Vec::new();
        while ids.len() < file.blocks[b].exercises.len()
            invariant
                b < file.blocks.len(),
            decreases file.blocks[b as int].exercises.len() - ids.len(),
        {
            ids.push(fresh_id());
        }
        exercise_ids.push(ids);
        b += 1;
    }
    assert forall|k: int| 0 <= k < file@.blocks.len() implies
        (#[trigger] exercise_ids.deep_view()[k]).len()
        >= file@.blocks[k].exercises.len() by {
        assert(exercise_ids.deep_view()[k] == exercise_ids[k]@);
        assert(file@.blocks[k].exercises.len() == file.blocks[k].exercises.len());
    }
    import_program_with_ids(store, file, program_id, &block_ids, &exercise_ids)
}

/// Delete: removes the program that `program` names, by 1-based index in
/// display order or exact name, with its blocks and their prescriptions, and
/// returns its name.
pub fn delete_program(store: &mut Store, program: &str) -> (r: Result<String, Error>)
    ensures
        match delete_program_spec(old(store)@, program@) {
            Ok((after, name)) => r is Ok && r->Ok_0@ == name && final(store)@ == after,
            Err(e) => r == Err::<String, Error>(e) && final(store)@ == old(store)@,
        },
{
    let reference = parse_reference(program);
    match find_program(&store.programs, &reference) {
        Some(p) => {
            let removed = store.programs.remove(p);
            assert(store@ =~~= delete_program_spec(old(store)@, program@)->Ok_0.0);
            Ok(removed.name)
        },
        None => Err(Error::ProgramNotFound),
    }
}

/// List: one row for each program, in display order, with the number of its
/// blocks.
pub fn list_programs(store: &Store) -> (rows: Vec<ProgramRow>)
    ensures
        rows.deep_view() == program_rows(store@.programs),
{
    let ghost want = program_rows(store@.programs);
    let mut rows: Vec<ProgramRow> = Vec::new();
    let mut i: usize = 0;
    while i < store.programs.len()
        invariant
            i <= store.programs.len(),
            rows.len() == i,
            want == program_rows(store@.programs),
            forall|j: int| 0 <= j < i ==> rows.deep_view()[j] == want[j],
        decreases store.programs.len() - i,
    {
        let ghost before = rows.deep_view();
        let p = &store.programs[i];
        rows.push(
            ProgramRow {
                idx: i + 1,
                id: p.id,
                name: p.name.clone(),
                description: clone_text(&p.description),
                blocks: p.blocks.len(),
            },
        );
        assert(rows.deep_view()[i as int] =~~= want[i as int]);
        assert forall|j: int| 0 <= j < i implies rows.deep_view()[j] == want[j] by {
            assert(rows.deep_view()[j] == before[j]);
        }
        i += 1;
    }
    assert(rows.deep_view() =~~= want);
    rows
}

} // verus!
