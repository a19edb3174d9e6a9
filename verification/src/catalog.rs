//! Lookups in the exercise catalog and in the training programs.

use crate::lookup::{index_position, lemma_position_from, position, position_from, unique_position};
use crate::models::{
    Block, BlockView, Exercise, ExerciseView, Program, ProgramExercise, ProgramExerciseView,
    ProgramView, StoreView,
};
use crate::refs::{Reference, ReferenceView};
use vstd::prelude::*;

verus! {

/// The names of the exercises, in the order of the catalog.
pub open spec fn exercise_names(exercises: Seq<ExerciseView>) -> Seq<Seq<char>> {
    Seq::new(exercises.len(), |i: int| exercises[i].name)
}

/// The identifiers of the exercises, in the order of the catalog.
pub open spec fn exercise_ids(exercises: Seq<ExerciseView>) -> Seq<u128> {
    Seq::new(exercises.len(), |i: int| exercises[i].id)
}

/// The names of the programs, in display order.
pub open spec fn program_names(programs: Seq<ProgramView>) -> Seq<Seq<char>> {
    Seq::new(programs.len(), |i: int| programs[i].name)
}

/// The names of the blocks of a program, in display order.
pub open spec fn block_names(blocks: Seq<BlockView>) -> Seq<Seq<char>> {
    Seq::new(blocks.len(), |i: int| blocks[i].name)
}

/// The identifiers of the blocks of a program, in display order.
pub open spec fn block_ids(blocks: Seq<BlockView>) -> Seq<u128> {
    Seq::new(blocks.len(), |i: int| blocks[i].id)
}

/// The exercises that the prescriptions of a block are for, in their order.
pub open spec fn prescribed_ids(prescriptions: Seq<ProgramExerciseView>) -> Seq<u128> {
    Seq::new(prescriptions.len(), |i: int| prescriptions[i].exercise_id)
}

/// The position that a reference names in a list with these names: an index
/// counts from one, a name has to occur exactly once.
pub open spec fn resolve(names: Seq<Seq<char>>, r: ReferenceView) -> Option<int> {
    match r {
        ReferenceView::Index(n) => index_position(names.len(), n as int),
        ReferenceView::Name(name) => unique_position(names, name),
    }
}

/// The position in the catalog of the exercise that a reference names.
pub open spec fn resolve_exercise(s: StoreView, r: ReferenceView) -> Option<int> {
    resolve(exercise_names(s.exercises), r)
}

/// The position of the program that a reference names.
pub open spec fn resolve_program(s: StoreView, r: ReferenceView) -> Option<int> {
    resolve(program_names(s.programs), r)
}

/// The position within a program of the block that a reference names.
pub open spec fn resolve_block(p: ProgramView, r: ReferenceView) -> Option<int> {
    resolve(block_names(p.blocks), r)
}

/// The position in the catalog of the first exercise with this identifier.
pub open spec fn exercise_with_id(exercises: Seq<ExerciseView>, id: u128) -> Option<int> {
    position(exercise_ids(exercises), id)
}

/// Where the block with this identifier stands: the position of the first
/// program at or after `i` that holds it, and its position in that program.
pub open spec fn locate_block_from(programs: Seq<ProgramView>, id: u128, i: int) -> Option<
    (int, int),
>
    decreases programs.len() - i,
{
    if i < 0 || i >= programs.len() {
        None
    } else {
        match position(block_ids(programs[i].blocks), id) {
            Some(b) => Some((i, b)),
            None => locate_block_from(programs, id, i + 1),
        }
    }
}

/// Where the block with this identifier stands.
pub open spec fn locate_block(programs: Seq<ProgramView>, id: u128) -> Option<(int, int)> {
    locate_block_from(programs, id, 0)
}

/// The position within a block of the prescription for an exercise.
pub open spec fn prescription_for(block: BlockView, exercise_id: u128) -> Option<int> {
    position(prescribed_ids(block.exercises), exercise_id)
}

/// What `resolve` finds lies within the list.
pub proof fn lemma_resolve_in_range(names: Seq<Seq<char>>, r: ReferenceView)
    ensures
        match resolve(names, r) {
            Some(p) => 0 <= p < names.len(),
            None => true,
        },
{
    match r {
        ReferenceView::Index(n) => {},
        ReferenceView::Name(name) => {
            lemma_position_from(names, name, 0);
        },
    }
}

/// The first position at or after `from` at which an exercise has this name.
fn exercise_named_from(exercises: &Vec<Exercise>, name: &String, from: usize) -> (r: Option<usize>)
    ensures
        match r {
            Some(p) => position_from(exercise_names(exercises.deep_view()), name@, from as int)
                == Some(p as int) && p < exercises.len(),
            None => position_from(exercise_names(exercises.deep_view()), name@, from as int)
                is None,
        },
{
    let ghost names = exercise_names(exercises.deep_view());
    let mut i: usize = from;
    while i < exercises.len()
        invariant
            from <= i,
            names == exercise_names(exercises.deep_view()),
            position_from(names, name@, from as int) == position_from(names, name@, i as int),
        decreases exercises.len() - i,
    {
        if exercises[i].name == *name {
            return Some(i);
        }
        i += 1;
    }
    None
}

fn program_named_from(programs: &Vec<Program>, name: &String, from: usize) -> (r: Option<usize>)
    ensures
        match r {
            Some(p) => position_from(program_names(programs.deep_view()), name@, from as int)
                == Some(p as int) && p < programs.len(),
            None => position_from(program_names(programs.deep_view()), name@, from as int) is None,
        },
{
    let ghost names = program_names(programs.deep_view());
    let mut i: usize = from;
    while i < programs.len()
        invariant
            from <= i,
            names == program_names(programs.deep_view()),
            position_from(names, name@, from as int) == position_from(names, name@, i as int),
        decreases programs.len() - i,
    {
        if programs[i].name == *name {
            return Some(i);
        }
        i += 1;
    }
    None
}

fn block_named_from(blocks: &Vec<Block>, name: &String, from: usize) -> (r: Option<usize>)
    ensures
        match r {
            Some(p) => position_from(block_names(blocks.deep_view()), name@, from as int) == Some(
                p as int,
            ) && p < blocks.len(),
            None => position_from(block_names(blocks.deep_view()), name@, from as int) is None,
        },
{
    let ghost names = block_names(blocks.deep_view());
    let mut i: usize = from;
    while i < blocks.len()
        invariant
            from <= i,
            names == block_names(blocks.deep_view()),
            position_from(names, name@, from as int) == position_from(names, name@, i as int),
        decreases blocks.len() - i,
    {
        if blocks[i].name == *name {
            return Some(i);
        }
        i += 1;
    }
    None
}

/// The position named by a 1-based index into a list of `len` items.
fn index_in(len: usize, n: i64) -> (r: Option<usize>)
    ensures
        match r {
            Some(p) => index_position(len as nat, n as int) == Some(p as int) && p < len,
            None => index_position(len as nat, n as int) is None,
        },
{
    if n >= 1 && (n as u64) <= (len as u64) {
        Some((n - 1) as usize)
    } else {
        None
    }
}

/// Finds the exercise of the catalog that a reference names.
pub fn find_exercise(exercises: &Vec<Exercise>, r: &Reference) -> (found: Option<usize>)
    ensures
        match found {
            Some(p) => resolve(exercise_names(exercises.deep_view()), r@) == Some(p as int) && p
                < exercises.len(),
            None => resolve(exercise_names(exercises.deep_view()), r@) is None,
        },
{
    match r {
        Reference::Index(n) => index_in(exercises.len(), *n),
        Reference::Name(name) => match exercise_named_from(exercises, name, 0) {
            Some(p) => match exercise_named_from(exercises, name, p + 1) {
                Some(_) => None,
                None => Some(p),
            },
            None => None,
        },
    }
}

/// Finds the program that a reference names.
pub fn find_program(programs: &Vec<Program>, r: &Reference) -> (found: Option<usize>)
    ensures
        match found {
            Some(p) => resolve(program_names(programs.deep_view()), r@) == Some(p as int) && p
                < programs.len(),
            None => resolve(program_names(programs.deep_view()), r@) is None,
        },
{
    match r {
        Reference::Index(n) => index_in(programs.len(), *n),
        Reference::Name(name) => match program_named_from(programs, name, 0) {
            Some(p) => match program_named_from(programs, name, p + 1) {
                Some(_) => None,
                None => Some(p),
            },
            None => None,
        },
    }
}

/// Finds the block of a program that a reference names.
pub fn find_block(blocks: &Vec<Block>, r: &Reference) -> (found: Option<usize>)
    ensures
        match found {
            Some(p) => resolve(block_names(blocks.deep_view()), r@) == Some(p as int) && p
                < blocks.len(),
            None => resolve(block_names(blocks.deep_view()), r@) is None,
        },
{
    match r {
        Reference::Index(n) => index_in(blocks.len(), *n),
        Reference::Name(name) => match block_named_from(blocks, name, 0) {
            Some(p) => match block_named_from(blocks, name, p + 1) {
                Some(_) => None,
                None => Some(p),
            },
            None => None,
        },
    }
}

/// Finds the first exercise of the catalog with this identifier.
pub fn find_exercise_by_id(exercises: &Vec<Exercise>, id: u128) -> (found: Option<usize>)
    ensures
        match found {
            Some(p) => exercise_with_id(exercises.deep_view(), id) == Some(p as int) && p
                < exercises.len(),
            None => exercise_with_id(exercises.deep_view(), id) is None,
        },
{
    let ghost ids = exercise_ids(exercises.deep_view());
    let mut i: usize = 0;
    while i < exercises.len()
        invariant
            ids == exercise_ids(exercises.deep_view()),
            position(ids, id) == position_from(ids, id, i as int),
        decreases exercises.len() - i,
    {
        if exercises[i].id == id {
            return Some(i);
        }
        i += 1;
    }
    None
}

fn block_with_id(blocks: &Vec<Block>, id: u128) -> (found: Option<usize>)
    ensures
        match found {
            Some(p) => position(block_ids(blocks.deep_view()), id) == Some(p as int) && p
                < blocks.len(),
            None => position(block_ids(blocks.deep_view()), id) is None,
        },
{
    let ghost ids = block_ids(blocks.deep_view());
    let mut i: usize = 0;
    while i < blocks.len()
        invariant
            ids == block_ids(blocks.deep_view()),
            position(ids, id) == position_from(ids, id, i as int),
        decreases blocks.len() - i,
    {
        if blocks[i].id == id {
            return Some(i);
        }
        i += 1;
    }
    None
}

/// Finds the program and the block in it with this identifier.
pub fn find_block_by_id(programs: &Vec<Program>, id: u128) -> (found: Option<(usize, usize)>)
    ensures
        match found {
            Some((p, b)) => locate_block(programs.deep_view(), id) == Some((p as int, b as int))
                && p < programs.len() && b < programs[p as int].blocks.len(),
            None => locate_block(programs.deep_view(), id) is None,
        },
{
    let mut i: usize = 0;
    while i < programs.len()
        invariant
            locate_block(programs.deep_view(), id) == locate_block_from(
                programs.deep_view(),
                id,
                i as int,
            ),
        decreases programs.len() - i,
    {
        match block_with_id(&programs[i].blocks, id) {
            Some(b) => {
                return Some((i, b));
            },
            None => {},
        }
        i += 1;
    }
    None
}

/// Finds the prescription of a block for an exercise.
pub fn find_prescription(prescriptions: &Vec<ProgramExercise>, exercise_id: u128) -> (found:
    Option<usize>)
    ensures
        match found {
            Some(p) => position(prescribed_ids(prescriptions.deep_view()), exercise_id) == Some(
                p as int,
            ) && p < prescriptions.len(),
            None => position(prescribed_ids(prescriptions.deep_view()), exercise_id) is None,
        },
{
    let ghost ids = prescribed_ids(prescriptions.deep_view());
    let mut i: usize = 0;
    while i < prescriptions.len()
        invariant
            ids == prescribed_ids(prescriptions.deep_view()),
            position(ids, exercise_id) == position_from(ids, exercise_id, i as int),
        decreases prescriptions.len() - i,
    {
        if prescriptions[i].exercise_id == exercise_id {
            return Some(i);
        }
        i += 1;
    }
    None
}

/// Finds the first exercise of the catalog with this name.
pub fn first_exercise_named(exercises: &Vec<Exercise>, name: &String) -> (found: Option<usize>)
    ensures
        match found {
            Some(p) => position(exercise_names(exercises.deep_view()), name@) == Some(p as int)
                && p < exercises.len(),
            None => position(exercise_names(exercises.deep_view()), name@) is None,
        },
{
    exercise_named_from(exercises, name, 0)
}

/// Finds the first program with this name.
pub fn first_program_named(programs: &Vec<Program>, name: &String) -> (found: Option<usize>)
    ensures
        match found {
            Some(p) => position(program_names(programs.deep_view()), name@) == Some(p as int) && p
                < programs.len(),
            None => position(program_names(programs.deep_view()), name@) is None,
        },
{
    program_named_from(programs, name, 0)
}

/// A located block lies within the programs and has the identifier.
pub proof fn lemma_locate_block(programs: Seq<ProgramView>, id: u128, i: int)
    requires
        0 <= i,
    ensures
        match locate_block_from(programs, id, i) {
            Some((p, b)) => i <= p < programs.len() && 0 <= b < programs[p].blocks.len()
                && programs[p].blocks[b].id == id,
            None => true,
        },
    decreases programs.len() - i,
{
    if i < programs.len() {
        lemma_position_from(block_ids(programs[i].blocks), id, 0);
        if position(block_ids(programs[i].blocks), id) is None {
            lemma_locate_block(programs, id, i + 1);
        }
    }
}

} // verus!
