//! What holds of the catalog and of the programs as the commands change them.

use crate::catalog::{exercise_names, prescribed_ids, prescription_for};
use crate::exercise::{create_exercise_spec, import_outcome, import_state, ImportOutcome};
use crate::exercise::{sorted_place_from, with_text};
use crate::laws::lemma_active_from;
use crate::lookup::{lemma_position_from, position};
use crate::models::{BlockView, ExerciseView, ProgramExerciseView, ProgramView, StoreView};
use crate::program::{
    block_place_from, block_prescriptions, import_names, import_program_spec, imported_blocks,
    program_place_from, BlockExerciseImportView, BlockImportView, ProgramImportView,
};
use crate::text::{lemma_less_asymmetric, lemma_less_then_not_greater, lemma_less_total, text_less};
use crate::transitions::{
    active_session, insertion_point_from, swap_spec, with_prescription, SWAPPED_ORDER_INDEX,
};
use crate::types::ExerciseDef;
use vstd::prelude::*;

verus! {

/// Whether no two exercises of the catalog have one name.
pub open spec fn names_distinct(catalog: Seq<ExerciseView>) -> bool {
    forall|i: int, j: int|
        0 <= i < j < catalog.len() ==> (#[trigger] catalog[i]).name != (#[trigger] catalog[j]).name
}

/// Whether a block prescribes no exercise twice.
pub open spec fn prescribes_once(block: BlockView) -> bool {
    forall|i: int, j: int|
        0 <= i < j < block.exercises.len() ==> (#[trigger] block.exercises[i]).exercise_id
            != (#[trigger] block.exercises[j]).exercise_id
}

/// The names of the catalog are still distinct after an exercise was added,
/// where they were before: an exercise is refused where the catalog holds
/// one of its name.
pub proof fn create_keeps_names_distinct(
    s: StoreView,
    name: Seq<char>,
    muscle: Seq<char>,
    description: Option<Seq<char>>,
    new_id: u128,
)
    requires
        names_distinct(s.exercises),
    ensures
        match create_exercise_spec(s, name, muscle, description, new_id) {
            Ok((after, _)) => names_distinct(after.exercises),
            Err(_) => true,
        },
{
    match create_exercise_spec(s, name, muscle, description, new_id) {
        Ok((after, _)) => {
            lemma_position_from(exercise_names(s.exercises), name, 0);
            assert forall|i: int, j: int| 0 <= i < j < after.exercises.len() implies
                (#[trigger] after.exercises[i]).name != (#[trigger] after.exercises[j]).name by {
                assert(after.exercises[i] == s.exercises[i]);
                if j < s.exercises.len() {
                    assert(after.exercises[j] == s.exercises[j]);
                } else {
                    assert(exercise_names(s.exercises)[i] == s.exercises[i].name);
                }
            }
        },
        Err(_) => {},
    }
}

/// The names of the catalog are still distinct after an import of exercises,
/// where they were before: an exercise whose name the catalog holds is passed
/// over.
pub proof fn import_keeps_names_distinct(
    s: StoreView,
    defs: Seq<ExerciseDef>,
    ids: Seq<u128>,
    n: int,
)
    requires
        names_distinct(s.exercises),
    ensures
        names_distinct(import_state(s, defs, ids, n).catalog),
    decreases n,
{
    if n > 0 {
        import_keeps_names_distinct(s, defs, ids, n - 1);
        let before = import_state(s, defs, ids, n - 1).catalog;
        let after = import_state(s, defs, ids, n).catalog;
        let def = defs[n - 1];
        if import_outcome(before, def) == ImportOutcome::Inserted {
            lemma_position_from(exercise_names(before), def.name@, 0);
            assert forall|i: int, j: int| 0 <= i < j < after.len() implies
                (#[trigger] after[i]).name != (#[trigger] after[j]).name by {
                assert(after[i] == before[i]);
                if j < before.len() {
                    assert(after[j] == before[j]);
                } else {
                    assert(exercise_names(before)[i] == before[i].name);
                }
            }
        }
    }
}

/// A block that prescribes no exercise twice still does so after it was made
/// to prescribe a set count for an exercise.
pub proof fn lemma_prescription_keeps_once(
    block: BlockView,
    exercise_id: u128,
    sets: u32,
    new_id: u128,
)
    requires
        prescribes_once(block),
    ensures
        prescribes_once(with_prescription(block, exercise_id, sets, new_id)),
{
    let after = with_prescription(block, exercise_id, sets, new_id);
    lemma_position_from(prescribed_ids(block.exercises), exercise_id, 0);
    match prescription_for(block, exercise_id) {
        Some(k) => {
            assert forall|i: int, j: int| 0 <= i < j < after.exercises.len() implies
                (#[trigger] after.exercises[i]).exercise_id
                    != (#[trigger] after.exercises[j]).exercise_id by {
                assert(after.exercises[i].exercise_id == block.exercises[i].exercise_id);
                assert(after.exercises[j].exercise_id == block.exercises[j].exercise_id);
            }
        },
        None => {
            let at = insertion_point_from(block.exercises, SWAPPED_ORDER_INDEX, 0);
            lemma_insertion_point(block, 0);
            assert forall|i: int, j: int| 0 <= i < j < after.exercises.len() implies
                (#[trigger] after.exercises[i]).exercise_id
                    != (#[trigger] after.exercises[j]).exercise_id by {
                let oi = if i < at {
                    i
                } else {
                    i - 1
                };
                let oj = if j < at {
                    j
                } else {
                    j - 1
                };
                if i == at {
                    assert(after.exercises[j] == block.exercises[oj]);
                    assert(prescribed_ids(block.exercises)[oj] == block.exercises[oj].exercise_id);
                } else if j == at {
                    assert(after.exercises[i] == block.exercises[oi]);
                    assert(prescribed_ids(block.exercises)[oi] == block.exercises[oi].exercise_id);
                } else {
                    assert(after.exercises[i] == block.exercises[oi]);
                    assert(after.exercises[j] == block.exercises[oj]);
                }
            }
        },
    }
}

proof fn lemma_insertion_point(block: BlockView, i: int)
    requires
        0 <= i <= block.exercises.len(),
    ensures
        i <= insertion_point_from(block.exercises, SWAPPED_ORDER_INDEX, i) <= block.exercises.len(),
    decreases block.exercises.len() - i,
{
    if i < block.exercises.len() && !(block.exercises[i].order_index > SWAPPED_ORDER_INDEX) {
        lemma_insertion_point(block, i + 1);
    }
}

/// After a swap every block still prescribes no exercise twice, where every
/// block did before: the prescription that the block has for the new exercise
/// is reused.
pub proof fn swap_keeps_prescribing_once(
    s: StoreView,
    exercise: usize,
    new_exercise: Seq<char>,
    new_id: u128,
)
    requires
        forall|p: int, b: int|
            0 <= p < s.programs.len() && 0 <= b < s.programs[p].blocks.len() ==> prescribes_once(
                #[trigger] s.programs[p].blocks[b],
            ),
    ensures
        match swap_spec(s, exercise, new_exercise, new_id) {
            Ok((after, _)) => forall|p: int, b: int|
                0 <= p < after.programs.len() && 0 <= b < after.programs[p].blocks.len()
                    ==> prescribes_once(#[trigger] after.programs[p].blocks[b]),
            Err(_) => true,
        },
{
    match swap_spec(s, exercise, new_exercise, new_id) {
        Ok((after, swapped)) => {
            lemma_active_from(s.sessions, 0);
            let a = active_session(s)->0;
            let at = crate::catalog::locate_block(s.programs, s.sessions[a].block_id)->0;
            crate::catalog::lemma_locate_block(s.programs, s.sessions[a].block_id, 0);
            let block = s.programs[at.0].blocks[at.1];
            assert(prescribes_once(block));
            lemma_prescription_keeps_once(
                block,
                swapped.new_exercise_id,
                swapped.sets,
                new_id,
            );
            assert forall|p: int, b: int|
                0 <= p < after.programs.len() && 0 <= b < after.programs[p].blocks.len() implies
                prescribes_once(#[trigger] after.programs[p].blocks[b]) by {
                if p == at.0 && b == at.1 {
                } else if p == at.0 {
                    assert(after.programs[p].blocks[b] == s.programs[p].blocks[b]);
                } else {
                    assert(after.programs[p] == s.programs[p]);
                    assert(prescribes_once(s.programs[p].blocks[b]));
                }
            }
        },
        Err(_) => {},
    }
}

/// Whether no two exercises of the catalog have one identifier.
pub open spec fn ids_distinct(catalog: Seq<ExerciseView>) -> bool {
    forall|i: int, j: int|
        0 <= i < j < catalog.len() ==> (#[trigger] catalog[i]).id != (#[trigger] catalog[j]).id
}

/// Whether a prescription stems from item `t` of a block of a program file:
/// it is for the first exercise of the catalog with the name of the item.
pub open spec fn stems_from(
    catalog: Seq<ExerciseView>,
    items: Seq<BlockExerciseImportView>,
    pe: ProgramExerciseView,
    t: int,
) -> bool {
    &&& 0 <= t < items.len()
    &&& position(import_names(items), items[t].name) == Some(t)
    &&& position(exercise_names(catalog), items[t].name) is Some
    &&& pe.exercise_id == catalog[position(exercise_names(catalog), items[t].name)->0].id
}

/// Whether a prescription stems from one of the first `n` items.
pub open spec fn has_source(
    catalog: Seq<ExerciseView>,
    items: Seq<BlockExerciseImportView>,
    pe: ProgramExerciseView,
    n: int,
) -> bool {
    exists|t: int| 0 <= t < n && #[trigger] stems_from(catalog, items, pe, t)
}

proof fn lemma_prescriptions_stem(
    catalog: Seq<ExerciseView>,
    items: Seq<BlockExerciseImportView>,
    ids: Seq<u128>,
    n: int,
)
    requires
        0 <= n <= items.len(),
    ensures
        forall|k: int|
            0 <= k < block_prescriptions(catalog, items, ids, n).len() ==> has_source(
                catalog,
                items,
                #[trigger] block_prescriptions(catalog, items, ids, n)[k],
                n,
            ),
    decreases n,
{
    if n > 0 {
        lemma_prescriptions_stem(catalog, items, ids, n - 1);
        let before = block_prescriptions(catalog, items, ids, n - 1);
        let after = block_prescriptions(catalog, items, ids, n);
        assert forall|k: int| 0 <= k < after.len() implies has_source(
            catalog,
            items,
            #[trigger] after[k],
            n,
        ) by {
            if k < before.len() {
                assert(after[k] == before[k]);
                assert(has_source(catalog, items, before[k], n - 1));
                let t = choose|t: int|
                    0 <= t < n - 1 && #[trigger] stems_from(catalog, items, before[k], t);
                assert(0 <= t < n && stems_from(catalog, items, after[k], t));
            } else {
                assert(stems_from(catalog, items, after[k], n - 1));
            }
        }
    }
}

/// A block that an import makes prescribes no exercise twice, where no two
/// exercises of the catalog have one identifier: an item whose exercise an
/// earlier item of the block names is passed over.
pub proof fn imported_block_prescribes_once(
    catalog: Seq<ExerciseView>,
    items: Seq<BlockExerciseImportView>,
    ids: Seq<u128>,
    n: int,
)
    requires
        ids_distinct(catalog),
        0 <= n <= items.len(),
    ensures
        forall|i: int, j: int|
            0 <= i < j < block_prescriptions(catalog, items, ids, n).len()
                ==> (#[trigger] block_prescriptions(catalog, items, ids, n)[i]).exercise_id
                != (#[trigger] block_prescriptions(catalog, items, ids, n)[j]).exercise_id,
    decreases n,
{
    if n > 0 {
        imported_block_prescribes_once(catalog, items, ids, n - 1);
        lemma_prescriptions_stem(catalog, items, ids, n - 1);
        let before = block_prescriptions(catalog, items, ids, n - 1);
        let after = block_prescriptions(catalog, items, ids, n);
        let names = exercise_names(catalog);
        let item = items[n - 1];
        assert forall|i: int, j: int| 0 <= i < j < after.len() implies
            (#[trigger] after[i]).exercise_id != (#[trigger] after[j]).exercise_id by {
            if j < before.len() {
                assert(after[i] == before[i] && after[j] == before[j]);
            } else {
                // the last prescription stems from the last item, the other from an earlier one
                assert(after[i] == before[i]);
                assert(has_source(catalog, items, before[i], n - 1));
                let t = choose|t: int|
                    0 <= t < n - 1 && #[trigger] stems_from(catalog, items, before[i], t);
                lemma_position_from(import_names(items), item.name, 0);
                assert(import_names(items)[t] == items[t].name);
                assert(items[t].name != item.name);
                lemma_position_from(names, item.name, 0);
                lemma_position_from(names, items[t].name, 0);
                let x = position(names, item.name)->0;
                let y = position(names, items[t].name)->0;
                assert(names[x] == item.name && names[y] == items[t].name);
                assert(x != y);
            }
        }
    }
}

proof fn lemma_block_place(blocks: Seq<BlockView>, name: Seq<char>, i: int)
    requires
        0 <= i <= blocks.len(),
    ensures
        i <= block_place_from(blocks, name, i) <= blocks.len(),
    decreases blocks.len() - i,
{
    if i < blocks.len() && !crate::text::text_less(name, blocks[i].name) {
        lemma_block_place(blocks, name, i + 1);
    }
}

/// Every block that an import makes prescribes no exercise twice, where no
/// two exercises of the catalog have one identifier.
pub proof fn imported_blocks_prescribe_once(
    catalog: Seq<ExerciseView>,
    blocks: Seq<BlockImportView>,
    block_ids: Seq<u128>,
    exercise_ids: Seq<Seq<u128>>,
    n: int,
)
    requires
        ids_distinct(catalog),
    ensures
        forall|k: int|
            0 <= k < imported_blocks(catalog, blocks, block_ids, exercise_ids, n).len()
                ==> prescribes_once(
                #[trigger] imported_blocks(catalog, blocks, block_ids, exercise_ids, n)[k],
            ),
    decreases n,
{
    if n > 0 {
        imported_blocks_prescribe_once(catalog, blocks, block_ids, exercise_ids, n - 1);
        let before = imported_blocks(catalog, blocks, block_ids, exercise_ids, n - 1);
        let after = imported_blocks(catalog, blocks, block_ids, exercise_ids, n);
        let b = blocks[n - 1];
        let at = block_place_from(before, b.name, 0);
        lemma_block_place(before, b.name, 0);
        imported_block_prescribes_once(
            catalog,
            b.exercises,
            exercise_ids[n - 1],
            b.exercises.len() as int,
        );
        assert forall|k: int| 0 <= k < after.len() implies prescribes_once(#[trigger] after[k]) by {
            if k < at {
                assert(after[k] == before[k]);
            } else if k > at {
                assert(after[k] == before[k - 1]);
            }
        }
    }
}

/// Whether the names stand in the order of the code points: none comes
/// before a name in front of it.
pub open spec fn names_in_order(names: Seq<Seq<char>>) -> bool {
    forall|i: int, j: int|
        0 <= i < j < names.len() ==> !text_less(#[trigger] names[j], #[trigger] names[i])
}

/// Whether the programs stand in the order of their names.
pub open spec fn programs_in_order(programs: Seq<ProgramView>) -> bool {
    names_in_order(crate::catalog::program_names(programs))
}

/// Whether the blocks stand in the order of their names.
pub open spec fn blocks_in_order(blocks: Seq<BlockView>) -> bool {
    names_in_order(crate::catalog::block_names(blocks))
}

/// The first position at or after `i` of a name that `name` comes before, or
/// the length.
pub open spec fn name_place_from(names: Seq<Seq<char>>, name: Seq<char>, i: int) -> int
    decreases names.len() - i,
{
    if i < 0 || i >= names.len() {
        names.len() as int
    } else if text_less(name, names[i]) {
        i
    } else {
        name_place_from(names, name, i + 1)
    }
}

proof fn lemma_name_place(names: Seq<Seq<char>>, name: Seq<char>, i: int)
    requires
        0 <= i <= names.len(),
    ensures
        i <= name_place_from(names, name, i) <= names.len(),
        forall|k: int| i <= k < name_place_from(names, name, i) ==> !text_less(name, names[k]),
        name_place_from(names, name, i) < names.len() ==> text_less(
            name,
            names[name_place_from(names, name, i)],
        ),
    decreases names.len() - i,
{
    if i < names.len() && !text_less(name, names[i]) {
        lemma_name_place(names, name, i + 1);
    }
}

/// Names in order are still in order with a name put behind the names that
/// it does not come before.
pub proof fn lemma_insert_in_order(names: Seq<Seq<char>>, name: Seq<char>)
    requires
        names_in_order(names),
    ensures
        names_in_order(names.insert(name_place_from(names, name, 0), name)),
{
    let at = name_place_from(names, name, 0);
    lemma_name_place(names, name, 0);
    let after = names.insert(at, name);
    assert forall|i: int, j: int| 0 <= i < j < after.len() implies !text_less(
        #[trigger] after[j],
        #[trigger] after[i],
    ) by {
        if j == at {
            assert(after[i] == names[i]);
        } else if i == at {
            // the name comes before the name at its place, and so before every later one
            assert(after[j] == names[j - 1]);
            if j - 1 > at {
                assert(!text_less(names[j - 1], names[at]));
                lemma_less_then_not_greater(name, names[at], names[j - 1], 0);
            }
            lemma_less_asymmetric(name, names[j - 1], 0);
        } else {
            let oi = if i < at {
                i
            } else {
                i - 1
            };
            let oj = if j < at {
                j
            } else {
                j - 1
            };
            assert(after[i] == names[oi] && after[j] == names[oj]);
        }
    }
}

proof fn lemma_program_place(programs: Seq<ProgramView>, name: Seq<char>, i: int)
    requires
        0 <= i,
    ensures
        program_place_from(programs, name, i) == name_place_from(
            crate::catalog::program_names(programs),
            name,
            i,
        ),
    decreases programs.len() - i,
{
    if i < programs.len() && !text_less(name, programs[i].name) {
        lemma_program_place(programs, name, i + 1);
    }
}

proof fn lemma_block_place_by_name(blocks: Seq<BlockView>, name: Seq<char>, i: int)
    requires
        0 <= i,
    ensures
        block_place_from(blocks, name, i) == name_place_from(
            crate::catalog::block_names(blocks),
            name,
            i,
        ),
    decreases blocks.len() - i,
{
    if i < blocks.len() && !text_less(name, blocks[i].name) {
        lemma_block_place_by_name(blocks, name, i + 1);
    }
}

/// The blocks that an import makes stand in the order of their names.
pub proof fn imported_blocks_in_order(
    catalog: Seq<ExerciseView>,
    blocks: Seq<BlockImportView>,
    block_ids: Seq<u128>,
    exercise_ids: Seq<Seq<u128>>,
    n: int,
)
    ensures
        blocks_in_order(imported_blocks(catalog, blocks, block_ids, exercise_ids, n)),
    decreases n,
{
    if n > 0 {
        imported_blocks_in_order(catalog, blocks, block_ids, exercise_ids, n - 1);
        let before = imported_blocks(catalog, blocks, block_ids, exercise_ids, n - 1);
        let after = imported_blocks(catalog, blocks, block_ids, exercise_ids, n);
        let name = blocks[n - 1].name;
        let names = crate::catalog::block_names(before);
        lemma_block_place_by_name(before, name, 0);
        lemma_name_place(names, name, 0);
        lemma_insert_in_order(names, name);
        assert(crate::catalog::block_names(after) =~= names.insert(
            name_place_from(names, name, 0),
            name,
        ));
    }
}

/// The programs still stand in the order of their names after an import,
/// where they did before: an index in a command means after the import what
/// the order of the names says.
pub proof fn import_keeps_programs_in_order(
    s: StoreView,
    file: ProgramImportView,
    program_id: u128,
    block_ids: Seq<u128>,
    exercise_ids: Seq<Seq<u128>>,
)
    requires
        programs_in_order(s.programs),
    ensures
        programs_in_order(
            import_program_spec(s, file, program_id, block_ids, exercise_ids).0.programs,
        ),
{
    let after = import_program_spec(s, file, program_id, block_ids, exercise_ids).0;
    let names = crate::catalog::program_names(s.programs);
    if after != s {
        match position(names, file.name) {
            Some(i) => {
                lemma_position_from(names, file.name, 0);
                assert(crate::catalog::program_names(after.programs) =~= names);
            },
            None => {
                lemma_program_place(s.programs, file.name, 0);
                lemma_name_place(names, file.name, 0);
                lemma_insert_in_order(names, file.name);
                assert(crate::catalog::program_names(after.programs) =~= names.insert(
                    name_place_from(names, file.name, 0),
                    file.name,
                ));
            },
        }
    }
}

/// Whether the texts rise in the order of the code points: each comes before
/// every text behind it, so that none occurs twice.
pub open spec fn texts_rise(list: Seq<Seq<char>>) -> bool {
    forall|i: int, j: int|
        0 <= i < j < list.len() ==> text_less(#[trigger] list[i], #[trigger] list[j])
}

proof fn lemma_sorted_place(list: Seq<Seq<char>>, text: Seq<char>, i: int)
    requires
        0 <= i <= list.len(),
    ensures
        i <= sorted_place_from(list, text, i) <= list.len(),
        forall|k: int| i <= k < sorted_place_from(list, text, i) ==> text_less(list[k], text),
        sorted_place_from(list, text, i) < list.len() ==> !text_less(
            list[sorted_place_from(list, text, i)],
            text,
        ),
    decreases list.len() - i,
{
    if i < list.len() && text_less(list[i], text) {
        lemma_sorted_place(list, text, i + 1);
    }
}

/// A list of rising texts still rises with a text put in: the text goes to
/// its place, and a text that the list holds is not put in again.
pub proof fn with_text_keeps_rising(list: Seq<Seq<char>>, text: Seq<char>)
    requires
        texts_rise(list),
    ensures
        texts_rise(with_text(list, text)),
        exists|k: int| 0 <= k < with_text(list, text).len() && with_text(list, text)[k] == text,
{
    let at = sorted_place_from(list, text, 0);
    lemma_sorted_place(list, text, 0);
    let after = with_text(list, text);
    if at < list.len() && list[at] == text {
        assert(after[at] == text);
    } else {
        assert(after[at] == text);
        assert forall|i: int, j: int| 0 <= i < j < after.len() implies text_less(
            #[trigger] after[i],
            #[trigger] after[j],
        ) by {
            if j == at {
                assert(after[i] == list[i]);
            } else if i == at {
                assert(after[j] == list[j - 1]);
                // the text at the place does not come before the text and is another text
                if !text_less(text, list[at]) {
                    lemma_less_total(text, list[at], 0);
                }
                if j - 1 > at {
                    lemma_less_asymmetric(list[at], list[j - 1], 0);
                    lemma_less_then_not_greater(text, list[at], list[j - 1], 0);
                }
            } else {
                let oi = if i < at {
                    i
                } else {
                    i - 1
                };
                let oj = if j < at {
                    j
                } else {
                    j - 1
                };
                assert(after[i] == list[oi] && after[j] == list[oj]);
            }
        }
    }
}

} // verus!
