use crate::records::SetRecord;
use crate::session::{ExerciseEntry, NumberedSet};
use vstd::prelude::*;

verus! {

/// One stored set of a workout as the store lists it: the exercise it
/// belongs to and the set.
#[derive(Clone, Copy, Debug, PartialEq, Eq, Structural)]
pub struct WorkoutRow {
    pub exercise_id: i32,
    pub set: SetRecord,
}

/// The exercises the rows name, each once, in the order in which they
/// first appear.
pub open spec fn exercises_in(rows: Seq<WorkoutRow>) -> Seq<i32>
    decreases rows.len(),
{
    if rows.len() == 0 {
        Seq::empty()
    } else {
        let front = exercises_in(rows.drop_last());
        if front.contains(rows.last().exercise_id) {
            front
        } else {
            front.push(rows.last().exercise_id)
        }
    }
}

/// The sets of one exercise among the rows, in the order of the rows.
pub open spec fn sets_of(rows: Seq<WorkoutRow>, exercise_id: i32) -> Seq<SetRecord>
    decreases rows.len(),
{
    if rows.len() == 0 {
        Seq::empty()
    } else {
        let front = sets_of(rows.drop_last(), exercise_id);
        if rows.last().exercise_id == exercise_id {
            front.push(rows.last().set)
        } else {
            front
        }
    }
}

/// The sets numbered from one in the order given.
pub open spec fn numbered_from_one(sets: Seq<SetRecord>) -> Seq<NumberedSet> {
    Seq::new(sets.len(), |j: int| NumberedSet { number: (j + 1) as i16, set: sets[j] })
}

/// `entries` lists the rows by exercise: one entry for each exercise the
/// rows name, in the order of first appearance, with that exercise's sets
/// in the order of the rows, numbered from one.
pub open spec fn is_grouping(rows: Seq<WorkoutRow>, entries: Seq<ExerciseEntry>) -> bool {
    &&& entries.len() == exercises_in(rows).len()
    &&& forall|k: int|
        0 <= k < entries.len() ==> {
            &&& (#[trigger] entries[k]).exercise_id == exercises_in(rows)[k]
            &&& entries[k].sets@ == numbered_from_one(sets_of(rows, entries[k].exercise_id))
        }
}

/// An exercise has no more sets than there are rows.
proof fn lemma_sets_of_len(rows: Seq<WorkoutRow>, exercise_id: i32)
    ensures
        sets_of(rows, exercise_id).len() <= rows.len(),
    decreases rows.len(),
{
    if rows.len() > 0 {
        lemma_sets_of_len(rows.drop_last(), exercise_id);
    }
}

/// Whether the identifier is among those listed.
fn lists(ids: &Vec<i32>, id: i32) -> (found: bool)
    ensures
        found == ids@.contains(id),
{
    let mut i: usize = 0;
    while i < ids.len()
        invariant
            i <= ids.len(),
            forall|j: int| 0 <= j < i ==> ids@[j] != id,
        decreases ids.len() - i,
    {
        if ids[i] == id {
            return true;
        }
        i += 1;
    }
    false
}

/// The sets of one exercise among the rows, numbered from one.
fn numbered_sets_of(rows: &Vec<WorkoutRow>, exercise_id: i32) -> (sets: Vec<NumberedSet>)
    requires
        rows@.len() <= i16::MAX,
    ensures
        sets@ == numbered_from_one(sets_of(rows@, exercise_id)),
{
    let mut sets: Vec<NumberedSet> = Vec::new();
    let mut j: usize = 0;
    proof {
        assert(rows@.take(0) =~= Seq::<WorkoutRow>::empty());
        assert(sets@ =~= numbered_from_one(sets_of(rows@.take(0), exercise_id)));
    }
    while j < rows.len()
        invariant
            j <= rows.len(),
            rows@.len() <= i16::MAX,
            sets@ == numbered_from_one(sets_of(rows@.take(j as int), exercise_id)),
        decreases rows.len() - j,
    {
        proof {
            assert(rows@.take(j + 1).drop_last() =~= rows@.take(j as int));
            lemma_sets_of_len(rows@.take(j as int), exercise_id);
        }
        if rows[j].exercise_id == exercise_id {
            let number = (sets.len() + 1) as i16;
            sets.push(NumberedSet { number, set: rows[j].set });
            assert(sets@ =~= numbered_from_one(sets_of(rows@.take(j + 1), exercise_id)));
        }
        j += 1;
    }
    proof {
        assert(rows@.take(rows.len() as int) =~= rows@);
    }
    sets
}

/// Lists the stored sets of a workout by exercise, the exercises in the
/// order in which the rows first name them, each with its sets in the
/// order of the rows and numbered from one.
pub fn group_rows(rows: &Vec<WorkoutRow>) -> (entries: Vec<ExerciseEntry>)
    requires
        rows@.len() <= i16::MAX,
    ensures
        is_grouping(rows@, entries@),
{
    let mut ids: Vec<i32> = Vec::new();
    let mut i: usize = 0;
    proof {
        assert(rows@.take(0) =~= Seq::<WorkoutRow>::empty());
    }
    while i < rows.len()
        invariant
            i <= rows.len(),
            ids@ == exercises_in(rows@.take(i as int)),
        decreases rows.len() - i,
    {
        proof {
            assert(rows@.take(i + 1).drop_last() =~= rows@.take(i as int));
        }
        if !lists(&ids, rows[i].exercise_id) {
            ids.push(rows[i].exercise_id);
        }
        i += 1;
    }
    proof {
        assert(rows@.take(rows.len() as int) =~= rows@);
    }
    let mut entries: Vec<ExerciseEntry> = Vec::new();
    let mut k: usize = 0;
    while k < ids.len()
        invariant
            k <= ids.len(),
            rows@.len() <= i16::MAX,
            ids@ == exercises_in(rows@),
            entries@.len() == k,
            forall|a: int|
                0 <= a < k ==> {
                    &&& (#[trigger] entries@[a]).exercise_id == ids@[a]
                    &&& entries@[a].sets@ == numbered_from_one(
                        sets_of(rows@, entries@[a].exercise_id),
                    )
                },
        decreases ids.len() - k,
    {
        let exercise_id = ids[k];
        let sets = numbered_sets_of(rows, exercise_id);
        entries.push(ExerciseEntry { exercise_id, sets });
        k += 1;
    }
    entries
}

} // verus!
