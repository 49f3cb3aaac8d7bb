use crate::errors::StorageFault;
use crate::model::{find_workout, key_of, latest_record, raise_best, StoreState};
use crate::records::{LoggedSet, PersonalRecord, RecordMarks, RepsBest, SetRecord, WorkoutSession};
use vstd::prelude::*;

verus! {

/// An in-memory relational store: the routines that exist, the sessions,
/// the logged sets and the personal-record ledger in insertion order, and
/// one best-repetitions row per exercise and weight.
pub struct Store {
    routines: Vec<i32>,
    workouts: Vec<WorkoutSession>,
    sets: Vec<LoggedSet>,
    records: Vec<PersonalRecord>,
    bests: Vec<RepsBest>,
    next_workout_id: i32,
    next_set_id: i32,
    next_record_id: i32,
}

/// The rows as a map from their keys; of two rows under one key the later
/// one counts.
pub open spec fn bests_map(rows: Seq<RepsBest>) -> Map<(i32, i16), RepsBest>
    decreases rows.len(),
{
    if rows.len() == 0 {
        Map::empty()
    } else {
        bests_map(rows.drop_last()).insert(key_of(rows.last()), rows.last())
    }
}

/// No two rows share a key.
pub open spec fn distinct_keys(rows: Seq<RepsBest>) -> bool {
    forall|i: int, j: int|
        0 <= i < j < rows.len() ==> key_of(#[trigger] rows[i]) != key_of(#[trigger] rows[j])
}

/// The map holds exactly the keys of the rows, each row under its own key.
proof fn lemma_bests_map(rows: Seq<RepsBest>)
    ensures
        forall|k: (i32, i16)| #[trigger]
            bests_map(rows).contains_key(k) <==> exists|i: int|
                0 <= i < rows.len() && key_of(#[trigger] rows[i]) == k,
        forall|k: (i32, i16)| #[trigger]
            bests_map(rows).contains_key(k) ==> key_of(bests_map(rows)[k]) == k,
        distinct_keys(rows) ==> forall|i: int|
            0 <= i < rows.len() ==> bests_map(rows)[key_of(#[trigger] rows[i])] == rows[i],
    decreases rows.len(),
{
    if rows.len() > 0 {
        let front = rows.drop_last();
        lemma_bests_map(front);
        assert forall|k: (i32, i16)| #[trigger]
            bests_map(rows).contains_key(k) <==> exists|i: int|
                0 <= i < rows.len() && key_of(#[trigger] rows[i]) == k by {
            if bests_map(rows).contains_key(k) {
                if k == key_of(rows.last()) {
                    assert(key_of(rows[rows.len() - 1]) == k);
                } else {
                    assert(bests_map(front).contains_key(k));
                    let i = choose|i: int| 0 <= i < front.len() && key_of(#[trigger] front[i]) == k;
                    assert(key_of(rows[i]) == k);
                }
            }
            if exists|i: int| 0 <= i < rows.len() && key_of(#[trigger] rows[i]) == k {
                let i = choose|i: int| 0 <= i < rows.len() && key_of(#[trigger] rows[i]) == k;
                if i < rows.len() - 1 {
                    assert(key_of(front[i]) == k);
                    assert(bests_map(front).contains_key(k));
                }
            }
        }
        assert forall|k: (i32, i16)| #[trigger]
            bests_map(rows).contains_key(k) implies key_of(bests_map(rows)[k]) == k by {
            if k != key_of(rows.last()) {
                assert(bests_map(front).contains_key(k));
            }
        }
        if distinct_keys(rows) {
            assert(distinct_keys(front)) by {
                assert forall|i: int, j: int| 0 <= i < j < front.len() implies key_of(
                    #[trigger] front[i],
                ) != key_of(#[trigger] front[j]) by {
                    assert(front[i] == rows[i] && front[j] == rows[j]);
                }
            }
            assert forall|i: int| 0 <= i < rows.len() implies bests_map(rows)[key_of(
                #[trigger] rows[i],
            )] == rows[i] by {
                if i < rows.len() - 1 {
                    assert(front[i] == rows[i]);
                    assert(key_of(rows[i]) != key_of(rows[rows.len() - 1]));
                }
            }
        }
    }
}

/// Replacing the one row that holds a key is an insertion under that key.
proof fn lemma_bests_map_update(rows: Seq<RepsBest>, at: int, row: RepsBest)
    requires
        distinct_keys(rows),
        0 <= at < rows.len(),
        key_of(rows[at]) == key_of(row),
    ensures
        bests_map(rows.update(at, row)) == bests_map(rows).insert(key_of(row), row),
        distinct_keys(rows.update(at, row)),
    decreases rows.len(),
{
    let after = rows.update(at, row);
    let front = rows.drop_last();
    assert(distinct_keys(after)) by {
        assert forall|i: int, j: int| 0 <= i < j < after.len() implies key_of(
            #[trigger] after[i],
        ) != key_of(#[trigger] after[j]) by {
            assert(key_of(rows[i]) != key_of(rows[j]));
        }
    }
    if at == rows.len() - 1 {
        assert(after.drop_last() =~= front);
        assert(bests_map(after) =~= bests_map(rows).insert(key_of(row), row));
    } else {
        assert(distinct_keys(front)) by {
            assert forall|i: int, j: int| 0 <= i < j < front.len() implies key_of(
                #[trigger] front[i],
            ) != key_of(#[trigger] front[j]) by {
                assert(front[i] == rows[i] && front[j] == rows[j]);
            }
        }
        assert(front[at] == rows[at]);
        lemma_bests_map_update(front, at, row);
        assert(after.drop_last() =~= front.update(at, row));
        assert(key_of(rows[at]) != key_of(rows[rows.len() - 1]));
        assert(bests_map(after) =~= bests_map(rows).insert(key_of(row), row));
    }
}

/// A copy of the rows.
fn copy_rows<T: Copy>(rows: &Vec<T>) -> (copy: Vec<T>)
    ensures
        copy@ == rows@,
{
    let mut copy: Vec<T> = Vec::new();
    let mut i: usize = 0;
    while i < rows.len()
        invariant
            i <= rows.len(),
            copy@ == rows@.take(i as int),
        decreases rows.len() - i,
    {
        copy.push(rows[i]);
        assert(rows@.take(i + 1) =~= rows@.take(i as int).push(rows@[i as int]));
        i += 1;
    }
    assert(rows@.take(rows.len() as int) =~= rows@);
    copy
}

impl View for Store {
    type V = StoreState;

    closed spec fn view(&self) -> StoreState {
        StoreState {
            routines: self.routines@.to_set(),
            workouts: self.workouts@,
            sets: self.sets@,
            records: self.records@,
            bests: bests_map(self.bests@),
            next_workout_id: self.next_workout_id,
            next_set_id: self.next_set_id,
            next_record_id: self.next_record_id,
        }
    }
}

impl Store {
    /// The store's tables are well formed and hold one best per key.
    pub closed spec fn wf(&self) -> bool {
        &&& self@.wf()
        &&& distinct_keys(self.bests@)
    }

    /// What `wf` promises of the view.
    pub broadcast proof fn lemma_wf(&self)
        requires
            #[trigger] self.wf(),
        ensures
            self@.wf(),
    {
    }

    /// An empty store whose sequences start at one.
    pub fn new() -> (store: Store)
        ensures
            store.wf(),
            store@ == StoreState::fresh(1, 1, 1),
    {
        Store::with_sequences(1, 1, 1)
    }

    /// An empty store whose sequences start at the given values.
    pub fn with_sequences(next_workout_id: i32, next_set_id: i32, next_record_id: i32) -> (store:
        Store)
        ensures
            store.wf(),
            store@ == StoreState::fresh(next_workout_id, next_set_id, next_record_id),
    {
        let store = Store {
            routines: Vec::new(),
            workouts: Vec::new(),
            sets: Vec::new(),
            records: Vec::new(),
            bests: Vec::new(),
            next_workout_id,
            next_set_id,
            next_record_id,
        };
        proof {
            assert(store.routines@.to_set() =~= Set::<i32>::empty());
            assert(bests_map(store.bests@) =~= Map::<(i32, i16), RepsBest>::empty());
        }
        store
    }

    /// A copy of the whole store, to go back to when a later write fails.
    pub fn snapshot(&self) -> (copy: Store)
        ensures
            copy@ == self@,
            self.wf() ==> copy.wf(),
    {
        Store {
            routines: copy_rows(&self.routines),
            workouts: copy_rows(&self.workouts),
            sets: copy_rows(&self.sets),
            records: copy_rows(&self.records),
            bests: copy_rows(&self.bests),
            next_workout_id: self.next_workout_id,
            next_set_id: self.next_set_id,
            next_record_id: self.next_record_id,
        }
    }

    /// Whether a routine with this identifier exists.
    pub fn has_routine(&self, routine_id: i32) -> (found: bool)
        ensures
            found == self@.routines.contains(routine_id),
    {
        let mut i: usize = 0;
        while i < self.routines.len()
            invariant
                i <= self.routines.len(),
                forall|j: int| 0 <= j < i ==> self.routines@[j] != routine_id,
            decreases self.routines.len() - i,
        {
            if self.routines[i] == routine_id {
                assert(self.routines@.contains(routine_id));
                return true;
            }
            i += 1;
        }
        false
    }

    /// Makes a routine with this identifier exist.
    pub fn add_routine(&mut self, routine_id: i32)
        requires
            old(self).wf(),
        ensures
            final(self).wf(),
            final(self)@ == (StoreState {
                routines: old(self)@.routines.insert(routine_id),
                ..old(self)@
            }),
    {
        if !self.has_routine(routine_id) {
            self.routines.push(routine_id);
            proof {
                let before = old(self).routines@;
                assert forall|x: i32|
                    before.push(routine_id).contains(x) <==> before.to_set().insert(
                        routine_id,
                    ).contains(x) by {
                    if before.push(routine_id).contains(x) {
                        let i = choose|i: int|
                            0 <= i < before.push(routine_id).len() && before.push(routine_id)[i]
                                == x;
                        if i < before.len() {
                            assert(before[i] == x);
                        }
                    }
                    if before.contains(x) {
                        let i = choose|i: int| 0 <= i < before.len() && before[i] == x;
                        assert(before.push(routine_id)[i] == x);
                    }
                    if x == routine_id {
                        assert(before.push(routine_id)[before.len() as int] == x);
                    }
                }
                assert(self.routines@.to_set() =~= before.to_set().insert(routine_id));
            }
        } else {
            assert(self@.routines =~= old(self)@.routines.insert(routine_id));
        }
    }

    /// Makes no routine with this identifier exist.
    pub fn remove_routine(&mut self, routine_id: i32)
        requires
            old(self).wf(),
        ensures
            final(self).wf(),
            final(self)@ == (StoreState {
                routines: old(self)@.routines.remove(routine_id),
                ..old(self)@
            }),
    {
        let mut kept: Vec<i32> = Vec::new();
        let mut i: usize = 0;
        while i < self.routines.len()
            invariant
                i <= self.routines.len(),
                forall|x: i32|
                    kept@.contains(x) <==> x != routine_id && exists|j: int|
                        0 <= j < i && self.routines@[j] == x,
            decreases self.routines.len() - i,
        {
            let id = self.routines[i];
            let ghost before = kept@;
            if id != routine_id {
                kept.push(id);
            }
            proof {
                assert forall|x: i32|
                    kept@.contains(x) <==> x != routine_id && exists|j: int|
                        0 <= j < i + 1 && self.routines@[j] == x by {
                    if kept@.contains(x) {
                        let k = choose|k: int| 0 <= k < kept@.len() && kept@[k] == x;
                        if k < before.len() {
                            assert(before[k] == x);
                            assert(before.contains(x));
                            let j = choose|j: int| 0 <= j < i && self.routines@[j] == x;
                            assert(0 <= j < i + 1 && self.routines@[j] == x);
                        } else {
                            assert(self.routines@[i as int] == x);
                        }
                    }
                    if x != routine_id && exists|j: int|
                        0 <= j < i + 1 && self.routines@[j] == x {
                        let j = choose|j: int| 0 <= j < i + 1 && self.routines@[j] == x;
                        if j < i {
                            assert(before.contains(x));
                            let k = choose|k: int| 0 <= k < before.len() && before[k] == x;
                            assert(kept@[k] == x);
                        } else {
                            assert(kept@[kept@.len() - 1] == x);
                        }
                    }
                }
            }
            i += 1;
        }
        proof {
            let all = self.routines@;
            assert forall|x: i32| kept@.to_set().contains(x) <==> all.to_set().remove(
                routine_id,
            ).contains(x) by {
                if kept@.contains(x) {
                    let j = choose|j: int| 0 <= j < all.len() && all[j] == x;
                    assert(all.contains(x));
                }
                if all.contains(x) && x != routine_id {
                    let j = choose|j: int| 0 <= j < all.len() && all[j] == x;
                    assert(0 <= j < i && self.routines@[j] == x);
                }
            }
            assert(kept@.to_set() =~= all.to_set().remove(routine_id));
        }
        self.routines = kept;
    }

    /// The sessions in insertion order.
    pub fn workouts(&self) -> (rows: &Vec<WorkoutSession>)
        ensures
            rows@ == self@.workouts,
    {
        &self.workouts
    }

    /// The logged sets in insertion order.
    pub fn logged_sets(&self) -> (rows: &Vec<LoggedSet>)
        ensures
            rows@ == self@.sets,
    {
        &self.sets
    }

    /// The personal-record ledger in insertion order.
    pub fn records(&self) -> (rows: &Vec<PersonalRecord>)
        ensures
            rows@ == self@.records,
    {
        &self.records
    }

    /// The session with this identifier.
    pub fn find_workout(&self, workout_id: i32) -> (found: Option<WorkoutSession>)
        ensures
            found == self@.workout(workout_id),
    {
        let mut i: usize = self.workouts.len();
        assert(self.workouts@.take(i as int) =~= self.workouts@);
        while i > 0
            invariant
                i <= self.workouts.len(),
                find_workout(self.workouts@, workout_id) == find_workout(
                    self.workouts@.take(i as int),
                    workout_id,
                ),
            decreases i,
        {
            i -= 1;
            assert(self.workouts@.take(i + 1).drop_last() =~= self.workouts@.take(i as int));
            if self.workouts[i].id == workout_id {
                return Some(self.workouts[i]);
            }
        }
        None
    }

    /// Inserts a session row and hands out its identifier. A row needs both
    /// times; a missing one is refused, as is an exhausted sequence.
    pub fn insert_workout(
        &mut self,
        start: Option<i64>,
        end: Option<i64>,
        routine_id: Option<i32>,
    ) -> (r: Result<i32, StorageFault>)
        requires
            old(self).wf(),
        ensures
            final(self).wf(),
            match r {
                Ok(id) => start.is_some() && end.is_some() && old(self)@.next_workout_id < i32::MAX
                    && id == old(self)@.next_workout_id && final(self)@ == old(self)@.with_workout(
                    start.unwrap(),
                    end.unwrap(),
                    routine_id,
                ),
                Err(e) => final(self)@ == old(self)@ && old(self)@.workout_fault(start, end) == Some(e),
            },
    {
        match (start, end) {
            (Some(start), Some(end)) => {
                if self.next_workout_id == i32::MAX {
                    return Err(StorageFault::SequenceExhausted);
                }
                let id = self.next_workout_id;
                self.workouts.push(WorkoutSession { id, start, end, routine_id });
                self.next_workout_id = id + 1;
                assert(self@.sets == old(self)@.sets && self@.records == old(self)@.records
                    && self@.bests == old(self)@.bests);
                assert(old(self)@.wf());
                assert(self@.wf());
                Ok(id)
            },
            _ => Err(StorageFault::MissingTimestamp),
        }
    }

    /// Inserts a set for a workout and an exercise and hands out its
    /// identifier, unless the sequence is exhausted.
    pub fn insert_set(&mut self, workout_id: i32, exercise_id: i32, set: SetRecord) -> (r: Result<
        i32,
        StorageFault,
    >)
        requires
            old(self).wf(),
        ensures
            final(self).wf(),
            match r {
                Ok(id) => old(self)@.next_set_id < i32::MAX && id == old(self)@.next_set_id
                    && final(self)@ == old(self)@.with_set(workout_id, exercise_id, set),
                Err(e) => old(self)@.next_set_id == i32::MAX && e
                    == StorageFault::SequenceExhausted && final(self)@ == old(self)@,
            },
    {
        if self.next_set_id == i32::MAX {
            return Err(StorageFault::SequenceExhausted);
        }
        let id = self.next_set_id;
        self.sets.push(LoggedSet { id, workout_id, exercise_id, set });
        self.next_set_id = id + 1;
        assert(self@ == old(self)@.with_set(workout_id, exercise_id, set));
        assert(old(self)@.wf());
        assert(self@.wf());
        Ok(id)
    }

    /// The ledger row inserted last for the exercise: the latest by
    /// insertion, not the one with the highest marks.
    pub fn latest_record(&self, exercise_id: i32) -> (found: Option<PersonalRecord>)
        ensures
            found == latest_record(self@.records, exercise_id),
    {
        let mut i: usize = self.records.len();
        assert(self.records@.take(i as int) =~= self.records@);
        while i > 0
            invariant
                i <= self.records.len(),
                latest_record(self.records@, exercise_id) == latest_record(
                    self.records@.take(i as int),
                    exercise_id,
                ),
            decreases i,
        {
            i -= 1;
            assert(self.records@.take(i + 1).drop_last() =~= self.records@.take(i as int));
            if self.records[i].exercise_id == exercise_id {
                return Some(self.records[i]);
            }
        }
        None
    }

    /// Appends a row to the ledger and hands out its identifier, unless the
    /// sequence is exhausted. No row is ever changed or removed.
    pub fn append_record(&mut self, exercise_id: i32, workout_id: i32, marks: RecordMarks) -> (r:
        Result<i32, StorageFault>)
        requires
            old(self).wf(),
            marks.wf(),
        ensures
            final(self).wf(),
            match r {
                Ok(id) => old(self)@.next_record_id < i32::MAX && id == old(self)@.next_record_id
                    && final(self)@ == old(self)@.with_record(exercise_id, workout_id, marks),
                Err(e) => old(self)@.next_record_id == i32::MAX && e
                    == StorageFault::SequenceExhausted && final(self)@ == old(self)@,
            },
    {
        if self.next_record_id == i32::MAX {
            return Err(StorageFault::SequenceExhausted);
        }
        let id = self.next_record_id;
        self.records.push(PersonalRecord { id, exercise_id, workout_id, marks });
        self.next_record_id = id + 1;
        assert(self@ == old(self)@.with_record(exercise_id, workout_id, marks));
        assert(old(self)@.wf());
        assert(self@.wf());
        Ok(id)
    }

    /// Where the best for the key stands among the rows.
    fn best_index(&self, exercise_id: i32, weight: i16) -> (at: Option<usize>)
        ensures
            match at {
                Some(i) => i < self.bests@.len() && key_of(self.bests@[i as int]) == (
                    exercise_id,
                    weight,
                ),
                None => forall|j: int|
                    0 <= j < self.bests@.len() ==> key_of(#[trigger] self.bests@[j]) != (
                        exercise_id,
                        weight,
                    ),
            },
    {
        let mut i: usize = 0;
        while i < self.bests.len()
            invariant
                i <= self.bests.len(),
                forall|j: int|
                    0 <= j < i ==> key_of(#[trigger] self.bests@[j]) != (exercise_id, weight),
            decreases self.bests.len() - i,
        {
            if self.bests[i].exercise_id == exercise_id && self.bests[i].weight == weight {
                return Some(i);
            }
            i += 1;
        }
        None
    }

    /// The best stored for the exercise at the weight.
    pub fn best(&self, exercise_id: i32, weight: i16) -> (found: Option<RepsBest>)
        requires
            self.wf(),
        ensures
            found == self@.best(exercise_id, weight),
    {
        proof {
            lemma_bests_map(self.bests@);
        }
        match self.best_index(exercise_id, weight) {
            Some(i) => {
                assert(key_of(self.bests@[i as int]) == (exercise_id, weight));
                Some(self.bests[i])
            },
            None => None,
        }
    }

    /// Offers a best: it is stored where its key holds none or one with
    /// fewer repetitions, and dropped otherwise, so that a stored best never
    /// decreases.
    pub fn raise_best(&mut self, row: RepsBest)
        requires
            old(self).wf(),
        ensures
            final(self).wf(),
            final(self)@ == old(self)@.with_best(row),
    {
        proof {
            lemma_bests_map(self.bests@);
        }
        match self.best_index(row.exercise_id, row.weight) {
            Some(i) => {
                assert(key_of(self.bests@[i as int]) == key_of(row));
                if self.bests[i].highest_reps < row.highest_reps {
                    proof {
                        lemma_bests_map_update(self.bests@, i as int, row);
                    }
                    self.bests.set(i, row);
                }
            },
            None => {
                self.bests.push(row);
                proof {
                    let before = old(self).bests@;
                    assert(self.bests@.drop_last() =~= before);
                    assert forall|a: int, b: int| 0 <= a < b < self.bests@.len() implies key_of(
                        #[trigger] self.bests@[a],
                    ) != key_of(#[trigger] self.bests@[b]) by {
                        if b < before.len() {
                            assert(key_of(before[a]) != key_of(before[b]));
                        } else {
                            assert(key_of(before[a]) != key_of(row));
                        }
                    }
                }
            },
        }
        proof {
            lemma_bests_map(self.bests@);
            assert(self@.workouts == old(self)@.workouts && self@.sets == old(self)@.sets
                && self@.records == old(self)@.records);
            assert(old(self)@.wf());
            assert(self@.wf());
        }
    }
}

} // verus!
