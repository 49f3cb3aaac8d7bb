use crate::errors::{EngineError, Missing, StorageFault};
use crate::evaluation::{best_to_store, evaluate, evaluation, raised_best, Evaluation};
use crate::model::{log_set, StoreState};
use crate::records::{RecordMarks, RepsBest, SetRecord, WorkoutSession};
use crate::session::{
    finish, log_plan, modify, plan_of, plan_workout, routine_to_check, routine_to_look_up,
    Submission, WorkoutData,
};
use vstd::prelude::*;

verus! {

/// What the store is asked to do next while a workout is saved. The last
/// two end the session: `Commit` keeps every write, `Abort` takes every
/// write back.
#[derive(Clone, Copy, Debug, PartialEq, Eq)]
pub enum Command {
    FindWorkout { workout_id: i32 },
    FindRoutine { routine_id: i32 },
    InsertWorkout { start: Option<i64>, end: Option<i64>, routine: Option<i32> },
    InsertSet { workout_id: i32, exercise_id: i32, set: SetRecord },
    ReadBests { exercise_id: i32, weight: i16 },
    AppendRecord { exercise_id: i32, workout_id: i32, marks: RecordMarks },
    RaiseBest { row: RepsBest },
    Commit { workout_id: i32 },
    Abort { error: EngineError },
}

/// What the store answers to a command.
#[derive(Clone, Copy, Debug, PartialEq, Eq)]
pub enum Reply {
    /// To `FindWorkout`: the session, if there is one.
    Workout(Option<WorkoutSession>),
    /// To `FindRoutine`: whether the routine exists.
    Routine(bool),
    /// To `InsertWorkout`, `InsertSet` and `AppendRecord`: the identifier of
    /// the new row.
    Inserted(i32),
    /// To `ReadBests`: the marks of the exercise's latest ledger row and the
    /// best stored for the exercise at the weight.
    Bests { latest: Option<RecordMarks>, best: Option<RepsBest> },
    /// To `RaiseBest`: the best was offered.
    Raised,
    /// To any command: the store refused.
    Failed(StorageFault),
}

/// Where a session stands between two commands.
#[derive(Clone, Copy, Debug, PartialEq, Eq)]
pub enum Stage {
    /// The workout to modify is being looked up.
    FindingWorkout,
    /// The routine the payload names is being looked up.
    FindingRoutine(i32),
    /// The session row is being inserted.
    OpeningSession,
    /// The set at the current position is being inserted.
    StoringSet,
    /// What the current set is measured against is being read.
    ReadingBests,
    /// The ledger row the current set is owed is being appended.
    AppendingRecord(RecordMarks),
    /// The best the current set raised is being offered.
    RaisingBest(RepsBest),
    /// Every set is written.
    Committed,
    /// The session failed.
    Aborted(EngineError),
}

/// A session between two commands, as contracts see it.
pub struct FlowState {
    /// The sets to write, in order.
    pub plan: Seq<Submission>,
    /// How many sets of the plan are written in full.
    pub position: nat,
    pub stage: Stage,
    /// Whether the session row is created rather than found.
    pub creating: bool,
    pub start: Option<i64>,
    pub end: Option<i64>,
    pub routine_id: Option<i32>,
    /// The workout the sets belong to, once it is known.
    pub workout_id: i32,
    /// What the current set improved, once that is known.
    pub found: Evaluation,
    /// The best stored for the current set's key before it was logged.
    pub prior: Option<RepsBest>,
}

impl FlowState {
    /// The position lies within the plan, and on a set where a set is
    /// being written.
    pub open spec fn wf(self) -> bool {
        &&& self.position <= self.plan.len()
        &&& (self.stage is StoringSet || self.stage is ReadingBests || self.stage is AppendingRecord
            || self.stage is RaisingBest) ==> self.position < self.plan.len()
        &&& (self.stage is FindingWorkout || self.stage is FindingRoutine || self.stage is OpeningSession)
            ==> self.position == 0
        &&& self.stage matches Stage::AppendingRecord(marks) ==> marks.wf()
    }

    /// The session is over.
    pub open spec fn is_over(self) -> bool {
        self.stage is Committed || self.stage is Aborted
    }

    /// The set that is being written.
    pub open spec fn current(self) -> Submission {
        self.plan[self.position as int]
    }

    /// The command the session waits to have answered.
    pub open spec fn command(self) -> Command {
        match self.stage {
            Stage::FindingWorkout => Command::FindWorkout { workout_id: self.workout_id },
            Stage::FindingRoutine(routine_id) => Command::FindRoutine { routine_id },
            Stage::OpeningSession => Command::InsertWorkout {
                start: self.start,
                end: self.end,
                routine: self.routine_id,
            },
            Stage::StoringSet => Command::InsertSet {
                workout_id: self.workout_id,
                exercise_id: self.current().exercise_id,
                set: self.current().set,
            },
            Stage::ReadingBests => Command::ReadBests {
                exercise_id: self.current().exercise_id,
                weight: self.current().set.weight,
            },
            Stage::AppendingRecord(marks) => Command::AppendRecord {
                exercise_id: self.current().exercise_id,
                workout_id: self.workout_id,
                marks,
            },
            Stage::RaisingBest(row) => Command::RaiseBest { row },
            Stage::Committed => Command::Commit { workout_id: self.workout_id },
            Stage::Aborted(error) => Command::Abort { error },
        }
    }

    /// The session with another stage.
    pub open spec fn at(self, stage: Stage) -> FlowState {
        FlowState { stage, ..self }
    }

    /// The session failed for this reason.
    pub open spec fn failed(self, error: EngineError) -> FlowState {
        self.at(Stage::Aborted(error))
    }

    /// The session about to write the set at its position, or done where
    /// the plan holds no further set.
    pub open spec fn at_next_set(self) -> FlowState {
        if self.position < self.plan.len() {
            self.at(Stage::StoringSet)
        } else {
            self.at(Stage::Committed)
        }
    }

    /// The session once the current set is written in full.
    pub open spec fn past_current(self) -> FlowState {
        (FlowState { position: self.position + 1, ..self }).at_next_set()
    }

    /// The session once the ledger row of the current set, if one was
    /// owed, is written: the raised best is offered next, if there is one.
    pub open spec fn past_record(self, created: Option<i32>) -> FlowState {
        match raised_best(
            self.found,
            self.current().exercise_id,
            self.current().set,
            created,
            self.prior,
        ) {
            Some(row) => self.at(Stage::RaisingBest(row)),
            None => self.past_current(),
        }
    }

    /// The session once it is known which workout the sets belong to and
    /// which session row, if any, was found for it: the routine is looked
    /// up where it must be, else the writes begin.
    pub open spec fn past_workout(self, session: Option<WorkoutSession>) -> FlowState {
        match routine_to_look_up(self.routine_id, session) {
            Some(routine_id) => self.at(Stage::FindingRoutine(routine_id)),
            None => self.past_routine(),
        }
    }

    /// The session once the routine is settled: the session row is
    /// inserted where one is created, else the sets are written.
    pub open spec fn past_routine(self) -> FlowState {
        if self.creating {
            self.at(Stage::OpeningSession)
        } else {
            self.at_next_set()
        }
    }

    /// The session after the store's reply to its command. A refusal ends
    /// the session with the store's fault, and so does a reply that belongs
    /// to another command.
    pub open spec fn step(self, reply: Reply) -> FlowState {
        match (self.stage, reply) {
            (Stage::Committed, _) => self,
            (Stage::Aborted(_), _) => self,
            (_, Reply::Failed(fault)) => self.failed(EngineError::Storage(fault)),
            (Stage::FindingWorkout, Reply::Workout(Some(session))) => self.past_workout(Some(session)),
            (Stage::FindingWorkout, Reply::Workout(None)) => self.failed(
                EngineError::NotFound(Missing::Workout),
            ),
            (Stage::FindingRoutine(_), Reply::Routine(true)) => self.past_routine(),
            (Stage::FindingRoutine(_), Reply::Routine(false)) => self.failed(
                EngineError::NotFound(Missing::Routine),
            ),
            (Stage::OpeningSession, Reply::Inserted(id)) => (FlowState {
                workout_id: id,
                ..self
            }).at_next_set(),
            (Stage::StoringSet, Reply::Inserted(_)) => self.at(Stage::ReadingBests),
            (Stage::ReadingBests, Reply::Bests { latest, best }) => match evaluation(
                self.current().set,
                latest,
                match best {
                    Some(row) => Some(row.highest_reps),
                    None => None,
                },
            ) {
                Err(e) => self.failed(EngineError::Validation(e)),
                Ok(found) => {
                    let known = FlowState { found, prior: best, ..self };
                    if found.adds_record() {
                        known.at(Stage::AppendingRecord(self.current().set.marks()))
                    } else {
                        known.past_record(None)
                    }
                },
            },
            (Stage::AppendingRecord(_), Reply::Inserted(id)) => self.past_record(Some(id)),
            (Stage::RaisingBest(_), Reply::Raised) => self.past_current(),
            _ => self.failed(EngineError::Storage(StorageFault::UnexpectedReply)),
        }
    }

    /// How many commands at most are still to come.
    pub open spec fn steps_left(self) -> nat {
        let sets_left = (self.plan.len() - self.position) as nat;
        match self.stage {
            Stage::FindingWorkout => 4 * sets_left + 4,
            Stage::FindingRoutine(_) => 4 * sets_left + 3,
            Stage::OpeningSession => 4 * sets_left + 2,
            Stage::StoringSet => 4 * sets_left + 1,
            Stage::ReadingBests => 4 * sets_left,
            Stage::AppendingRecord(_) => (4 * sets_left - 1) as nat,
            Stage::RaisingBest(_) => (4 * sets_left - 2) as nat,
            Stage::Committed => 0,
            Stage::Aborted(_) => 0,
        }
    }

    /// The session as it begins for a payload: refused at once where the
    /// payload is not valid; else the workout is looked up where one is
    /// modified, and the routine or the session row come first where one
    /// is created.
    pub open spec fn begin(data: WorkoutData, workout_id: Option<i32>) -> FlowState {
        let blank = FlowState {
            plan: Seq::empty(),
            position: 0,
            stage: Stage::Committed,
            creating: workout_id is None,
            start: data.start_time,
            end: data.end_time,
            routine_id: data.routine_id,
            workout_id: match workout_id {
                Some(id) => id,
                None => 0,
            },
            found: Evaluation {
                heaviest_weight: None,
                one_rep_max: None,
                set_volume: None,
                highest_reps: None,
            },
            prior: None,
        };
        match plan_of(data) {
            Err(e) => blank.failed(EngineError::Validation(e)),
            Ok(plan) => {
                let planned = FlowState { plan, ..blank };
                if workout_id is Some {
                    planned.at(Stage::FindingWorkout)
                } else {
                    planned.past_workout(None)
                }
            },
        }
    }
}

/// What a store does with a command and what it replies, where it works
/// as the in-memory store does. The two commands that end a session ask
/// nothing of it.
pub open spec fn performed(s: StoreState, command: Command) -> (StoreState, Reply) {
    match command {
        Command::FindWorkout { workout_id } => (s, Reply::Workout(s.workout(workout_id))),
        Command::FindRoutine { routine_id } => (s, Reply::Routine(s.routines.contains(routine_id))),
        Command::InsertWorkout { start, end, routine } => match s.workout_fault(start, end) {
            Some(fault) => (s, Reply::Failed(fault)),
            None => (
                s.with_workout(start.unwrap(), end.unwrap(), routine),
                Reply::Inserted(s.next_workout_id),
            ),
        },
        Command::InsertSet { workout_id, exercise_id, set } => if s.next_set_id == i32::MAX {
            (s, Reply::Failed(StorageFault::SequenceExhausted))
        } else {
            (s.with_set(workout_id, exercise_id, set), Reply::Inserted(s.next_set_id))
        },
        Command::ReadBests { exercise_id, weight } => (
            s,
            Reply::Bests { latest: s.latest_marks(exercise_id), best: s.best(exercise_id, weight) },
        ),
        Command::AppendRecord { exercise_id, workout_id, marks } => if s.next_record_id
            == i32::MAX {
            (s, Reply::Failed(StorageFault::SequenceExhausted))
        } else {
            (s.with_record(exercise_id, workout_id, marks), Reply::Inserted(s.next_record_id))
        },
        Command::RaiseBest { row } => (s.with_best(row), Reply::Raised),
        Command::Commit { .. } => (s, Reply::Raised),
        Command::Abort { .. } => (s, Reply::Raised),
    }
}

/// Each reply keeps the session well formed and, until the session is
/// over, brings it nearer its end.
pub proof fn lemma_step(state: FlowState, reply: Reply)
    requires
        state.wf(),
    ensures
        state.step(reply).wf(),
        state.step(reply).plan == state.plan,
        !state.is_over() ==> state.step(reply).steps_left() < state.steps_left(),
{
    if let (Stage::ReadingBests, Reply::Bests { latest, best }) = (state.stage, reply) {
        crate::metrics::OneRepMax::lemma_estimate(state.current().set.weight, state.current().set.reps);
    }
}

/// Where a session ends when a store that works as the in-memory store
/// does answers each of its commands: with the store as the writes left it
/// and the workout's identifier, or with the reason of the failure.
pub open spec fn outcome(state: FlowState, s: StoreState) -> Result<(StoreState, i32), EngineError>
    decreases state.steps_left(),
    when state.wf()
    via outcome_decreases
{
    match state.stage {
        Stage::Committed => Ok((s, state.workout_id)),
        Stage::Aborted(error) => Err(error),
        _ => {
            let done = performed(s, state.command());
            outcome(state.step(done.1), done.0)
        },
    }
}

#[via_fn]
proof fn outcome_decreases(state: FlowState, s: StoreState) {
    if !state.is_over() {
        lemma_step(state, performed(s, state.command()).1);
    }
}

/// The store after the submissions are logged one after another, told
/// from the first submission on.
pub open spec fn log_rest(s: StoreState, workout_id: i32, plan: Seq<Submission>) -> Result<
    StoreState,
    EngineError,
>
    decreases plan.len(),
{
    if plan.len() == 0 {
        Ok(s)
    } else {
        match log_set(s, workout_id, plan[0].exercise_id, plan[0].set) {
            Err(e) => Err(e),
            Ok(next) => log_rest(next, workout_id, plan.drop_first()),
        }
    }
}

/// Logging a plan from its first submission on and from its last one back
/// come to the same.
pub proof fn lemma_log_rest_is_log_plan(s: StoreState, workout_id: i32, plan: Seq<Submission>)
    ensures
        log_rest(s, workout_id, plan) == log_plan(s, workout_id, plan),
    decreases plan.len(),
{
    if plan.len() == 0 {
    } else if plan.len() == 1 {
        assert(plan.drop_last() =~= Seq::<Submission>::empty());
        assert(plan.drop_first() =~= Seq::<Submission>::empty());
        assert(log_plan(s, workout_id, plan.drop_last()) == Ok::<StoreState, EngineError>(s));
        match log_set(s, workout_id, plan[0].exercise_id, plan[0].set) {
            Err(e) => {},
            Ok(next) => {
                assert(log_rest(next, workout_id, plan.drop_first()) == Ok::<
                    StoreState,
                    EngineError,
                >(next));
            },
        }
    } else {
        let front = plan.drop_last();
        lemma_log_rest_is_log_plan(s, workout_id, front);
        assert(front[0] == plan[0]);
        match log_set(s, workout_id, plan[0].exercise_id, plan[0].set) {
            Err(e) => {},
            Ok(next) => {
                let tail = plan.drop_first();
                lemma_log_rest_is_log_plan(next, workout_id, tail);
                lemma_log_rest_is_log_plan(next, workout_id, front.drop_first());
                assert(tail.drop_last() =~= front.drop_first());
                assert(tail.last() == plan.last());
            },
        }
    }
}

/// The part of `outcome` that a finished plan of sets amounts to.
pub open spec fn with_workout_id(logged: Result<StoreState, EngineError>, workout_id: i32) -> Result<
    (StoreState, i32),
    EngineError,
> {
    match logged {
        Ok(s) => Ok((s, workout_id)),
        Err(e) => Err(e),
    }
}

/// From the moment a session turns to the set at its position, it ends as
/// logging the rest of its plan ends.
pub proof fn lemma_outcome_of_sets(state: FlowState, s: StoreState)
    requires
        state.wf(),
        state.position <= state.plan.len(),
    ensures
        outcome(state.at_next_set(), s) == with_workout_id(
            log_rest(s, state.workout_id, state.plan.skip(state.position as int)),
            state.workout_id,
        ),
    decreases state.plan.len() - state.position,
{
    let rest = state.plan.skip(state.position as int);
    let here = state.at_next_set();
    if state.position == state.plan.len() {
        assert(rest =~= Seq::<Submission>::empty());
    } else {
        let sub = state.current();
        let (e, set, w) = (sub.exercise_id, sub.set, state.workout_id);
        assert(rest[0] == sub);
        assert(rest.drop_first() =~= state.plan.skip((state.position + 1) as int));
        assert(here.stage is StoringSet);
        assert(here.current() == sub);
        let stored = performed(s, here.command());
        let reading = here.step(stored.1);
        lemma_step(here, stored.1);
        assert(outcome(here, s) == outcome(reading, stored.0));
        if s.next_set_id == i32::MAX {
            assert(reading.stage == Stage::Aborted(
                EngineError::Storage(StorageFault::SequenceExhausted),
            ));
        } else {
            let s1 = s.with_set(w, e, set);
            assert(stored.0 == s1);
            assert(reading.stage is ReadingBests);
            assert(reading.current() == sub);
            let read = performed(s1, reading.command());
            let judged = reading.step(read.1);
            lemma_step(reading, read.1);
            assert(outcome(reading, s1) == outcome(judged, s1));
            let latest = s1.latest_marks(e);
            let best = s1.best(e, set.weight);
            assert(read.1 == Reply::Bests { latest, best });
            match set.fault() {
                Some(fault) => {
                    assert(judged.stage == Stage::Aborted(EngineError::Validation(fault)));
                },
                None => {
                    let found = crate::evaluation::improvements(
                        set,
                        latest,
                        s1.best_reps(e, set.weight),
                    );
                    let known = FlowState { found, prior: best, ..reading };
                    if found.adds_record() {
                        assert(judged == known.at(Stage::AppendingRecord(set.marks())));
                        assert(judged.current() == sub);
                        let appended = performed(s1, judged.command());
                        let after_record = judged.step(appended.1);
                        lemma_step(judged, appended.1);
                        assert(outcome(judged, s1) == outcome(after_record, appended.0));
                        if s1.next_record_id == i32::MAX {
                            assert(after_record.stage == Stage::Aborted(
                                EngineError::Storage(StorageFault::SequenceExhausted),
                            ));
                        } else {
                            let s2 = s1.with_record(e, w, set.marks());
                            assert(appended.0 == s2);
                            assert(after_record == judged.past_record(Some(s1.next_record_id)));
                            lemma_outcome_past_record(
                                judged,
                                Some(s1.next_record_id),
                                s2,
                            );
                        }
                    } else {
                        assert(judged == known.past_record(None));
                        lemma_outcome_past_record(known, None, s1);
                    }
                },
            }
        }
    }
}

/// Once the ledger row of the current set is settled, the session ends as
/// offering the raised best, if there is one, and logging the sets after
/// the current one ends.
proof fn lemma_outcome_past_record(state: FlowState, created: Option<i32>, s: StoreState)
    requires
        state.wf(),
        state.position < state.plan.len(),
    ensures
        outcome(state.past_record(created), s) == with_workout_id(
            log_rest(
                match raised_best(
                    state.found,
                    state.current().exercise_id,
                    state.current().set,
                    created,
                    state.prior,
                ) {
                    Some(row) => s.with_best(row),
                    None => s,
                },
                state.workout_id,
                state.plan.skip((state.position + 1) as int),
            ),
            state.workout_id,
        ),
    decreases state.plan.len() - state.position, 0nat,
{
    let moved = FlowState { position: state.position + 1, ..state };
    match raised_best(
        state.found,
        state.current().exercise_id,
        state.current().set,
        created,
        state.prior,
    ) {
        Some(row) => {
            let raising = state.at(Stage::RaisingBest(row));
            let raised = performed(s, raising.command());
            lemma_step(raising, raised.1);
            assert(outcome(raising, s) == outcome(raising.step(raised.1), raised.0));
            assert(raising.step(raised.1) == moved.at_next_set());
            lemma_outcome_of_sets(moved.at(Stage::Committed), s.with_best(row));
            assert(moved.at(Stage::Committed).at_next_set() == moved.at_next_set());
        },
        None => {
            lemma_outcome_of_sets(moved.at(Stage::Committed), s);
            assert(moved.at(Stage::Committed).at_next_set() == moved.at_next_set());
        },
    }
}

/// A session that creates a workout ends as finishing the workout ends.
pub proof fn lemma_outcome_is_finish(data: WorkoutData, s: StoreState)
    ensures
        outcome(FlowState::begin(data, None), s) == finish(s, data),
{
    let begun = FlowState::begin(data, None);
    if let Ok(plan) = plan_of(data) {
        let opening = if let Some(routine_id) = routine_to_look_up(data.routine_id, None) {
            let finding = begun;
            assert(finding.stage == Stage::FindingRoutine(routine_id));
            let looked = performed(s, finding.command());
            lemma_step(finding, looked.1);
            assert(outcome(finding, s) == outcome(finding.step(looked.1), s));
            finding.step(looked.1)
        } else {
            begun
        };
        if opening.stage is OpeningSession {
            let inserted = performed(s, opening.command());
            let writing = opening.step(inserted.1);
            lemma_step(opening, inserted.1);
            assert(outcome(opening, s) == outcome(writing, inserted.0));
            if s.workout_fault(data.start_time, data.end_time) is None {
                let known = FlowState { workout_id: s.next_workout_id, ..opening };
                assert(writing == known.at_next_set());
                lemma_outcome_of_sets(known.at(Stage::Committed), inserted.0);
                assert(known.at(Stage::Committed).at_next_set() == known.at_next_set());
                assert(plan.skip(0) =~= plan);
                lemma_log_rest_is_log_plan(inserted.0, s.next_workout_id, plan);
            }
        }
    }
}

/// A session that modifies a workout ends as modifying the workout ends.
pub proof fn lemma_outcome_is_modify(data: WorkoutData, workout_id: i32, s: StoreState)
    ensures
        outcome(FlowState::begin(data, Some(workout_id)), s) == with_workout_id(
            modify(s, workout_id, data),
            workout_id,
        ),
{
    let begun = FlowState::begin(data, Some(workout_id));
    if let Ok(plan) = plan_of(data) {
        assert(begun.stage is FindingWorkout);
        let looked = performed(s, begun.command());
        let found = begun.step(looked.1);
        lemma_step(begun, looked.1);
        assert(outcome(begun, s) == outcome(found, s));
        if let Some(session) = s.workout(workout_id) {
            let writing = if let Some(routine_id) = routine_to_look_up(
                data.routine_id,
                Some(session),
            ) {
                assert(found.stage == Stage::FindingRoutine(routine_id));
                let checked = performed(s, found.command());
                lemma_step(found, checked.1);
                assert(outcome(found, s) == outcome(found.step(checked.1), s));
                found.step(checked.1)
            } else {
                found
            };
            if !(writing.stage is Aborted) {
                assert(writing == begun.at_next_set());
                lemma_outcome_of_sets(begun.at(Stage::Committed), s);
                assert(begun.at(Stage::Committed).at_next_set() == begun.at_next_set());
                assert(plan.skip(0) =~= plan);
                lemma_log_rest_is_log_plan(s, workout_id, plan);
            }
        }
    }
}

/// What a session holds besides its plan.
#[derive(Clone, Copy)]
struct Cursor {
    position: usize,
    stage: Stage,
    creating: bool,
    start: Option<i64>,
    end: Option<i64>,
    routine_id: Option<i32>,
    workout_id: i32,
    found: Evaluation,
    prior: Option<RepsBest>,
}

impl Cursor {
    spec fn over(self, plan: Seq<Submission>) -> FlowState {
        FlowState {
            plan,
            position: self.position as nat,
            stage: self.stage,
            creating: self.creating,
            start: self.start,
            end: self.end,
            routine_id: self.routine_id,
            workout_id: self.workout_id,
            found: self.found,
            prior: self.prior,
        }
    }

    fn failed(self, error: EngineError) -> (next: Cursor)
        ensures
            forall|plan: Seq<Submission>| #[trigger] next.over(plan) == self.over(plan).failed(error),
    {
        Cursor { stage: Stage::Aborted(error), ..self }
    }

    fn at_next_set(self, plan: &Vec<Submission>) -> (next: Cursor)
        ensures
            next.over(plan@) == self.over(plan@).at_next_set(),
    {
        if self.position < plan.len() {
            Cursor { stage: Stage::StoringSet, ..self }
        } else {
            Cursor { stage: Stage::Committed, ..self }
        }
    }

    fn past_current(self, plan: &Vec<Submission>) -> (next: Cursor)
        requires
            self.position < plan.len(),
        ensures
            next.over(plan@) == self.over(plan@).past_current(),
    {
        (Cursor { position: self.position + 1, ..self }).at_next_set(plan)
    }

    fn past_record(self, plan: &Vec<Submission>, created: Option<i32>) -> (next: Cursor)
        requires
            self.position < plan.len(),
        ensures
            next.over(plan@) == self.over(plan@).past_record(created),
    {
        let sub = plan[self.position];
        match best_to_store(&self.found, sub.exercise_id, &sub.set, created, self.prior) {
            Some(row) => Cursor { stage: Stage::RaisingBest(row), ..self },
            None => self.past_current(plan),
        }
    }

    fn past_workout(self, plan: &Vec<Submission>, session: Option<WorkoutSession>) -> (next: Cursor)
        ensures
            next.over(plan@) == self.over(plan@).past_workout(session),
    {
        match routine_to_check(self.routine_id, session) {
            Some(routine_id) => Cursor { stage: Stage::FindingRoutine(routine_id), ..self },
            None => self.past_routine(plan),
        }
    }

    fn past_routine(self, plan: &Vec<Submission>) -> (next: Cursor)
        ensures
            next.over(plan@) == self.over(plan@).past_routine(),
    {
        if self.creating {
            Cursor { stage: Stage::OpeningSession, ..self }
        } else {
            self.at_next_set(plan)
        }
    }

    fn step(self, plan: &Vec<Submission>, reply: Reply) -> (next: Cursor)
        requires
            self.over(plan@).wf(),
        ensures
            next.over(plan@) == self.over(plan@).step(reply),
    {
        match self.stage {
            Stage::Committed => {
                return self;
            },
            Stage::Aborted(_) => {
                return self;
            },
            _ => {},
        }
        if let Reply::Failed(fault) = reply {
            return self.failed(EngineError::Storage(fault));
        }
        match (self.stage, reply) {
            (Stage::FindingWorkout, Reply::Workout(Some(session))) => self.past_workout(
                plan,
                Some(session),
            ),
            (Stage::FindingWorkout, Reply::Workout(None)) => self.failed(
                EngineError::NotFound(Missing::Workout),
            ),
            (Stage::FindingRoutine(_), Reply::Routine(true)) => self.past_routine(plan),
            (Stage::FindingRoutine(_), Reply::Routine(false)) => self.failed(
                EngineError::NotFound(Missing::Routine),
            ),
            (Stage::OpeningSession, Reply::Inserted(id)) => (Cursor {
                workout_id: id,
                ..self
            }).at_next_set(plan),
            (Stage::StoringSet, Reply::Inserted(_)) => Cursor { stage: Stage::ReadingBests, ..self },
            (Stage::ReadingBests, Reply::Bests { latest, best }) => {
                let set = plan[self.position].set;
                let best_reps = match best {
                    Some(row) => Some(row.highest_reps),
                    None => None,
                };
                match evaluate(&set, latest, best_reps) {
                    Err(e) => self.failed(EngineError::Validation(e)),
                    Ok(found) => {
                        let known = Cursor { found, prior: best, ..self };
                        if found.owes_record() {
                            Cursor { stage: Stage::AppendingRecord(set.compute_marks()), ..known }
                        } else {
                            known.past_record(plan, None)
                        }
                    },
                }
            },
            (Stage::AppendingRecord(_), Reply::Inserted(id)) => self.past_record(plan, Some(id)),
            (Stage::RaisingBest(_), Reply::Raised) => self.past_current(plan),
            _ => self.failed(EngineError::Storage(StorageFault::UnexpectedReply)),
        }
    }
}

/// A workout on its way into a store: it names one command after another
/// and takes the store's reply to each, until it names `Commit` or
/// `Abort`. It touches no store itself, so that any store can serve it.
pub struct SessionFlow {
    plan: Vec<Submission>,
    cursor: Cursor,
}

impl View for SessionFlow {
    type V = FlowState;

    closed spec fn view(&self) -> FlowState {
        self.cursor.over(self.plan@)
    }
}

impl SessionFlow {
    #[verifier::type_invariant]
    spec fn well_formed(self) -> bool {
        self@.wf()
    }

    /// Begins a session for a payload: one that creates a workout, or one
    /// that modifies the workout with the given identifier. The payload is
    /// judged here, before any command is named.
    pub fn begin(data: &WorkoutData, workout_id: Option<i32>) -> (flow: SessionFlow)
        ensures
            flow@ == FlowState::begin(*data, workout_id),
            flow@.wf(),
    {
        let blank = Cursor {
            position: 0,
            stage: Stage::Committed,
            creating: workout_id.is_none(),
            start: data.start_time,
            end: data.end_time,
            routine_id: data.routine_id,
            workout_id: match workout_id {
                Some(id) => id,
                None => 0,
            },
            found: Evaluation {
                heaviest_weight: None,
                one_rep_max: None,
                set_volume: None,
                highest_reps: None,
            },
            prior: None,
        };
        match plan_workout(data) {
            Err(e) => SessionFlow {
                plan: Vec::new(),
                cursor: blank.failed(EngineError::Validation(e)),
            },
            Ok(plan) => {
                let cursor = if workout_id.is_some() {
                    Cursor { stage: Stage::FindingWorkout, ..blank }
                } else {
                    blank.past_workout(&plan, None)
                };
                SessionFlow { plan, cursor }
            },
        }
    }

    /// Whether the session is over: its command is `Commit` or `Abort`.
    pub fn is_over(&self) -> (over: bool)
        ensures
            over == self@.is_over(),
    {
        match self.cursor.stage {
            Stage::Committed => true,
            Stage::Aborted(_) => true,
            _ => false,
        }
    }

    /// The command the session waits to have answered.
    pub fn command(&self) -> (command: Command)
        ensures
            command == self@.command(),
            command matches Command::AppendRecord { marks, .. } ==> marks.wf(),
    {
        proof {
            use_type_invariant(self);
        }
        let at = self.cursor.position;
        match self.cursor.stage {
            Stage::FindingWorkout => Command::FindWorkout { workout_id: self.cursor.workout_id },
            Stage::FindingRoutine(routine_id) => Command::FindRoutine { routine_id },
            Stage::OpeningSession => Command::InsertWorkout {
                start: self.cursor.start,
                end: self.cursor.end,
                routine: self.cursor.routine_id,
            },
            Stage::StoringSet => Command::InsertSet {
                workout_id: self.cursor.workout_id,
                exercise_id: self.plan[at].exercise_id,
                set: self.plan[at].set,
            },
            Stage::ReadingBests => Command::ReadBests {
                exercise_id: self.plan[at].exercise_id,
                weight: self.plan[at].set.weight,
            },
            Stage::AppendingRecord(marks) => Command::AppendRecord {
                exercise_id: self.plan[at].exercise_id,
                workout_id: self.cursor.workout_id,
                marks,
            },
            Stage::RaisingBest(row) => Command::RaiseBest { row },
            Stage::Committed => Command::Commit { workout_id: self.cursor.workout_id },
            Stage::Aborted(error) => Command::Abort { error },
        }
    }

    /// Takes the store's reply to the command and moves on to the next
    /// one. A session that is over stays as it is.
    pub fn resume(&mut self, reply: Reply)
        ensures
            final(self)@ == old(self)@.step(reply),
            final(self)@.wf(),
    {
        proof {
            use_type_invariant(&*self);
            lemma_step(self@, reply);
        }
        let next = self.cursor.step(&self.plan, reply);
        self.cursor = next;
    }
}

} // verus!
