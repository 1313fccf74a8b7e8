//! A bounded fan-out of independent tasks and the fan-in of their results.
//!
//! The library plans the tasks, says what each one waits for and yields, and
//! collects what the runtime reports of them, in the order of arrival. The
//! caller runs the tasks: it starts each one, lets it wait, and hands over
//! each outcome as the task is joined.

use crate::error::AppError;
use vstd::prelude::*;
use vstd::string::*;

verus! {

/// The most tasks that one request starts.
pub const MAX_TASKS: usize = 32;

/// The wait of the task with index 0, in milliseconds.
pub const BASE_MS: u64 = 50;

/// By how much the wait grows from one index to the next, in milliseconds.
pub const STEP_MS: u64 = 30;

/// What a task yields.
#[derive(Debug, Clone, Copy, PartialEq, Eq, Structural)]
pub struct ComputeResult {
    pub index: usize,
    pub value: usize,
    pub ms: u64,
}

/// One unit of work, known by its position among the tasks of a request.
#[derive(Debug, Clone, Copy)]
pub struct ComputeTask {
    index: usize,
}

/// What the runtime reports when it joins a task.
#[derive(Debug, Clone, Copy)]
pub enum TaskOutcome {
    /// The task ran to its end and yielded this.
    Completed(ComputeResult),
    /// The task did not run to its end.
    Aborted,
}

/// The number of tasks for a request that asks for `requested` of them.
pub open spec fn clamped(requested: usize) -> usize {
    if requested < MAX_TASKS {
        requested
    } else {
        MAX_TASKS
    }
}

/// The wait of the task with index `index`, in milliseconds.
pub open spec fn delay_for(index: nat) -> nat {
    BASE_MS as nat + index * STEP_MS as nat
}

/// What the task with index `index` yields: its index, the square of its
/// index, and its wait.
pub open spec fn result_for(index: nat) -> ComputeResult
    recommends
        index < MAX_TASKS,
{
    ComputeResult {
        index: index as usize,
        value: (index * index) as usize,
        ms: delay_for(index) as u64,
    }
}

/// The number of tasks for a request that asks for `requested` of them: no
/// more than [`MAX_TASKS`].
pub fn clamp_count(requested: usize) -> (count: usize)
    ensures
        count == clamped(requested),
        count <= MAX_TASKS,
        count <= requested,
{
    if requested < MAX_TASKS {
        requested
    } else {
        MAX_TASKS
    }
}

impl View for ComputeTask {
    type V = nat;

    /// The task's index.
    closed spec fn view(&self) -> nat {
        self.index as nat
    }
}

impl ComputeTask {
    #[verifier::type_invariant]
    spec fn in_bounds(self) -> bool {
        self.index < MAX_TASKS
    }

    /// The task's index.
    pub fn index(&self) -> (index: usize)
        ensures
            index == self@,
            index < MAX_TASKS,
    {
        proof {
            use_type_invariant(self);
        }
        self.index
    }

    /// How long the task waits before it yields, in milliseconds.
    pub fn delay_ms(&self) -> (ms: u64)
        ensures
            ms == delay_for(self@),
            ms == result_for(self@).ms,
    {
        proof {
            use_type_invariant(self);
        }
        let index: u64 = self.index as u64;
        BASE_MS + index * STEP_MS
    }

    /// What the task yields once it has waited.
    pub fn run(&self) -> (result: ComputeResult)
        ensures
            result == result_for(self@),
            result.index == self@,
            result.value == self@ * self@,
            result.ms == 50 + self@ * 30,
    {
        proof {
            use_type_invariant(self);
        }
        let index: usize = self.index;
        assert(index * index < 1024) by (nonlinear_arith)
            requires
                index < 32,
        ;
        ComputeResult { index, value: index * index, ms: self.delay_ms() }
    }
}

/// The tasks of a request that asks for `requested` of them: one for each
/// index below the clamped count, in the order of their indices.
pub fn plan(requested: usize) -> (tasks: Vec<ComputeTask>)
    ensures
        tasks@.len() == clamped(requested),
        forall|i: int| 0 <= i < tasks@.len() ==> (#[trigger] tasks@[i])@ == i,
{
    let count: usize = clamp_count(requested);
    let mut tasks: Vec<ComputeTask> = Vec::new();
    let mut index: usize = 0;
    while index < count
        invariant
            index <= count <= MAX_TASKS,
            tasks@.len() == index,
            forall|i: int| 0 <= i < tasks@.len() ==> (#[trigger] tasks@[i])@ == i,
        decreases count - index,
    {
        tasks.push(ComputeTask { index });
        index += 1;
    }
    tasks
}

/// The text of the fault that a request fails with when not every task yielded.
pub open spec fn incomplete_message() -> Seq<char> {
    "并发任务未能全部完成"@
}

/// What a fan-in knows at one moment.
pub struct FanInState {
    /// How many tasks were started.
    pub expected: nat,
    /// What the joined tasks yielded, in the order in which they were joined.
    pub arrived: Seq<ComputeResult>,
    /// Whether a joined task did not run to its end.
    pub aborted: bool,
}

impl FanInState {
    /// The state before any task is joined.
    pub open spec fn start(expected: nat) -> FanInState {
        FanInState { expected, arrived: Seq::empty(), aborted: false }
    }

    /// The state after one more task is joined with `outcome`.
    pub open spec fn join(self, outcome: TaskOutcome) -> FanInState {
        match outcome {
            TaskOutcome::Completed(result) => FanInState {
                arrived: self.arrived.push(result),
                ..self
            },
            TaskOutcome::Aborted => FanInState { aborted: true, ..self },
        }
    }

    /// The state after the tasks are joined with `outcomes`, one after the
    /// other.
    pub open spec fn join_all(self, outcomes: Seq<TaskOutcome>) -> FanInState
        decreases outcomes.len(),
    {
        if outcomes.len() == 0 {
            self
        } else {
            self.join_all(outcomes.drop_last()).join(outcomes.last())
        }
    }

    /// Whether every task that was started has yielded.
    pub open spec fn complete(self) -> bool {
        !self.aborted && self.arrived.len() == self.expected
    }
}

/// The fan-in of one request: it takes the outcome of each task as the task
/// is joined, and gives the results once no task is left.
#[derive(Debug)]
pub struct FanIn {
    expected: usize,
    arrived: Vec<ComputeResult>,
    aborted: bool,
}

impl View for FanIn {
    type V = FanInState;

    closed spec fn view(&self) -> FanInState {
        FanInState {
            expected: self.expected as nat,
            arrived: self.arrived@,
            aborted: self.aborted,
        }
    }
}

impl FanIn {
    /// The fan-in for `expected` tasks, none of them joined yet.
    pub fn new(expected: usize) -> (fan_in: FanIn)
        ensures
            fan_in@ == FanInState::start(expected as nat),
    {
        FanIn { expected, arrived: Vec::new(), aborted: false }
    }

    /// Takes the outcome of the task that was joined: a result is put behind
    /// those that arrived before it, and an aborted task is remembered.
    pub fn join(&mut self, outcome: TaskOutcome)
        ensures
            final(self)@ == old(self)@.join(outcome),
    {
        match outcome {
            TaskOutcome::Completed(result) => {
                self.arrived.push(result);
            },
            TaskOutcome::Aborted => {
                self.aborted = true;
            },
        }
    }

    /// How many results have arrived.
    pub fn arrived(&self) -> (count: usize)
        ensures
            count == self@.arrived.len(),
    {
        self.arrived.len()
    }

    /// Ends the fan-in when no task is left to join. Where every task
    /// yielded, the results come back in the order in which they arrived.
    /// Where a task was aborted, or the results are not as many as the tasks,
    /// the whole request fails as a fault of the server: no part of the
    /// results comes back.
    pub fn finish(self) -> (results: Result<Vec<ComputeResult>, AppError>)
        ensures
            match results {
                Ok(v) => self@.complete() && v@ == self@.arrived,
                Err(e) => !self@.complete() && e is Internal && e.spec_message()
                    == incomplete_message(),
            },
    {
        if !self.aborted && self.arrived.len() == self.expected {
            Ok(self.arrived)
        } else {
            Err(AppError::Internal(String::from_str("并发任务未能全部完成")))
        }
    }
}

/// The results among `outcomes`, in order.
pub open spec fn completed(outcomes: Seq<TaskOutcome>) -> Seq<ComputeResult>
    decreases outcomes.len(),
{
    if outcomes.len() == 0 {
        Seq::empty()
    } else {
        match outcomes.last() {
            TaskOutcome::Completed(result) => completed(outcomes.drop_last()).push(result),
            TaskOutcome::Aborted => completed(outcomes.drop_last()),
        }
    }
}

/// Whether one of `outcomes` is an aborted task.
pub open spec fn any_aborted(outcomes: Seq<TaskOutcome>) -> bool {
    exists|k: int| 0 <= k < outcomes.len() && outcomes[k] is Aborted
}

/// Whether `order` is an order in which `count` tasks can arrive: it has
/// `count` entries, each entry is the index of a task, and each task's index
/// is an entry.
pub open spec fn is_arrival_order(order: Seq<nat>, count: nat) -> bool {
    &&& order.len() == count
    &&& forall|k: int| 0 <= k < order.len() ==> #[trigger] order[k] < count
    &&& forall|i: nat| i < count ==> #[trigger] order.contains(i)
}

/// What the runtime reports when the tasks all run to their end and are
/// joined in the order `order`.
pub open spec fn yields(order: Seq<nat>) -> Seq<TaskOutcome> {
    Seq::new(order.len(), |k: int| TaskOutcome::Completed(result_for(order[k])))
}

/// Requests for [`MAX_TASKS`] tasks or more all get the same number of tasks.
pub proof fn lemma_requests_above_cap_agree(a: usize, b: usize)
    requires
        a >= MAX_TASKS,
        b >= MAX_TASKS,
    ensures
        clamped(a) == clamped(b),
        clamped(a) == MAX_TASKS,
{
}

/// Joining tasks one after the other keeps the number of tasks that were
/// started, puts the results of those that completed behind what had
/// arrived, unchanged and in the order of joining, and remembers whether
/// one was aborted.
pub proof fn lemma_join_all(state: FanInState, outcomes: Seq<TaskOutcome>)
    ensures
        state.join_all(outcomes).expected == state.expected,
        state.join_all(outcomes).arrived == state.arrived + completed(outcomes),
        state.join_all(outcomes).aborted == (state.aborted || any_aborted(outcomes)),
        completed(outcomes).len() <= outcomes.len(),
        !any_aborted(outcomes) ==> completed(outcomes).len() == outcomes.len(),
        any_aborted(outcomes) ==> completed(outcomes).len() < outcomes.len(),
    decreases outcomes.len(),
{
    if outcomes.len() == 0 {
        assert(state.arrived + completed(outcomes) =~= state.arrived);
    } else {
        let front = outcomes.drop_last();
        lemma_join_all(state, front);
        assert(any_aborted(outcomes) == (any_aborted(front) || outcomes.last() is Aborted)) by {
            if any_aborted(front) {
                let k = choose|k: int| 0 <= k < front.len() && front[k] is Aborted;
                assert(outcomes[k] is Aborted);
            }
            if outcomes.last() is Aborted {
                assert(outcomes[outcomes.len() - 1] is Aborted);
            }
            if any_aborted(outcomes) {
                let k = choose|k: int| 0 <= k < outcomes.len() && outcomes[k] is Aborted;
                if k < front.len() {
                    assert(front[k] is Aborted);
                }
            }
        }
        match outcomes.last() {
            TaskOutcome::Completed(result) => {
                assert(state.arrived + completed(outcomes) =~= (state.arrived + completed(
                    front,
                )).push(result));
            },
            TaskOutcome::Aborted => {},
        }
    }
}

/// No part of the results is given: a fan-in that starts empty is complete
/// after `outcomes` exactly when none of them is an aborted task and they
/// are as many as the tasks that were started. It then holds the result of
/// each outcome, in the order of joining.
pub proof fn lemma_complete_iff_all_yielded(expected: nat, outcomes: Seq<TaskOutcome>)
    ensures
        FanInState::start(expected).join_all(outcomes).complete() <==> (!any_aborted(outcomes)
            && outcomes.len() == expected),
        FanInState::start(expected).join_all(outcomes).arrived == completed(outcomes),
{
    lemma_join_all(FanInState::start(expected), outcomes);
    assert(Seq::<ComputeResult>::empty() + completed(outcomes) =~= completed(outcomes));
}

/// The results of tasks that all run to their end are those of `yields`, one
/// for one.
proof fn lemma_completed_yields(order: Seq<nat>)
    ensures
        !any_aborted(yields(order)),
        completed(yields(order)).len() == order.len(),
        forall|k: int|
            0 <= k < order.len() ==> #[trigger] completed(yields(order))[k] == result_for(
                order[k],
            ),
    decreases order.len(),
{
    if order.len() > 0 {
        let front = order.drop_last();
        lemma_completed_yields(front);
        assert(yields(order).drop_last() =~= yields(front));
    }
}

/// Whatever the order in which the tasks of a request arrive, where all of
/// them run to their end the fan-in is complete and holds as many results as
/// the clamped count; the result at each place is that of the task that
/// arrived at that place, with the square of its index and its wait; and a
/// result is held exactly when it is that of one of the request's tasks.
pub proof fn lemma_results_in_any_order(requested: usize, order: Seq<nat>)
    requires
        is_arrival_order(order, clamped(requested) as nat),
    ensures
        ({
            let end = FanInState::start(clamped(requested) as nat).join_all(yields(order));
            &&& end.complete()
            &&& end.arrived.len() == clamped(requested)
            &&& forall|k: int|
                0 <= k < end.arrived.len() ==> {
                    &&& #[trigger] end.arrived[k] == result_for(order[k])
                    &&& end.arrived[k].index == order[k]
                    &&& end.arrived[k].value == order[k] * order[k]
                    &&& end.arrived[k].ms == BASE_MS + order[k] * STEP_MS
                }
            &&& forall|r: ComputeResult|
                end.arrived.contains(r) <==> exists|i: nat|
                    i < clamped(requested) && r == #[trigger] result_for(i)
        }),
{
    let count = clamped(requested) as nat;
    let end = FanInState::start(count).join_all(yields(order));
    lemma_completed_yields(order);
    lemma_complete_iff_all_yielded(count, yields(order));
    assert forall|k: int| 0 <= k < end.arrived.len() implies {
        &&& #[trigger] end.arrived[k] == result_for(order[k])
        &&& end.arrived[k].index == order[k]
        &&& end.arrived[k].value == order[k] * order[k]
        &&& end.arrived[k].ms == BASE_MS + order[k] * STEP_MS
    } by {
        let i = order[k];
        assert(i < 32);
        assert(i * i < 1024) by (nonlinear_arith)
            requires
                i < 32,
        ;
    }
    assert forall|r: ComputeResult|
        end.arrived.contains(r) <==> exists|i: nat|
            i < clamped(requested) && r == #[trigger] result_for(i) by {
        if end.arrived.contains(r) {
            let k = choose|k: int| 0 <= k < end.arrived.len() && end.arrived[k] == r;
            assert(order[k] < count && r == result_for(order[k]));
        }
        if exists|i: nat| i < clamped(requested) && r == #[trigger] result_for(i) {
            let i = choose|i: nat| i < clamped(requested) && r == #[trigger] result_for(i);
            assert(order.contains(i));
            let k = choose|k: int| 0 <= k < order.len() && order[k] == i;
            assert(end.arrived[k] == r);
        }
    }
}

} // verus!
