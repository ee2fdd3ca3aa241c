use vstd::prelude::*;
use vstd::string::*;

use crate::step_outputs::{string_eq_str, StepOutputs};

verus! {

/// A worker's result as plain values: its output, or its error message.
pub open spec fn result_view(r: Result<String, String>) -> Result<Seq<char>, Seq<char>> {
    match r {
        Ok(out) => Ok(out@),
        Err(err) => Err(err@),
    }
}

/// A specialized worker agent that executes a single domain task.
pub trait WorkerAgent: Send + Sync {
    /// Whether `r` (an output, or an error message) is a result this worker may give on `input`:
    /// any result, unless the implementation says which.
    open spec fn may_return(&self, input: Seq<char>, r: Result<Seq<char>, Seq<char>>) -> bool {
        true
    }

    /// Whether `n` is a name this worker may report: any, unless the implementation says which.
    open spec fn reports_name(&self, n: Seq<char>) -> bool {
        true
    }

    /// Returns the unique name of this worker agent.
    fn name(&self) -> (r: &str)
        ensures
            self.reports_name(r@),
    ;

    /// Executes the worker's task on the given input string.
    fn execute(&self, input: &str) -> (r: Result<String, String>)
        ensures
            self.may_return(input@, result_view(r)),
    ;
}

/// A gate evaluated on the previous step's output before a step runs.
pub trait StepCondition {
    /// Whether `r` is an answer this condition may give on `previous_output`: either answer,
    /// unless the implementation says which.
    open spec fn answers(&self, previous_output: Seq<char>, r: bool) -> bool {
        true
    }

    /// Whether the gated step may run, given the previous step's output.
    fn holds(&self, previous_output: &str) -> (r: bool)
        ensures
            self.answers(previous_output@, r),
    ;
}

/// A condition given by a closure that accepts every input.
struct ClosureCondition<F: Fn(&str) -> bool> {
    f: F,
}

impl<F: Fn(&str) -> bool> ClosureCondition<F> {
    #[verifier::type_invariant]
    closed spec fn accepts_every_input(self) -> bool {
        forall|s: &str| #[trigger] call_requires(self.f, (s,))
    }
}

impl<F: Fn(&str) -> bool> StepCondition for ClosureCondition<F> {
    /// The closure may answer `r` on a string holding `previous_output`.
    closed spec fn answers(&self, previous_output: Seq<char>, r: bool) -> bool {
        exists|s: &str| s@ == previous_output && #[trigger] call_ensures(self.f, (s,), r)
    }

    fn holds(&self, previous_output: &str) -> (r: bool) {
        proof {
            use_type_invariant(self);
        }
        let r = (self.f)(previous_output);
        assert(call_ensures(self.f, (previous_output,), r));
        r
    }
}

/// The current status of a workflow execution.
#[derive(Debug, Clone, Copy, PartialEq, Eq, Structural)]
pub enum WorkflowStatus {
    /// Workflow is currently running.
    Running,
    /// Workflow completed successfully.
    Completed,
    /// Workflow failed due to a critical error.
    Failed,
    /// Workflow was halted early by a condition.
    Halted,
}

/// A single step in a supervisor workflow.
pub struct WorkflowStep {
    /// Human-readable name for this step.
    pub name: String,
    /// Name of the worker agent to execute this step.
    pub worker_name: String,
    /// Optional condition to evaluate on the previous step's output.
    /// If present and it does not hold, the workflow halts.
    pub condition: Option<Box<dyn StepCondition>>,
    /// If true, a failure in this step immediately fails the workflow.
    pub critical: bool,
}

/// What the workflow needs to know of a step.
pub struct StepPlan {
    pub name: Seq<char>,
    pub worker_name: Seq<char>,
    pub gated: bool,
    pub critical: bool,
}

impl WorkflowStep {
    /// The step as seen by the workflow.
    pub open spec fn plan(&self) -> StepPlan {
        StepPlan {
            name: self.name@,
            worker_name: self.worker_name@,
            gated: self.condition is Some,
            critical: self.critical,
        }
    }

    /// Creates a new critical, ungated step with the given name and target worker.
    pub fn new(name: &str, worker_name: &str) -> (r: Self)
        ensures
            r.plan() == (StepPlan { name: name@, worker_name: worker_name@, gated: false, critical: true }),
    {
        WorkflowStep {
            name: String::from_str(name),
            worker_name: String::from_str(worker_name),
            condition: None,
            critical: true,
        }
    }

    /// Sets a condition that must hold on the previous step's output, in place of any earlier
    /// one. The closure must be callable on every input, as any closure without a `requires` is.
    pub fn with_condition<F: Fn(&str) -> bool + 'static>(self, cond: F) -> (r: Self)
        requires
            forall|s: &str| #[trigger] call_requires(cond, (s,)),
        ensures
            r.plan() == (StepPlan { gated: true, ..self.plan() }),
    {
        let gate = ClosureCondition { f: cond };
        let boxed: Box<dyn StepCondition> = Box::new(gate);
        WorkflowStep { condition: Some(boxed), ..self }
    }

    /// Marks this step as non-critical (failure won't abort the workflow); its condition stays.
    pub fn non_critical(self) -> (r: Self)
        ensures
            r.plan() == (StepPlan { critical: false, ..self.plan() }),
            r.condition == self.condition,
    {
        WorkflowStep { critical: false, ..self }
    }
}

/// An entry in the workflow audit log.
#[derive(Debug, Clone)]
pub struct AuditEntry {
    /// The step that produced this entry.
    pub step_name: String,
    /// The worker agent that executed the step.
    pub worker_name: String,
    /// The input passed to the worker.
    pub input: String,
    /// The output returned by the worker (or error message).
    pub output: String,
    /// Whether the step succeeded.
    pub success: bool,
}

/// An audit entry as plain values.
pub struct AuditRecord {
    pub step_name: Seq<char>,
    pub worker_name: Seq<char>,
    pub input: Seq<char>,
    pub output: Seq<char>,
    pub success: bool,
}

impl View for AuditEntry {
    type V = AuditRecord;

    open spec fn view(&self) -> AuditRecord {
        AuditRecord {
            step_name: self.step_name@,
            worker_name: self.worker_name@,
            input: self.input@,
            output: self.output@,
            success: self.success,
        }
    }
}

impl AuditEntry {
    /// A copy with the same contents.
    pub fn duplicate(&self) -> (r: Self)
        ensures
            r@ == self@,
    {
        AuditEntry {
            step_name: self.step_name.clone(),
            worker_name: self.worker_name.clone(),
            input: self.input.clone(),
            output: self.output.clone(),
            success: self.success,
        }
    }
}

/// The views of a sequence of audit entries.
pub open spec fn records(entries: Seq<AuditEntry>) -> Seq<AuditRecord> {
    entries.map_values(|e: AuditEntry| e@)
}

/// What came of running the current step: its condition did not hold, or its worker returned.
pub enum StepOutcome {
    /// The step's condition did not hold on the previous output.
    ConditionNotMet,
    /// The worker returned this output.
    Output(String),
    /// The worker failed with this message.
    Error(String),
}

/// A step outcome as plain values.
pub enum Outcome {
    ConditionNotMet,
    Output(Seq<char>),
    Error(Seq<char>),
}

impl StepOutcome {
    pub open spec fn view(&self) -> Outcome {
        match self {
            StepOutcome::ConditionNotMet => Outcome::ConditionNotMet,
            StepOutcome::Output(out) => Outcome::Output(out@),
            StepOutcome::Error(err) => Outcome::Error(err@),
        }
    }
}

/// The progress of a workflow as plain values.
pub ghost struct RunState {
    pub current: int,
    pub outputs: Map<Seq<char>, Seq<char>>,
    pub audit: Seq<AuditRecord>,
    pub status: WorkflowStatus,
}

/// The audit output recorded when a step's condition does not hold.
pub open spec fn halt_message() -> Seq<char> {
    "Condition not met, workflow halted"@
}

/// The audit output recorded when a worker fails with `err`.
pub open spec fn error_message(err: Seq<char>) -> Seq<char> {
    "Error: "@ + err
}

/// The input step `i` receives: the goal for the first step, else the previous step's output
/// (empty when the previous step stored none).
pub open spec fn step_input(plan: Seq<StepPlan>, goal: Seq<char>, outputs: Map<Seq<char>, Seq<char>>, i: int) -> Seq<char> {
    if i == 0 {
        goal
    } else if outputs.contains_key(plan[i - 1].name) {
        outputs[plan[i - 1].name]
    } else {
        Seq::empty()
    }
}

/// The state after the current step has the given outcome.
pub open spec fn transition(plan: Seq<StepPlan>, goal: Seq<char>, s: RunState, o: Outcome) -> RunState {
    let step = plan[s.current];
    let input = step_input(plan, goal, s.outputs, s.current);
    match o {
        Outcome::ConditionNotMet => RunState {
            status: WorkflowStatus::Halted,
            audit: s.audit.push(
                AuditRecord {
                    step_name: step.name,
                    worker_name: step.worker_name,
                    input,
                    output: halt_message(),
                    success: false,
                },
            ),
            ..s
        },
        Outcome::Output(out) => RunState {
            current: s.current + 1,
            outputs: s.outputs.insert(step.name, out),
            audit: s.audit.push(
                AuditRecord {
                    step_name: step.name,
                    worker_name: step.worker_name,
                    input,
                    output: out,
                    success: true,
                },
            ),
            ..s
        },
        Outcome::Error(err) => RunState {
            current: if step.critical { s.current } else { s.current + 1 },
            status: if step.critical { WorkflowStatus::Failed } else { s.status },
            audit: s.audit.push(
                AuditRecord {
                    step_name: step.name,
                    worker_name: step.worker_name,
                    input,
                    output: error_message(err),
                    success: false,
                },
            ),
            ..s
        },
    }
}

/// Whether the outcome ends the run: a condition that did not hold, or a failed critical step.
pub open spec fn stops(plan: Seq<StepPlan>, s: RunState, o: Outcome) -> bool {
    ||| o is ConditionNotMet
    ||| (o is Error && plan[s.current].critical)
}

/// The state after the outcomes `outs`, taken in order from `s`.
pub open spec fn run(plan: Seq<StepPlan>, goal: Seq<char>, s: RunState, outs: Seq<Outcome>) -> RunState
    decreases outs.len(),
{
    if outs.len() == 0 {
        s
    } else {
        transition(plan, goal, run(plan, goal, s, outs.drop_last()), outs.last())
    }
}

/// Whether the last of `outs` ended the run.
pub open spec fn ends_early(plan: Seq<StepPlan>, goal: Seq<char>, s: RunState, outs: Seq<Outcome>) -> bool {
    outs.len() > 0 && stops(plan, run(plan, goal, s, outs.drop_last()), outs.last())
}

/// Whether `outs` can be what the steps from `s` produced: each outcome is for a step that exists,
/// follows an outcome that did not end the run, and is a failed condition only for a gated step.
pub open spec fn trace_ok(plan: Seq<StepPlan>, goal: Seq<char>, s: RunState, outs: Seq<Outcome>) -> bool
    decreases outs.len(),
{
    outs.len() == 0 || {
        let before = run(plan, goal, s, outs.drop_last());
        &&& trace_ok(plan, goal, s, outs.drop_last())
        &&& 0 <= before.current < plan.len()
        &&& !ends_early(plan, goal, s, outs.drop_last())
        &&& (outs.last() is ConditionNotMet ==> plan[before.current].gated)
    }
}

/// Whether a run that took the outcomes `outs` from `s` is over.
pub open spec fn finished(plan: Seq<StepPlan>, goal: Seq<char>, s: RunState, outs: Seq<Outcome>) -> bool {
    ends_early(plan, goal, s, outs) || run(plan, goal, s, outs).current >= plan.len()
}

/// The state once the run is over: a run that got through every step while running is completed.
pub open spec fn finalize(plan: Seq<StepPlan>, s: RunState) -> RunState {
    if s.status == WorkflowStatus::Running && s.current >= plan.len() {
        RunState { status: WorkflowStatus::Completed, ..s }
    } else {
        s
    }
}

/// The output of the last successful audit record, or empty when none succeeded.
pub open spec fn last_success_output(audit: Seq<AuditRecord>) -> Seq<char>
    decreases audit.len(),
{
    if audit.len() == 0 {
        Seq::empty()
    } else if audit.last().success {
        audit.last().output
    } else {
        last_success_output(audit.drop_last())
    }
}

/// The result of a complete workflow execution.
#[derive(Debug)]
pub struct WorkflowResult {
    /// The output of the final successful step.
    pub final_output: String,
    /// Step name -> step output for all steps that produced one.
    pub step_outputs: StepOutputs,
    /// The final status of the workflow.
    pub status: WorkflowStatus,
    /// Ordered audit log of all executed steps.
    pub audit_entries: Vec<AuditEntry>,
}

impl WorkflowResult {
    /// Whether this result reports the given state.
    pub open spec fn reports(&self, s: RunState) -> bool {
        &&& self.final_output@ == last_success_output(s.audit)
        &&& self.step_outputs@ == s.outputs
        &&& self.status == s.status
        &&& records(self.audit_entries@) == s.audit
    }
}

/// A worker together with the name it was registered under.
struct RegisteredWorker {
    name: String,
    agent: Box<dyn WorkerAgent>,
}

impl RegisteredWorker {
    fn new(name: String, agent: Box<dyn WorkerAgent>) -> (r: Self)
        ensures
            r.name == name,
    {
        RegisteredWorker { name, agent }
    }
}

/// The registered workers and the steps, which never change once a supervisor is built.
struct Roster {
    workers: Vec<RegisteredWorker>,
    steps: Vec<WorkflowStep>,
}

/// Whether a worker named `w` is among `names`.
pub open spec fn registered(names: Seq<Seq<char>>, w: Seq<char>) -> bool {
    exists|j: int| 0 <= j < names.len() && names[j] == w
}

/// Whether no name occurs twice in `names`.
pub open spec fn distinct(names: Seq<Seq<char>>) -> bool {
    forall|i: int, j: int| 0 <= i < names.len() && 0 <= j < names.len() && i != j ==> names[i] != names[j]
}

/// Whether every step names a registered worker.
pub open spec fn all_registered(names: Seq<Seq<char>>, plan: Seq<StepPlan>) -> bool {
    forall|i: int| 0 <= i < plan.len() ==> registered(names, #[trigger] plan[i].worker_name)
}

spec fn name_views(workers: Seq<RegisteredWorker>) -> Seq<Seq<char>> {
    workers.map_values(|w: RegisteredWorker| w.name@)
}

pub open spec fn plan_of(steps: Seq<WorkflowStep>) -> Seq<StepPlan> {
    steps.map_values(|s: WorkflowStep| s.plan())
}

spec fn agent_views(workers: Seq<RegisteredWorker>) -> Seq<Box<dyn WorkerAgent>> {
    workers.map_values(|w: RegisteredWorker| w.agent)
}

spec fn condition_views(steps: Seq<WorkflowStep>) -> Seq<Option<Box<dyn StepCondition>>> {
    steps.map_values(|s: WorkflowStep| s.condition)
}

/// The position of the worker named `w` among `names`.
pub open spec fn position_of(names: Seq<Seq<char>>, w: Seq<char>) -> int {
    choose|j: int| 0 <= j < names.len() && names[j] == w
}

/// The text the condition of step `i` is handed: empty for the first step, else the previous
/// step's stored output (empty when it stored none).
pub open spec fn condition_input(plan: Seq<StepPlan>, goal: Seq<char>, outputs: Map<Seq<char>, Seq<char>>, i: int) -> Seq<char> {
    if i == 0 {
        Seq::empty()
    } else {
        step_input(plan, goal, outputs, i)
    }
}

/// Whether `o` is an outcome step `i` may have when it receives `input` and its condition is
/// handed `prev`, given the registered `agents` (under `names`) and the steps' `conditions`: a
/// condition that may answer false halts; else the step's condition (if any) may answer true
/// and the outcome is a result the worker registered under the step's worker name may give.
pub open spec fn outcome_fits(
    agents: Seq<Box<dyn WorkerAgent>>,
    names: Seq<Seq<char>>,
    conditions: Seq<Option<Box<dyn StepCondition>>>,
    plan: Seq<StepPlan>,
    i: int,
    input: Seq<char>,
    prev: Seq<char>,
    o: Outcome,
) -> bool {
    let agent = agents[position_of(names, plan[i].worker_name)];
    let passes = match conditions[i] {
        Some(c) => c.answers(prev, true),
        None => true,
    };
    match o {
        Outcome::ConditionNotMet => match conditions[i] {
            Some(c) => c.answers(prev, false),
            None => false,
        },
        Outcome::Output(out) => passes && agent.may_return(input, Ok(out)),
        Outcome::Error(err) => passes && agent.may_return(input, Err(err)),
    }
}

/// Whether the `k`-th of the outcomes `outs`, taken from `s`, is one its step may have.
pub open spec fn fits_at(
    agents: Seq<Box<dyn WorkerAgent>>,
    names: Seq<Seq<char>>,
    conditions: Seq<Option<Box<dyn StepCondition>>>,
    plan: Seq<StepPlan>,
    goal: Seq<char>,
    s: RunState,
    outs: Seq<Outcome>,
    k: int,
) -> bool {
    let sk = run(plan, goal, s, outs.take(k));
    outcome_fits(
        agents,
        names,
        conditions,
        plan,
        sk.current,
        step_input(plan, goal, sk.outputs, sk.current),
        condition_input(plan, goal, sk.outputs, sk.current),
        outs[k],
    )
}

/// Whether every outcome of `outs`, taken from `s`, is one its step may have.
pub open spec fn outcomes_fit(
    agents: Seq<Box<dyn WorkerAgent>>,
    names: Seq<Seq<char>>,
    conditions: Seq<Option<Box<dyn StepCondition>>>,
    plan: Seq<StepPlan>,
    goal: Seq<char>,
    s: RunState,
    outs: Seq<Outcome>,
) -> bool {
    forall|k: int| 0 <= k < outs.len() ==> #[trigger] fits_at(agents, names, conditions, plan, goal, s, outs, k)
}

impl Roster {
    #[verifier::type_invariant]
    closed spec fn valid(self) -> bool {
        &&& self.workers@.len() >= 1
        &&& distinct(name_views(self.workers@))
        &&& all_registered(name_views(self.workers@), plan_of(self.steps@))
    }

    /// The index of the worker registered as `name`.
    fn worker_index(&self, name: &String) -> (r: usize)
        requires
            registered(name_views(self.workers@), name@),
        ensures
            r < self.workers@.len(),
            self.workers@[r as int].name@ == name@,
    {
        let n = self.workers.len();
        let mut i: usize = 0;
        while i < n
            invariant
                n == self.workers@.len(),
                0 <= i <= n,
                registered(name_views(self.workers@), name@),
                forall|j: int| 0 <= j < i ==> self.workers@[j].name@ != name@,
            decreases n - i,
        {
            if string_eq_str(&self.workers[i].name, name.as_str()) {
                return i;
            }
            i = i + 1;
        }
        proof {
            let j = choose|j: int| 0 <= j < n && name_views(self.workers@)[j] == name@;
            assert(self.workers@[j].name@ == name@);
        }
        0
    }
}

/// Builder for constructing a `Supervisor` with validation.
pub struct SupervisorBuilder {
    workers: Vec<RegisteredWorker>,
    steps: Vec<WorkflowStep>,
    goal: String,
}

impl SupervisorBuilder {
    #[verifier::type_invariant]
    closed spec fn valid(self) -> bool {
        distinct(name_views(self.workers@))
    }

    /// The names of the registered workers, in registration order.
    pub closed spec fn worker_names(self) -> Seq<Seq<char>> {
        name_views(self.workers@)
    }

    /// The steps added so far, in order.
    pub closed spec fn plan(self) -> Seq<StepPlan> {
        plan_of(self.steps@)
    }

    /// The goal handed to the first step.
    pub closed spec fn goal(self) -> Seq<char> {
        self.goal@
    }

    /// Creates a new builder with the initial goal.
    pub fn new(goal: &str) -> (r: Self)
        ensures
            r.worker_names() == Seq::<Seq<char>>::empty(),
            r.plan() == Seq::<StepPlan>::empty(),
            r.goal() == goal@,
    {
        let r = SupervisorBuilder { workers: Vec::new(), steps: Vec::new(), goal: String::from_str(goal) };
        assert(name_views(r.workers@) =~= Seq::<Seq<char>>::empty());
        assert(plan_of(r.steps@) =~= Seq::<StepPlan>::empty());
        r
    }

    /// Registers a worker under the name it reports. Returns an error if the name is already taken.
    pub fn add_worker(self, worker: Box<dyn WorkerAgent>) -> (r: Result<Self, String>)
        ensures
            match r {
                Ok(b) => {
                    &&& b.worker_names().len() == self.worker_names().len() + 1
                    &&& b.worker_names().drop_last() == self.worker_names()
                    &&& !self.worker_names().contains(b.worker_names().last())
                    &&& worker.reports_name(b.worker_names().last())
                    &&& b.plan() == self.plan()
                    &&& b.goal() == self.goal()
                },
                Err(e) => exists|i: int|
                    0 <= i < self.worker_names().len() && worker.reports_name(self.worker_names()[i]) && e@
                        == duplicate_message(#[trigger] self.worker_names()[i]),
            },
    {
        let name = String::from_str(worker.name());
        let r = self.register(name, worker);
        proof {
            if r is Ok {
                assert(r->Ok_0.worker_names().drop_last() =~= self.worker_names());
            } else {
                let i = choose|i: int| 0 <= i < self.worker_names().len() && self.worker_names()[i] == name@;
                assert(self.worker_names()[i] == name@);
            }
        }
        r
    }

    /// Registers `worker` under `name`. Returns an error if the name is already taken.
    #[verifier::loop_isolation(false)]
    pub fn register(self, name: String, worker: Box<dyn WorkerAgent>) -> (r: Result<Self, String>)
        ensures
            match r {
                Ok(b) => {
                    &&& !self.worker_names().contains(name@)
                    &&& b.worker_names() == self.worker_names().push(name@)
                    &&& b.plan() == self.plan()
                    &&& b.goal() == self.goal()
                },
                Err(e) => self.worker_names().contains(name@) && e@ == duplicate_message(name@),
            },
    {
        proof {
            use_type_invariant(&self);
        }
        let ghost known = self.worker_names();
        let SupervisorBuilder { mut workers, steps, goal } = self;
        let n = workers.len();
        let mut i: usize = 0;
        while i < n
            invariant
                n == workers@.len(),
                0 <= i <= n,
                known == name_views(workers@),
                forall|j: int| 0 <= j < i ==> workers@[j].name@ != name@,
            decreases n - i,
        {
            if string_eq_str(&workers[i].name, name.as_str()) {
                assert(known[i as int] == name@);
                assert(known.contains(name@));
                let msg = String::from_str("Duplicate worker name: ").concat(name.as_str());
                return Err(msg);
            }
            i = i + 1;
        }
        let ghost before = workers@;
        assert(!known.contains(name@)) by {
            if known.contains(name@) {
                let j = choose|j: int| 0 <= j < before.len() && known[j] == name@;
                assert(before[j].name@ != name@);
            }
        }
        let entry = RegisteredWorker::new(name, worker);
        workers.push(entry);
        assert(name_views(workers@) =~= known.push(name@));
        assert(distinct(name_views(workers@))) by {
            let v = name_views(workers@);
            assert forall|a: int, b: int| 0 <= a < v.len() && 0 <= b < v.len() && a != b implies v[a] != v[b] by {
                if a < before.len() && b < before.len() {
                    assert(known[a] == v[a] && known[b] == v[b]);
                } else if a == before.len() {
                    assert(known[b] == v[b]);
                } else {
                    assert(known[a] == v[a]);
                }
            }
        }
        Ok(SupervisorBuilder { workers, steps, goal })
    }

    /// Adds a workflow step.
    pub fn add_step(self, step: WorkflowStep) -> (r: Self)
        ensures
            r.worker_names() == self.worker_names(),
            r.plan() == self.plan().push(step.plan()),
            r.goal() == self.goal(),
    {
        proof {
            use_type_invariant(&self);
        }
        let SupervisorBuilder { workers, mut steps, goal } = self;
        let ghost old_steps = steps@;
        steps.push(step);
        assert(plan_of(steps@) =~= plan_of(old_steps).push(step.plan()));
        SupervisorBuilder { workers, steps, goal }
    }

    /// Builds the supervisor: fails when no worker is registered or a step names an
    /// unregistered worker (the first such step is reported).
    #[verifier::loop_isolation(false)]
    pub fn build(self) -> (r: Result<Supervisor, String>)
        ensures
            match r {
                Ok(s) => {
                    &&& self.worker_names().len() > 0
                    &&& all_registered(self.worker_names(), self.plan())
                    &&& s.plan() == self.plan()
                    &&& s.goal() == self.goal()
                    &&& s.worker_names() == self.worker_names()
                    &&& s.state() == fresh_state()
                },
                Err(e) => if self.worker_names().len() == 0 {
                    e@ == no_worker_message()
                } else {
                    exists|i: int|
                        0 <= i < self.plan().len() && !registered(self.worker_names(), #[trigger] self.plan()[i].worker_name)
                            && (forall|j: int| 0 <= j < i ==> registered(self.worker_names(), #[trigger] self.plan()[j].worker_name))
                            && e@ == unregistered_message(self.plan()[i].name, self.plan()[i].worker_name)
                },
            },
    {
        proof {
            use_type_invariant(&self);
        }
        let ghost known = self.worker_names();
        let ghost planned = self.plan();
        let SupervisorBuilder { workers, steps, goal } = self;
        if workers.len() == 0 {
            return Err(String::from_str("Supervisor requires at least one worker agent"));
        }
        let n = steps.len();
        let mut i: usize = 0;
        while i < n
            invariant
                n == steps@.len(),
                0 <= i <= n,
                known == name_views(workers@),
                planned == plan_of(steps@),
                forall|j: int| 0 <= j < i ==> registered(known, #[trigger] planned[j].worker_name),
            decreases n - i,
        {
            let w = &steps[i].worker_name;
            let m = workers.len();
            let mut k: usize = 0;
            let mut found = false;
            while k < m && !found
                invariant
                    m == workers@.len(),
                    0 <= k <= m,
                    known == name_views(workers@),
                    found ==> registered(known, w@),
                    !found ==> forall|j: int| 0 <= j < k ==> workers@[j].name@ != w@,
                decreases m - k,
            {
                if string_eq_str(&workers[k].name, w.as_str()) {
                    found = true;
                    assert(known[k as int] == w@);
                }
                k = k + 1;
            }
            assert(planned[i as int].worker_name == w@);
            if !found {
                proof {
                    assert forall|j: int| 0 <= j < known.len() implies known[j] != w@ by {
                        assert(workers@[j].name@ != w@);
                    }
                }
                assert(!registered(known, planned[i as int].worker_name));
                let msg = String::from_str("Step '").concat(steps[i].name.as_str()).concat("' references unregistered worker '").concat(
                    w.as_str(),
                ).concat("'");
                return Err(msg);
            }
            i = i + 1;
        }
        let roster = Roster { workers, steps };
        let s = Supervisor {
            roster,
            goal,
            current_step: 0,
            step_outputs: StepOutputs::new(),
            audit_entries: Vec::new(),
            status: WorkflowStatus::Running,
        };
        assert(records(s.audit_entries@) =~= Seq::<AuditRecord>::empty());
        Ok(s)
    }
}

/// The error reported for a second worker named `name`.
pub open spec fn duplicate_message(name: Seq<char>) -> Seq<char> {
    "Duplicate worker name: "@ + name
}

/// The error reported when no worker is registered.
pub open spec fn no_worker_message() -> Seq<char> {
    "Supervisor requires at least one worker agent"@
}

/// The error reported for a step that names an unregistered worker.
pub open spec fn unregistered_message(step: Seq<char>, worker: Seq<char>) -> Seq<char> {
    "Step '"@ + step + "' references unregistered worker '"@ + worker + "'"@
}

/// The state of a supervisor that has not run yet.
pub open spec fn fresh_state() -> RunState {
    RunState {
        current: 0,
        outputs: Map::empty(),
        audit: Seq::empty(),
        status: WorkflowStatus::Running,
    }
}

/// Central orchestrator that delegates work to registered worker agents.
pub struct Supervisor {
    roster: Roster,
    goal: String,
    current_step: usize,
    step_outputs: StepOutputs,
    audit_entries: Vec<AuditEntry>,
    status: WorkflowStatus,
}

impl Supervisor {
    /// The steps, in order.
    pub closed spec fn plan(self) -> Seq<StepPlan> {
        plan_of(self.roster.steps@)
    }

    /// The names of the registered workers.
    pub closed spec fn worker_names(self) -> Seq<Seq<char>> {
        name_views(self.roster.workers@)
    }

    /// The goal handed to the first step.
    pub closed spec fn goal(self) -> Seq<char> {
        self.goal@
    }

    /// The registered workers, in registration order.
    pub closed spec fn agents(self) -> Seq<Box<dyn WorkerAgent>> {
        agent_views(self.roster.workers@)
    }

    /// The conditions of the steps, in order.
    pub closed spec fn conditions(self) -> Seq<Option<Box<dyn StepCondition>>> {
        condition_views(self.roster.steps@)
    }

    /// The progress of the workflow.
    pub closed spec fn state(self) -> RunState {
        RunState {
            current: self.current_step as int,
            outputs: self.step_outputs@,
            audit: records(self.audit_entries@),
            status: self.status,
        }
    }

    /// Creates a new supervisor using the builder pattern.
    pub fn builder(goal: &str) -> (r: SupervisorBuilder)
        ensures
            r.worker_names() == Seq::<Seq<char>>::empty(),
            r.plan() == Seq::<StepPlan>::empty(),
            r.goal() == goal@,
    {
        SupervisorBuilder::new(goal)
    }

    /// The input the current step receives.
    fn current_input(&self) -> (r: String)
        requires
            self.current_step < self.roster.steps@.len(),
        ensures
            r@ == step_input(self.plan(), self.goal(), self.state().outputs, self.current_step as int),
    {
        let i = self.current_step;
        if i == 0 {
            self.goal.clone()
        } else {
            assert(self.plan()[i - 1].name == self.roster.steps@[i - 1].name@);
            match self.step_outputs.get(self.roster.steps[i - 1].name.as_str()) {
                Some(out) => out.clone(),
                None => String::new(),
            }
        }
    }

    /// Records what came of the current step, given the input the step received.
    fn apply(&mut self, outcome: StepOutcome, input: String)
        requires
            old(self).current_step < old(self).roster.steps@.len(),
            input@ == step_input(old(self).plan(), old(self).goal(), old(self).state().outputs, old(self).current_step as int),
        ensures
            final(self).state() == transition(old(self).plan(), old(self).goal(), old(self).state(), outcome.view()),
            final(self).plan() == old(self).plan(),
            final(self).goal() == old(self).goal(),
            final(self).worker_names() == old(self).worker_names(),
            final(self).agents() == old(self).agents(),
            final(self).conditions() == old(self).conditions(),
    {
        let i = self.current_step;
        let n = self.roster.steps.len();
        assert(i < n);
        let ghost before = self.state();
        let ghost entries = self.audit_entries@;
        let step_name = self.roster.steps[i].name.clone();
        let worker_name = self.roster.steps[i].worker_name.clone();
        let critical = self.roster.steps[i].critical;
        assert(self.plan()[i as int] == self.roster.steps@[i as int].plan());
        match outcome {
            StepOutcome::ConditionNotMet => {
                self.status = WorkflowStatus::Halted;
                self.audit_entries.push(
                    AuditEntry {
                        step_name,
                        worker_name,
                        input,
                        output: String::from_str("Condition not met, workflow halted"),
                        success: false,
                    },
                );
            },
            StepOutcome::Output(out) => {
                let stored = out.clone();
                self.step_outputs.insert(step_name.clone(), stored);
                self.audit_entries.push(
                    AuditEntry { step_name, worker_name, input, output: out, success: true },
                );
                self.current_step = i + 1;
            },
            StepOutcome::Error(err) => {
                let output = String::from_str("Error: ").concat(err.as_str());
                self.audit_entries.push(AuditEntry { step_name, worker_name, input, output, success: false });
                if critical {
                    self.status = WorkflowStatus::Failed;
                } else {
                    self.current_step = i + 1;
                }
            },
        }
        assert(records(self.audit_entries@) =~= records(entries).push(self.audit_entries@.last()@));
    }

    /// Records what came of the current step: its condition did not hold, or its worker returned.
    pub fn record_outcome(&mut self, outcome: StepOutcome)
        requires
            old(self).state().current < old(self).plan().len(),
        ensures
            final(self).state() == transition(old(self).plan(), old(self).goal(), old(self).state(), outcome.view()),
            final(self).plan() == old(self).plan(),
            final(self).goal() == old(self).goal(),
            final(self).worker_names() == old(self).worker_names(),
    {
        let input = self.current_input();
        self.apply(outcome, input);
    }

    /// Runs the current step: evaluates its condition on the previous output, then its worker.
    fn step_outcome(&self, input: &String) -> (r: StepOutcome)
        requires
            self.current_step < self.roster.steps@.len(),
            input@ == step_input(self.plan(), self.goal(), self.state().outputs, self.current_step as int),
        ensures
            r.view() is ConditionNotMet ==> self.plan()[self.current_step as int].gated,
            !self.plan()[self.current_step as int].gated ==> !(r.view() is ConditionNotMet),
            outcome_fits(
                self.agents(),
                self.worker_names(),
                self.conditions(),
                self.plan(),
                self.current_step as int,
                input@,
                condition_input(self.plan(), self.goal(), self.state().outputs, self.current_step as int),
                r.view(),
            ),
    {
        proof {
            use_type_invariant(&self.roster);
        }
        let i = self.current_step;
        let step = &self.roster.steps[i];
        assert(self.plan()[i as int] == step.plan());
        let ghost prev = condition_input(self.plan(), self.goal(), self.state().outputs, i as int);
        assert(self.conditions()[i as int] == step.condition);
        proof {
            reveal_strlit("");
            if i > 0 {
                assert(self.plan()[i - 1].name == self.roster.steps@[i - 1].name@);
            }
        }
        let empty = "";
        assert(empty@ == Seq::<char>::empty());
        let handed: &str = if i > 0 {
            match self.step_outputs.get(self.roster.steps[i - 1].name.as_str()) {
                Some(p) => p.as_str(),
                None => empty,
            }
        } else {
            empty
        };
        assert(handed@ == prev);
        let passes = match &step.condition {
            Some(cond) => {
                let h = cond.holds(handed);
                assert(cond.answers(prev, h));
                h
            },
            None => true,
        };
        assert(match step.condition {
            Some(c) => c.answers(prev, passes),
            None => passes,
        });
        if !passes {
            return StepOutcome::ConditionNotMet;
        }
        let ghost names = self.worker_names();
        let ghost wname = self.plan()[i as int].worker_name;
        assert(registered(name_views(self.roster.workers@), plan_of(self.roster.steps@)[i as int].worker_name));
        let w = self.roster.worker_index(&step.worker_name);
        proof {
            assert(names[w as int] == wname);
            let j = position_of(names, wname);
            assert(0 <= j < names.len() && names[j] == wname);
            assert(distinct(names));
            assert(j == w);
            assert(self.agents()[w as int] == self.roster.workers@[w as int].agent);
        }
        let res = self.roster.workers[w].agent.execute(input.as_str());
        match res {
            Ok(out) => StepOutcome::Output(out),
            Err(err) => StepOutcome::Error(err),
        }
    }

    /// Executes the workflow from the current step until a condition does not hold, a critical
    /// step fails, or every step has run; returns the resulting state.
    pub fn execute(&mut self) -> (result: WorkflowResult)
        ensures
            final(self).plan() == old(self).plan(),
            final(self).goal() == old(self).goal(),
            final(self).worker_names() == old(self).worker_names(),
            final(self).agents() == old(self).agents(),
            final(self).conditions() == old(self).conditions(),
            exists|outs: Seq<Outcome>|
                {
                    &&& #[trigger] trace_ok(old(self).plan(), old(self).goal(), old(self).state(), outs)
                    &&& finished(old(self).plan(), old(self).goal(), old(self).state(), outs)
                    &&& outcomes_fit(
                        old(self).agents(),
                        old(self).worker_names(),
                        old(self).conditions(),
                        old(self).plan(),
                        old(self).goal(),
                        old(self).state(),
                        outs,
                    )
                    &&& final(self).state() == finalize(
                        old(self).plan(),
                        run(old(self).plan(), old(self).goal(), old(self).state(), outs),
                    )
                },
            result.reports(final(self).state()),
            old(self).state().current >= old(self).plan().len() ==> final(self).state() == finalize(
                old(self).plan(),
                old(self).state(),
            ),
    {
        let ghost plan = self.plan();
        let ghost agents = self.agents();
        let ghost names = self.worker_names();
        let ghost conds = self.conditions();
        let ghost goal = self.goal();
        let ghost s0 = self.state();
        let ghost mut outs: Seq<Outcome> = Seq::empty();
        let mut done = false;
        while !done && self.current_step < self.roster.steps.len()
            invariant
                self.plan() == plan,
                self.goal() == goal,
                self.worker_names() == old(self).worker_names(),
                self.worker_names() == names,
                self.agents() == agents,
                self.conditions() == conds,
                trace_ok(plan, goal, s0, outs),
                outcomes_fit(agents, names, conds, plan, goal, s0, outs),
                self.state() == run(plan, goal, s0, outs),
                done == ends_early(plan, goal, s0, outs),
            decreases self.roster.steps@.len() - self.current_step + (if done { 0int } else { 1int }),
        {
            let input = self.current_input();
            let outcome = self.step_outcome(&input);
            let ghost o = outcome.view();
            let ghost before = self.state();
            let stop = match &outcome {
                StepOutcome::ConditionNotMet => true,
                StepOutcome::Output(_) => false,
                StepOutcome::Error(_) => self.roster.steps[self.current_step].critical,
            };
            assert(plan[before.current] == self.roster.steps@[before.current].plan());
            assert(stop == stops(plan, before, o));
            let ghost len_before = self.roster.steps@.len();
            self.apply(outcome, input);
            assert(self.roster.steps@.len() == len_before) by {
                assert(plan_of(self.roster.steps@).len() == plan.len());
            }
            assert(!stop ==> self.current_step == before.current + 1);
            proof {
                let next = outs.push(o);
                assert(next.drop_last() =~= outs);
                assert(next.take(outs.len() as int) =~= outs);
                assert(fits_at(agents, names, conds, plan, goal, s0, next, outs.len() as int));
                assert forall|k: int| 0 <= k < next.len() implies #[trigger] fits_at(agents, names, conds, plan, goal, s0, next, k) by {
                    if k < outs.len() {
                        assert(next.take(k) =~= outs.take(k));
                        assert(fits_at(agents, names, conds, plan, goal, s0, outs, k));
                    }
                }
                outs = next;
            }
            done = stop;
        }
        assert(finished(plan, goal, s0, outs));
        proof {
            if s0.current >= plan.len() {
                crate::workflow_laws::law_nothing_left_to_run(plan, goal, s0, outs);
            }
        }
        self.finish()
    }

    /// Ends a run: a workflow that got through every step while running is completed. Returns
    /// the result reporting the final state.
    pub fn finish(&mut self) -> (r: WorkflowResult)
        ensures
            final(self).state() == finalize(old(self).plan(), old(self).state()),
            final(self).plan() == old(self).plan(),
            final(self).goal() == old(self).goal(),
            final(self).worker_names() == old(self).worker_names(),
            final(self).agents() == old(self).agents(),
            final(self).conditions() == old(self).conditions(),
            r.reports(final(self).state()),
    {
        assert(plan_of(self.roster.steps@).len() == self.roster.steps@.len());
        match self.status {
            WorkflowStatus::Running => {
                if self.current_step >= self.roster.steps.len() {
                    self.status = WorkflowStatus::Completed;
                }
            },
            _ => {},
        }
        self.result()
    }

    /// The result reporting the current state.
    fn result(&self) -> (r: WorkflowResult)
        ensures
            r.reports(self.state()),
    {
        let n = self.audit_entries.len();
        let mut entries: Vec<AuditEntry> = Vec::new();
        let mut i: usize = 0;
        while i < n
            invariant
                n == self.audit_entries@.len(),
                0 <= i <= n,
                entries@.len() == i,
                forall|j: int| 0 <= j < i ==> #[trigger] entries@[j]@ == self.audit_entries@[j]@,
            decreases n - i,
        {
            entries.push(self.audit_entries[i].duplicate());
            i = i + 1;
        }
        assert(records(entries@) =~= records(self.audit_entries@));
        WorkflowResult {
            final_output: self.final_output(),
            step_outputs: self.step_outputs.duplicate(),
            status: self.status,
            audit_entries: entries,
        }
    }

    /// The output of the last successful audit entry, or empty when none succeeded.
    fn final_output(&self) -> (r: String)
        ensures
            r@ == last_success_output(records(self.audit_entries@)),
    {
        let ghost all = records(self.audit_entries@);
        let mut i = self.audit_entries.len();
        assert(all.take(all.len() as int) =~= all);
        while i > 0
            invariant
                0 <= i <= self.audit_entries@.len(),
                all == records(self.audit_entries@),
                last_success_output(all) == last_success_output(all.take(i as int)),
            decreases i,
        {
            let ghost prefix = all.take(i as int);
            assert(prefix.drop_last() =~= all.take(i - 1));
            if self.audit_entries[i - 1].success {
                return self.audit_entries[i - 1].output.clone();
            }
            i = i - 1;
        }
        assert(all.take(0) =~= Seq::<AuditRecord>::empty());
        String::new()
    }

    /// Returns the current status of the workflow.
    pub fn status(&self) -> (r: &WorkflowStatus)
        ensures
            *r == self.state().status,
    {
        &self.status
    }

    /// Returns the audit entries recorded so far.
    pub fn audit_entries(&self) -> (r: &[AuditEntry])
        ensures
            records(r@) == self.state().audit,
    {
        self.audit_entries.as_slice()
    }

    /// Returns the outputs collected so far.
    pub fn step_outputs(&self) -> (r: &StepOutputs)
        ensures
            r@ == self.state().outputs,
    {
        &self.step_outputs
    }
}

} // verus!
