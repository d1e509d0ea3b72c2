//! The decisions of an orchestration run: which steps to launch and with
//! what, how each launch and each finished subagent moves the run on, and
//! how the run ends. The caller performs the launches and the waiting.
use vstd::prelude::*;

use crate::errors::ManagerError;
use crate::names::index_of_name;
use crate::scheduler::{
    blocked_by, completed_model, count_in_state, failed_model, in_state, initial_model, is_terminal,
    lemma_zip_map_index, lemma_zip_map_update, steps_with_state, validation_result, zip_map, DagScheduler,
    DepGraph, Name, SchedulerModel, StepState,
};
use crate::text::{decimal, decimal_string, same_text};

verus! {

/// How the steps of an orchestration are meant to run.
#[derive(Clone, Copy, Debug, PartialEq, Eq, Structural)]
pub enum OrchestrationStrategy {
    Unspecified,
    Sequential,
    Parallel,
    Dag,
}

/// The stored name of a strategy; unspecified means parallel.
pub fn strategy_name(strategy: OrchestrationStrategy) -> (r: &'static str)
    ensures
        r@ == match strategy {
            OrchestrationStrategy::Sequential => "sequential"@,
            OrchestrationStrategy::Dag => "dag"@,
            _ => "parallel"@,
        },
{
    match strategy {
        OrchestrationStrategy::Sequential => "sequential",
        OrchestrationStrategy::Dag => "dag",
        OrchestrationStrategy::Parallel | OrchestrationStrategy::Unspecified => "parallel",
    }
}

/// One step of an orchestration as requested.
#[derive(Debug, Clone)]
pub struct OrchestrationStep {
    pub id: String,
    pub name: String,
    pub prompt: String,
    pub depends_on: Vec<String>,
    /// Empty: the daemon's working directory.
    pub working_directory: String,
    /// Empty: the default model.
    pub model: String,
    pub allowed_tools: Vec<String>,
    pub max_turns: i32,
    pub auto_approve: bool,
}

/// The step IDs of a plan, in order.
pub open spec fn step_ids(steps: Seq<OrchestrationStep>) -> Seq<Name> {
    steps.map_values(|s: OrchestrationStep| s.id@)
}

/// The position of the step that configures `id`: the last step with that
/// ID (a later step replaces an earlier one), or -1 when there is none.
pub open spec fn config_index(steps: Seq<OrchestrationStep>, id: Name) -> int
    decreases steps.len(),
{
    if steps.len() == 0 {
        -1
    } else if steps.last().id@ == id {
        steps.len() - 1
    } else {
        config_index(steps.drop_last(), id)
    }
}

/// The dependency entries of a plan: one per step, where a step replaced by
/// a later one with the same ID contributes no dependencies.
pub open spec fn dep_entries(steps: Seq<OrchestrationStep>) -> DepGraph {
    Seq::new(
        steps.len(),
        |i: int|
            (steps[i].id@, if config_index(steps, steps[i].id@) == i {
                steps[i].depends_on.deep_view()
            } else {
                Seq::empty()
            }),
    )
}

proof fn lemma_config_index_bounds(steps: Seq<OrchestrationStep>, id: Name)
    ensures
        -1 <= config_index(steps, id) < steps.len(),
        config_index(steps, id) >= 0 ==> steps[config_index(steps, id)].id@ == id,
        config_index(steps, id) == -1 <==> !step_ids(steps).contains(id),
    decreases steps.len(),
{
    if steps.len() > 0 {
        lemma_config_index_bounds(steps.drop_last(), id);
        assert(step_ids(steps.drop_last()) =~= step_ids(steps).drop_last());
        if steps.last().id@ == id {
            assert(step_ids(steps)[steps.len() - 1] == id);
        } else if step_ids(steps).contains(id) {
            let j = choose|j: int| 0 <= j < step_ids(steps).len() && step_ids(steps)[j] == id;
            assert(j < steps.len() - 1);
            assert(step_ids(steps.drop_last())[j] == id);
        }
    }
}

/// The position of the step that configures `id`, if any.
fn config_position(steps: &Vec<OrchestrationStep>, id: &String) -> (r: Option<usize>)
    ensures
        match r {
            Some(k) => config_index(steps@, id@) == k as int && k < steps.len(),
            None => config_index(steps@, id@) == -1,
        },
{
    let mut k: usize = steps.len();
    assert(steps@.take(k as int) =~= steps@);
    while k > 0
        invariant
            k <= steps.len(),
            config_index(steps@, id@) == config_index(steps@.take(k as int), id@),
        decreases k,
    {
        assert(steps@.take(k as int).drop_last() =~= steps@.take(k as int - 1));
        if same_text(steps[k - 1].id.as_str(), id.as_str()) {
            return Some(k - 1);
        }
        k = k - 1;
    }
    None
}

fn clone_names(v: &Vec<String>) -> (r: Vec<String>)
    ensures
        r@ == v@,
{
    let mut r: Vec<String> = Vec::new();
    let mut i: usize = 0;
    while i < v.len()
        invariant
            i <= v.len(),
            r@ == v@.take(i as int),
        decreases v.len() - i,
    {
        r.push(v[i].clone());
        assert(r@ =~= v@.take(i as int + 1));
        i = i + 1;
    }
    assert(v@.take(v.len() as int) =~= v@);
    r
}

/// The step IDs and the dependency entries of a plan.
fn plan_graph(steps: &Vec<OrchestrationStep>) -> (r: (Vec<String>, Vec<(String, Vec<String>)>))
    ensures
        r.0.deep_view() == step_ids(steps@),
        r.1.deep_view() == dep_entries(steps@),
{
    let mut ids: Vec<String> = Vec::new();
    let mut entries: Vec<(String, Vec<String>)> = Vec::new();
    let mut i: usize = 0;
    while i < steps.len()
        invariant
            i <= steps.len(),
            ids.deep_view() == step_ids(steps@).take(i as int),
            entries.deep_view() == dep_entries(steps@).take(i as int),
        decreases steps.len() - i,
    {
        let id = steps[i].id.clone();
        let deps = match config_position(steps, &id) {
            Some(k) => if k == i {
                clone_names(&steps[i].depends_on)
            } else {
                Vec::new()
            },
            None => Vec::new(),
        };
        proof {
            lemma_config_index_bounds(steps@, id@);
            assert(deps.deep_view() == dep_entries(steps@)[i as int].1);
        }
        let ghost old_ids = ids.deep_view();
        let ghost old_entries = entries.deep_view();
        let ghost entry = (id@, deps.deep_view());
        ids.push(steps[i].id.clone());
        entries.push((id, deps));
        assert(ids.deep_view() =~= old_ids.push(steps@[i as int].id@));
        assert(entries.deep_view() =~= old_entries.push(entry));
        assert(ids.deep_view() =~= step_ids(steps@).take(i as int + 1));
        assert(entries.deep_view() =~= dep_entries(steps@).take(i as int + 1));
        i = i + 1;
    }
    assert(step_ids(steps@).take(i as int) =~= step_ids(steps@));
    assert(dep_entries(steps@).take(i as int) =~= dep_entries(steps@));
    (ids, entries)
}

// ---------------------------------------------------------------------------
// Counting lemmas
// ---------------------------------------------------------------------------

/// A transition that moves exactly `id` into state `st` adds one to the
/// count of `st`, which stays within the number of steps.
proof fn lemma_count_gains(old: Map<Name, StepState>, new: Map<Name, StepState>, st: StepState, id: Name)
    requires
        old.dom().finite(),
        new.dom() == old.dom(),
        old.dom().contains(id),
        old[id] != st,
        new[id] == st,
        forall|v: Name| old.dom().contains(v) && v != id ==> (new[v] == st <==> old[v] == st),
    ensures
        count_in_state(new, st) == count_in_state(old, st) + 1,
        count_in_state(new, st) <= old.dom().len(),
{
    let a = in_state(old, st);
    let b = in_state(new, st);
    assert(b =~= a.insert(id));
    old.dom().lemma_len_filter(|v: Name| old[v] == st);
    vstd::set::axiom_set_insert_len(a, id);
    vstd::set_lib::lemma_len_subset(b, old.dom());
}

/// A transition that moves `id` neither into nor out of `st`, and no other
/// step either, keeps the count of `st`.
proof fn lemma_count_kept(old: Map<Name, StepState>, new: Map<Name, StepState>, st: StepState, id: Name)
    requires
        new.dom() == old.dom(),
        old.dom().contains(id) ==> (old[id] == st <==> new[id] == st),
        forall|v: Name| old.dom().contains(v) && v != id ==> (new[v] == st <==> old[v] == st),
    ensures
        count_in_state(new, st) == count_in_state(old, st),
{
    assert(in_state(new, st) =~= in_state(old, st));
}

proof fn lemma_zip_map_push<V>(names: Seq<Name>, vals: Seq<V>, k: Name, x: V)
    requires
        names.no_duplicates(),
        names.len() == vals.len(),
        !names.contains(k),
    ensures
        names.push(k).no_duplicates(),
        zip_map(names.push(k), vals.push(x)) == zip_map(names, vals).insert(k, x),
{
    let n2 = names.push(k);
    let v2 = vals.push(x);
    assert forall|i: int, j: int| 0 <= i < n2.len() && 0 <= j < n2.len() && i != j implies n2[i] != n2[j] by {
        if i < names.len() && j < names.len() {
        } else if i == names.len() {
            assert(names.contains(n2[j]) || j == names.len());
        } else {
            assert(names.contains(n2[i]) || i == names.len());
        }
    }
    let a = zip_map(n2, v2);
    let b = zip_map(names, vals).insert(k, x);
    assert forall|q: Name| a.dom().contains(q) <==> b.dom().contains(q) by {
        if q == k {
            assert(n2[names.len() as int] == k);
        }
        if names.contains(q) {
            let i = choose|i: int| 0 <= i < names.len() && names[i] == q;
            assert(n2[i] == q);
        }
        if n2.contains(q) && q != k {
            let i = choose|i: int| 0 <= i < n2.len() && n2[i] == q;
            assert(names[i] == q);
        }
    }
    assert forall|q: Name| a.dom().contains(q) implies a[q] == b[q] by {
        let i = choose|i: int| 0 <= i < n2.len() && n2[i] == q;
        lemma_zip_map_index(n2, v2, i);
        if i < names.len() {
            lemma_zip_map_index(names, vals, i);
        }
    }
    assert(a =~= b);
}

// ---------------------------------------------------------------------------
// The run
// ---------------------------------------------------------------------------

/// The context that a step's prompt carries from its finished
/// dependencies, in dependency order.
pub open spec fn context_prompt(deps: Seq<Name>, results: Map<Name, Seq<char>>) -> Seq<char>
    decreases deps.len(),
{
    if deps.len() == 0 {
        Seq::empty()
    } else {
        let d = deps.last();
        context_prompt(deps.drop_last(), results) + if results.dom().contains(d) {
            "[Context from step "@ + d + "]: "@ + results[d] + "\n\n"@
        } else {
            Seq::empty()
        }
    }
}

/// What the caller is to start for one step.
#[derive(Debug)]
pub struct StepLaunch {
    pub step_id: String,
    /// `<orchestration id>-<step id>`.
    pub subagent_id: String,
    pub name: String,
    /// The step's prompt after the context of its finished dependencies.
    pub prompt: String,
    pub model: Option<String>,
    /// Empty: the daemon's working directory.
    pub working_directory: String,
    pub allowed_tools: Vec<String>,
    pub max_turns: i32,
    pub auto_approve: bool,
}

/// What the run asks of its caller next.
#[derive(Debug)]
pub enum RunAction {
    /// Wait until a subagent finishes.
    Wait,
    /// The run is over.
    Finish,
    /// Start these steps.
    Launch(Vec<StepLaunch>),
}

/// What an orchestration reports to its watchers.
#[derive(Debug)]
pub enum OrchestrationEvent {
    StepStarted { step_id: String, subagent_id: String, name: String },
    StepCompleted { step_id: String, result_summary: String, completed_count: i32, total_count: i32 },
    StepFailed { step_id: String, error_message: String, blocked_steps: Vec<String> },
    Completed { total_steps: i32, succeeded: i32, failed: i32 },
    Failed { error_message: String, completed_steps: i32, failed_steps: i32 },
}

/// The abstract state of a run.
pub struct RunView {
    pub orchestration_id: Seq<char>,
    /// The steps as requested.
    pub steps: Seq<OrchestrationStep>,
    pub scheduler: SchedulerModel,
    /// The result summaries of the completed steps.
    pub results: Map<Name, Seq<char>>,
    pub completed: i32,
    pub failed: i32,
    pub total: i32,
}

impl RunView {
    /// The run after step `id` is started.
    pub open spec fn after_start(self, id: Name) -> RunView {
        RunView {
            scheduler: self.scheduler.with_states(self.scheduler.states.insert(id, StepState::Running)),
            ..self
        }
    }

    /// The run after step `id` completes with `summary`.
    pub open spec fn after_completion(self, id: Name, summary: Seq<char>) -> RunView {
        RunView {
            scheduler: completed_model(self.scheduler, id),
            results: self.results.insert(id, summary),
            completed: (self.completed + 1) as i32,
            ..self
        }
    }

    /// The run after step `id` fails.
    pub open spec fn after_failure(self, id: Name) -> RunView {
        RunView { scheduler: failed_model(self.scheduler, id), failed: (self.failed + 1) as i32, ..self }
    }
}

/// The summary a completed step reports: its text, or nothing.
pub open spec fn summary_text(summary: Option<String>) -> Seq<char> {
    match summary {
        Some(t) => t@,
        None => Seq::empty(),
    }
}

/// The error a failed step reports: its summary, or `Unknown failure`.
pub open spec fn failure_text(summary: Option<String>) -> Seq<char> {
    match summary {
        Some(t) => t@,
        None => "Unknown failure"@,
    }
}

/// The ready steps that have a configuration, in order.
pub open spec fn configured(steps: Seq<OrchestrationStep>, ready: Seq<Name>) -> Seq<Name>
    decreases ready.len(),
{
    if ready.len() == 0 {
        Seq::empty()
    } else {
        let rest = configured(steps, ready.drop_last());
        if config_index(steps, ready.last()) >= 0 {
            rest.push(ready.last())
        } else {
            rest
        }
    }
}

/// `l` is the launch of step `id` in run `v`.
pub open spec fn launch_of(v: RunView, id: Name, l: StepLaunch) -> bool {
    let c = v.steps[config_index(v.steps, id)];
    &&& l.step_id@ == id
    &&& l.subagent_id@ == v.orchestration_id + "-"@ + id
    &&& l.name == c.name
    &&& l.prompt@ == context_prompt(c.depends_on.deep_view(), v.results) + c.prompt@
    &&& l.model == (if c.model@.len() == 0 {
        None
    } else {
        Some(c.model)
    })
    &&& l.working_directory == c.working_directory
    &&& l.allowed_tools@ == c.allowed_tools@
    &&& l.max_turns == c.max_turns
    &&& l.auto_approve == c.auto_approve
}

/// The steps of `v` that are ready.
pub open spec fn ready_steps(v: RunView) -> Seq<Name> {
    steps_with_state(v.scheduler.steps, v.scheduler.states, StepState::Ready)
}

/// Every step of `v` has reached a terminal state.
pub open spec fn all_terminal(v: RunView) -> bool {
    forall|n: Name| #[trigger] v.scheduler.states.dom().contains(n) ==> is_terminal(v.scheduler.states[n])
}

/// The state of step `id` in `v`, if it is a step.
pub open spec fn state_of(v: RunView, id: Name) -> Option<StepState> {
    if v.scheduler.states.dom().contains(id) {
        Some(v.scheduler.states[id])
    } else {
        None
    }
}

/// The run of one orchestration.
#[derive(Debug)]
pub struct OrchestrationRun {
    orchestration_id: String,
    steps: Vec<OrchestrationStep>,
    scheduler: DagScheduler,
    result_ids: Vec<String>,
    result_texts: Vec<String>,
    completed_count: i32,
    failed_count: i32,
    total: i32,
}

impl View for OrchestrationRun {
    type V = RunView;

    closed spec fn view(&self) -> RunView {
        RunView {
            orchestration_id: self.orchestration_id@,
            steps: self.steps@,
            scheduler: self.scheduler@,
            results: zip_map(self.result_ids.deep_view(), self.result_texts.deep_view()),
            completed: self.completed_count,
            failed: self.failed_count,
            total: self.total,
        }
    }
}

impl OrchestrationRun {
    /// The internal consistency of a run: the counts are the numbers of
    /// completed and failed steps.
    pub closed spec fn wf(&self) -> bool {
        &&& self.scheduler.wf()
        &&& self.scheduler@.steps == step_ids(self.steps@)
        &&& self.steps@.len() <= i32::MAX
        &&& self.total == self.steps@.len()
        &&& self.result_ids.deep_view().no_duplicates()
        &&& self.result_ids.len() == self.result_texts.len()
        &&& self.completed_count == count_in_state(self.scheduler@.states, StepState::Completed)
        &&& self.failed_count == count_in_state(self.scheduler@.states, StepState::Failed)
    }

    /// The counts a run reports are the numbers of its completed and
    /// failed steps, and its total is the number of steps requested.
    pub proof fn law_counts_are_step_counts(&self)
        requires
            self.wf(),
        ensures
            self@.completed == count_in_state(self@.scheduler.states, StepState::Completed),
            self@.failed == count_in_state(self@.scheduler.states, StepState::Failed),
            self@.total == self@.steps.len(),
            self@.scheduler.steps == step_ids(self@.steps),
    {
    }

    /// Validates the plan and starts a run with no step started yet.
    pub fn new(orchestration_id: String, steps: Vec<OrchestrationStep>) -> (r: Result<
        OrchestrationRun,
        ManagerError,
    >)
        requires
            steps.len() <= i32::MAX,
        ensures
            match validation_result(step_ids(steps@), dep_entries(steps@)) {
                Ok(()) => r matches Ok(run) && run.wf() && run@ == (RunView {
                    orchestration_id: orchestration_id@,
                    steps: steps@,
                    scheduler: initial_model(step_ids(steps@), dep_entries(steps@)),
                    results: Map::empty(),
                    completed: 0,
                    failed: 0,
                    total: steps.len() as i32,
                }),
                Err(m) => r matches Err(ManagerError::Validation { message }) && message@ == m,
            },
    {
        let (ids, entries) = plan_graph(&steps);
        let scheduler = match DagScheduler::new(ids, entries) {
            Ok(s) => s,
            Err(e) => {
                return Err(e);
            },
        };
        let total = steps.len() as i32;
        let run = OrchestrationRun {
            orchestration_id,
            steps,
            scheduler,
            result_ids: Vec::new(),
            result_texts: Vec::new(),
            completed_count: 0,
            failed_count: 0,
            total,
        };
        proof {
            let st = run.scheduler@.states;
            assert(in_state(st, StepState::Completed) =~= Set::empty());
            assert(in_state(st, StepState::Failed) =~= Set::empty());
            assert(run@.results =~= Map::empty());
        }
        Ok(run)
    }
}

impl OrchestrationRun {
    /// `<orchestration id>-<step id>`: the subagent that runs a step.
    pub fn subagent_id(&self, step_id: &str) -> (r: String)
        ensures
            r@ == self@.orchestration_id + "-"@ + step_id@,
    {
        let mut r = self.orchestration_id.clone();
        r.append("-");
        r.append(step_id);
        r
    }

    /// The steps currently running.
    pub fn running_steps(&self) -> (r: Vec<String>)
        requires
            self.wf(),
        ensures
            r.deep_view() == steps_with_state(self@.scheduler.steps, self@.scheduler.states, StepState::Running),
    {
        self.scheduler.running_ids()
    }

    /// The prompt of the step at position `k`, after the context of its
    /// finished dependencies.
    fn prompt_for(&self, k: usize) -> (r: String)
        requires
            self.wf(),
            k < self.steps.len(),
        ensures
            r@ == context_prompt(self.steps@[k as int].depends_on.deep_view(), self@.results)
                + self.steps@[k as int].prompt@,
    {
        let deps = &self.steps[k].depends_on;
        let ghost dv = deps.deep_view();
        let ghost results = self@.results;
        let ghost idv = self.result_ids.deep_view();
        let ghost tdv = self.result_texts.deep_view();
        let mut p = String::new();
        let mut i: usize = 0;
        while i < deps.len()
            invariant
                self.wf(),
                i <= deps.len(),
                dv == deps.deep_view(),
                results == self@.results,
                idv == self.result_ids.deep_view(),
                tdv == self.result_texts.deep_view(),
                p@ == context_prompt(dv.take(i as int), results),
            decreases deps.len() - i,
        {
            assert(dv.take(i as int + 1).drop_last() =~= dv.take(i as int));
            assert(dv.take(i as int + 1).last() == deps[i as int]@);
            match index_of_name(&self.result_ids, &deps[i]) {
                Some(j) => {
                    proof {
                        lemma_zip_map_index(idv, tdv, j as int);
                    }
                    p.append("[Context from step ");
                    p.append(deps[i].as_str());
                    p.append("]: ");
                    p.append(self.result_texts[j].as_str());
                    p.append("\n\n");
                },
                None => {},
            }
            i = i + 1;
        }
        assert(dv.take(i as int) =~= dv);
        p.append(self.steps[k].prompt.as_str());
        p
    }

    /// The launch of the step configured at position `k`.
    fn launch_at(&self, id: &String, k: usize) -> (l: StepLaunch)
        requires
            self.wf(),
            k < self.steps.len(),
            config_index(self@.steps, id@) == k,
        ensures
            launch_of(self@, id@, l),
    {
        let c = &self.steps[k];
        let model = if c.model.as_str().is_empty() {
            None
        } else {
            Some(c.model.clone())
        };
        StepLaunch {
            step_id: id.clone(),
            subagent_id: self.subagent_id(id.as_str()),
            name: c.name.clone(),
            prompt: self.prompt_for(k),
            model,
            working_directory: c.working_directory.clone(),
            allowed_tools: clone_names(&c.allowed_tools),
            max_turns: c.max_turns,
            auto_approve: c.auto_approve,
        }
    }

    /// What to do next: launch the ready steps; with none ready, wait while
    /// steps are still out and nothing has failed, and finish otherwise.
    pub fn next_action(&self) -> (r: RunAction)
        requires
            self.wf(),
        ensures
            match r {
                RunAction::Wait => ready_steps(self@).len() == 0 && !all_terminal(self@) && self@.failed == 0,
                RunAction::Finish => ready_steps(self@).len() == 0 && (all_terminal(self@) || self@.failed != 0),
                RunAction::Launch(ls) => {
                    let planned = configured(self@.steps, ready_steps(self@));
                    &&& ready_steps(self@).len() > 0
                    &&& ls@.len() == planned.len()
                    &&& forall|i: int| 0 <= i < ls@.len() ==> launch_of(self@, planned[i], #[trigger] ls@[i])
                },
            },
    {
        let ready = self.scheduler.next_ready();
        if ready.len() == 0 {
            if !self.scheduler.is_complete() && self.failed_count == 0 {
                return RunAction::Wait;
            }
            return RunAction::Finish;
        }
        let ghost rv = ready.deep_view();
        let mut launches: Vec<StepLaunch> = Vec::new();
        let mut i: usize = 0;
        while i < ready.len()
            invariant
                self.wf(),
                i <= ready.len(),
                rv == ready.deep_view(),
                launches@.len() == configured(self@.steps, rv.take(i as int)).len(),
                forall|t: int|
                    0 <= t < launches@.len() ==> launch_of(
                        self@,
                        configured(self@.steps, rv.take(i as int))[t],
                        #[trigger] launches@[t],
                    ),
            decreases ready.len() - i,
        {
            assert(rv.take(i as int + 1).drop_last() =~= rv.take(i as int));
            assert(rv.take(i as int + 1).last() == ready[i as int]@);
            match config_position(&self.steps, &ready[i]) {
                Some(k) => {
                    let l = self.launch_at(&ready[i], k);
                    launches.push(l);
                },
                None => {},
            }
            i = i + 1;
        }
        assert(rv.take(i as int) =~= rv);
        RunAction::Launch(launches)
    }
}

impl OrchestrationRun {
    /// Records that a launch started its subagent: a ready step becomes
    /// running and is reported started. Any other step is left alone.
    pub fn launch_started(&mut self, launch: &StepLaunch) -> (r: Option<OrchestrationEvent>)
        requires
            old(self).wf(),
        ensures
            final(self).wf(),
            match r {
                Some(OrchestrationEvent::StepStarted { step_id, subagent_id, name }) => {
                    &&& state_of(old(self)@, launch.step_id@) == Some(StepState::Ready)
                    &&& step_id == launch.step_id
                    &&& subagent_id == launch.subagent_id
                    &&& name == launch.name
                    &&& final(self)@ == old(self)@.after_start(launch.step_id@)
                },
                None => state_of(old(self)@, launch.step_id@) != Some(StepState::Ready) && final(self)@ == old(
                    self,
                )@,
                _ => false,
            },
    {
        match self.scheduler.step_state(launch.step_id.as_str()) {
            Some(StepState::Ready) => {},
            _ => {
                return None;
            },
        }
        let ghost old_states = self.scheduler@.states;
        let ghost id = launch.step_id@;
        self.scheduler.mark_running(launch.step_id.as_str());
        proof {
            assert(self.scheduler@.states.dom() =~= old_states.dom());
            lemma_count_kept(old_states, self.scheduler@.states, StepState::Completed, id);
            lemma_count_kept(old_states, self.scheduler@.states, StepState::Failed, id);
        }
        Some(
            OrchestrationEvent::StepStarted {
                step_id: launch.step_id.clone(),
                subagent_id: launch.subagent_id.clone(),
                name: launch.name.clone(),
            },
        )
    }

    /// Records that a launch could not start its subagent: a ready step
    /// fails, its downstream steps are blocked, and the failure is reported
    /// with `error` and the blocked steps. Any other step is left alone.
    pub fn launch_failed(&mut self, launch: &StepLaunch, error: String) -> (r: Option<OrchestrationEvent>)
        requires
            old(self).wf(),
        ensures
            final(self).wf(),
            match r {
                Some(OrchestrationEvent::StepFailed { step_id, error_message, blocked_steps }) => {
                    &&& state_of(old(self)@, launch.step_id@) == Some(StepState::Ready)
                    &&& step_id == launch.step_id
                    &&& error_message == error
                    &&& blocked_steps.deep_view().no_duplicates()
                    &&& blocked_steps.deep_view().to_set() == blocked_by(old(self)@.scheduler, launch.step_id@)
                    &&& final(self)@ == old(self)@.after_failure(launch.step_id@)
                },
                None => state_of(old(self)@, launch.step_id@) != Some(StepState::Ready) && final(self)@ == old(
                    self,
                )@,
                _ => false,
            },
    {
        match self.scheduler.step_state(launch.step_id.as_str()) {
            Some(StepState::Ready) => {},
            _ => {
                return None;
            },
        }
        let blocked = self.fail_step(launch.step_id.as_str());
        Some(
            OrchestrationEvent::StepFailed {
                step_id: launch.step_id.clone(),
                error_message: error,
                blocked_steps: blocked,
            },
        )
    }

    /// Fails a step that is ready or running, counting the failure.
    fn fail_step(&mut self, step_id: &str) -> (blocked: Vec<String>)
        requires
            old(self).wf(),
            state_of(old(self)@, step_id@) == Some(StepState::Ready) || state_of(old(self)@, step_id@) == Some(
                StepState::Running,
            ),
        ensures
            final(self).wf(),
            blocked.deep_view().no_duplicates(),
            blocked.deep_view().to_set() == blocked_by(old(self)@.scheduler, step_id@),
            final(self)@ == old(self)@.after_failure(step_id@),
    {
        let ghost old_states = self.scheduler@.states;
        proof {
            self.scheduler.lemma_state_domain();
        }
        let blocked = self.scheduler.mark_failed(step_id);
        proof {
            assert(self.scheduler@.states.dom() =~= old_states.dom());
            lemma_count_gains(old_states, self.scheduler@.states, StepState::Failed, step_id@);
            lemma_count_kept(old_states, self.scheduler@.states, StepState::Completed, step_id@);
        }
        self.failed_count = self.failed_count + 1;
        blocked
    }

    /// Records what became of a running step's subagent, as its stored
    /// status says: `completed` completes the step with the summary (empty
    /// when there is none) as its result; `failed` or `cancelled` fails it
    /// with the summary (or `Unknown failure`) as the error and blocks its
    /// downstream steps. Any other status, or a step that is not running,
    /// leaves the run alone.
    pub fn step_finished(&mut self, step_id: &str, status: &str, summary: Option<String>) -> (r: Option<
        OrchestrationEvent,
    >)
        requires
            old(self).wf(),
        ensures
            final(self).wf(),
            match r {
                Some(OrchestrationEvent::StepCompleted { step_id: s, result_summary, completed_count, total_count }) => {
                    &&& state_of(old(self)@, step_id@) == Some(StepState::Running)
                    &&& status@ == "completed"@
                    &&& s@ == step_id@
                    &&& result_summary@ == summary_text(summary)
                    &&& completed_count == old(self)@.completed + 1
                    &&& total_count == old(self)@.total
                    &&& final(self)@ == old(self)@.after_completion(step_id@, result_summary@)
                },
                Some(OrchestrationEvent::StepFailed { step_id: s, error_message, blocked_steps }) => {
                    &&& state_of(old(self)@, step_id@) == Some(StepState::Running)
                    &&& status@ != "completed"@
                    &&& (status@ == "failed"@ || status@ == "cancelled"@)
                    &&& s@ == step_id@
                    &&& error_message@ == failure_text(summary)
                    &&& blocked_steps.deep_view().no_duplicates()
                    &&& blocked_steps.deep_view().to_set() == blocked_by(old(self)@.scheduler, step_id@)
                    &&& final(self)@ == old(self)@.after_failure(step_id@)
                },
                None => {
                    &&& final(self)@ == old(self)@
                    &&& (state_of(old(self)@, step_id@) != Some(StepState::Running) || (status@ != "completed"@
                        && status@ != "failed"@ && status@ != "cancelled"@))
                },
                _ => false,
            },
    {
        match self.scheduler.step_state(step_id) {
            Some(StepState::Running) => {},
            _ => {
                return None;
            },
        }
        if same_text(status, "completed") {
            let text = match summary {
                Some(t) => t,
                None => String::new(),
            };
            let ghost old_view = self@;
            self.record_result(step_id, text.clone());
            let ghost old_states = self.scheduler@.states;
            proof {
                self.scheduler.lemma_state_domain();
            }
            let _ = self.scheduler.mark_completed(step_id);
            proof {
                assert(self.scheduler@.states.dom() =~= old_states.dom());
                lemma_count_gains(old_states, self.scheduler@.states, StepState::Completed, step_id@);
                lemma_count_kept(old_states, self.scheduler@.states, StepState::Failed, step_id@);
            }
            self.completed_count = self.completed_count + 1;
            assert(self@ == old_view.after_completion(step_id@, text@));
            Some(
                OrchestrationEvent::StepCompleted {
                    step_id: step_id.to_owned(),
                    result_summary: text,
                    completed_count: self.completed_count,
                    total_count: self.total,
                },
            )
        } else if same_text(status, "failed") || same_text(status, "cancelled") {
            let message = match summary {
                Some(t) => t,
                None => "Unknown failure".to_owned(),
            };
            let blocked = self.fail_step(step_id);
            Some(
                OrchestrationEvent::StepFailed {
                    step_id: step_id.to_owned(),
                    error_message: message,
                    blocked_steps: blocked,
                },
            )
        } else {
            None
        }
    }

    /// Stores the result summary of a step, replacing an earlier one.
    fn record_result(&mut self, step_id: &str, text: String)
        requires
            old(self).wf(),
        ensures
            final(self).wf(),
            final(self)@ == (RunView { results: old(self)@.results.insert(step_id@, text@), ..old(self)@ }),
    {
        let id = step_id.to_owned();
        let ghost idv = self.result_ids.deep_view();
        let ghost tdv = self.result_texts.deep_view();
        match index_of_name(&self.result_ids, &id) {
            Some(j) => {
                self.result_texts.set(j, text);
                proof {
                    lemma_zip_map_update(idv, tdv, j as int, text@);
                    assert(self.result_texts.deep_view() =~= tdv.update(j as int, text@));
                }
            },
            None => {
                self.result_ids.push(id);
                self.result_texts.push(text);
                proof {
                    lemma_zip_map_push(idv, tdv, step_id@, text@);
                    assert(self.result_ids.deep_view() =~= idv.push(step_id@));
                    assert(self.result_texts.deep_view() =~= tdv.push(text@));
                }
            },
        }
    }

    /// How the run ended: `failed` with the number of failed steps when any
    /// step failed, `completed` otherwise.
    pub fn outcome(&self) -> (r: (&'static str, OrchestrationEvent))
        requires
            self.wf(),
        ensures
            self@.failed > 0 ==> r.0@ == "failed"@ && match r.1 {
                OrchestrationEvent::Failed { error_message, completed_steps, failed_steps } => {
                    &&& error_message@ == decimal(self@.failed as nat) + " step(s) failed"@
                    &&& completed_steps == self@.completed
                    &&& failed_steps == self@.failed
                },
                _ => false,
            },
            self@.failed <= 0 ==> r.0@ == "completed"@ && r.1 == (OrchestrationEvent::Completed {
                total_steps: self@.total,
                succeeded: self@.completed,
                failed: 0,
            }),
    {
        if self.failed_count > 0 {
            let mut message = decimal_string(self.failed_count as u64);
            message.append(" step(s) failed");
            (
                "failed",
                OrchestrationEvent::Failed {
                    error_message: message,
                    completed_steps: self.completed_count,
                    failed_steps: self.failed_count,
                },
            )
        } else {
            (
                "completed",
                OrchestrationEvent::Completed {
                    total_steps: self.total,
                    succeeded: self.completed_count,
                    failed: 0,
                },
            )
        }
    }
}


/// The context of a list of dependencies is the context of its first part
/// followed by that of the rest: adding dependencies appends their sections
/// and removes nothing.
pub proof fn law_context_concatenates(a: Seq<Name>, b: Seq<Name>, results: Map<Name, Seq<char>>)
    ensures
        context_prompt(a + b, results) == context_prompt(a, results) + context_prompt(b, results),
    decreases b.len(),
{
    if b.len() == 0 {
        assert(a + b =~= a);
        assert(context_prompt(a, results) + Seq::<char>::empty() =~= context_prompt(a, results));
    } else {
        law_context_concatenates(a, b.drop_last(), results);
        assert((a + b).drop_last() =~= a + b.drop_last());
        assert((a + b).last() == b.last());
        let d = b.last();
        let sec = if results.dom().contains(d) {
            "[Context from step "@ + d + "]: "@ + results[d] + "\n\n"@
        } else {
            Seq::empty()
        };
        assert(context_prompt(a, results) + context_prompt(b.drop_last(), results) + sec =~= context_prompt(a, results)
            + (context_prompt(b.drop_last(), results) + sec));
    }
}

/// One dependency contributes `[Context from step d]: <result>` and a blank
/// line when it has a result, and nothing when it has none.
pub proof fn law_context_of_one(d: Name, results: Map<Name, Seq<char>>)
    ensures
        context_prompt(seq![d], results) == if results.dom().contains(d) {
            "[Context from step "@ + d + "]: "@ + results[d] + "\n\n"@
        } else {
            Seq::<char>::empty()
        },
{
    let one = seq![d];
    assert(one.drop_last() =~= Seq::<Name>::empty());
    assert(one.last() == d);
    assert(context_prompt(Seq::<Name>::empty(), results) == Seq::<char>::empty());
    assert(context_prompt(one.drop_last(), results) == Seq::<char>::empty());
    let sec = if results.dom().contains(d) {
        "[Context from step "@ + d + "]: "@ + results[d] + "\n\n"@
    } else {
        Seq::<char>::empty()
    };
    assert(context_prompt(one, results) == context_prompt(one.drop_last(), results) + sec);
    assert(Seq::<char>::empty() + sec =~= sec);
}

} // verus!
