//! The dependency-aware executor: which commands a run executes, in which
//! order, and how it ends.

use vstd::prelude::*;
use vstd::seq_lib::*;
use vstd::set_lib::*;
use vstd::string::*;

use crate::entries::{keys_unique, map_of};
use crate::env::{lemma_no_dollar_unchanged, name_marks, substituted, EnvParser};
use crate::listing::{by_name, no_tasks_line, table, task_table};
use crate::tasks::{Task, TaskFile, TaskModel};
use crate::text::{
    chars_of, lemma_blank_has_no_words, push_signed, signed_decimal, split_words, views, white_space,
    words,
};

verus! {

/// Why a run failed, over plain sequences.
pub enum Fault {
    TaskNotFound(Seq<char>),
    /// A dependency that is not in the manifest, and the task naming it.
    DependencyNotFound(Seq<char>, Seq<char>),
    CircularDependency(Seq<char>),
    EmptyCommand(Seq<char>),
    /// The task whose process could not be started, and why.
    SpawnFailure(Seq<char>, Seq<char>),
    /// The task whose process failed, and its exit code.
    NonZeroExit(Seq<char>, i32),
}

/// Why a run failed.
#[derive(Debug)]
pub enum RunError {
    TaskNotFound { task: String },
    DependencyNotFound { dependency: String, task: String },
    CircularDependency { task: String },
    EmptyCommand { task: String },
    SpawnFailure { task: String, reason: String },
    NonZeroExit { task: String, code: i32 },
}

impl View for RunError {
    type V = Fault;

    open spec fn view(&self) -> Fault {
        match self {
            RunError::TaskNotFound { task } => Fault::TaskNotFound(task@),
            RunError::DependencyNotFound { dependency, task } => Fault::DependencyNotFound(
                dependency@,
                task@,
            ),
            RunError::CircularDependency { task } => Fault::CircularDependency(task@),
            RunError::EmptyCommand { task } => Fault::EmptyCommand(task@),
            RunError::SpawnFailure { task, reason } => Fault::SpawnFailure(task@, reason@),
            RunError::NonZeroExit { task, code } => Fault::NonZeroExit(task@, *code),
        }
    }
}

/// The message that tells a user of a fault.
pub open spec fn fault_message(f: Fault) -> Seq<char> {
    match f {
        Fault::TaskNotFound(t) => "Task '"@ + t + "' not found in Taskfile"@,
        Fault::DependencyNotFound(d, t) => "Dependency '"@ + d + "' not found for task '"@ + t
            + "'"@,
        Fault::CircularDependency(t) => "Circular dependency detected for task '"@ + t + "'"@,
        Fault::EmptyCommand(t) => "Empty command for task '"@ + t + "'"@,
        Fault::SpawnFailure(t, r) => "Task '"@ + t + "' could not be started: "@ + r,
        Fault::NonZeroExit(t, c) => "Task '"@ + t + "' failed with exit code "@ + signed_decimal(
            c as int,
        ),
    }
}

impl RunError {
    /// The message that tells a user of this error.
    pub fn message(&self) -> (r: String)
        ensures
            r@ == fault_message(self@),
    {
        let mut r = String::new();
        match self {
            RunError::TaskNotFound { task } => {
                r.append("Task '");
                r.append(task.as_str());
                r.append("' not found in Taskfile");
            },
            RunError::DependencyNotFound { dependency, task } => {
                r.append("Dependency '");
                r.append(dependency.as_str());
                r.append("' not found for task '");
                r.append(task.as_str());
                r.append("'");
            },
            RunError::CircularDependency { task } => {
                r.append("Circular dependency detected for task '");
                r.append(task.as_str());
                r.append("'");
            },
            RunError::EmptyCommand { task } => {
                r.append("Empty command for task '");
                r.append(task.as_str());
                r.append("'");
            },
            RunError::SpawnFailure { task, reason } => {
                r.append("Task '");
                r.append(task.as_str());
                r.append("' could not be started: ");
                r.append(reason.as_str());
            },
            RunError::NonZeroExit { task, code } => {
                r.append("Task '");
                r.append(task.as_str());
                r.append("' failed with exit code ");
                push_signed(&mut r, *code);
            },
        }
        r
    }
}

/// The view of an optional error.
pub open spec fn fault_of(r: Option<RunError>) -> Option<Fault> {
    match r {
        Some(e) => Some(e@),
        None => None,
    }
}

/// The outcome of walking a dependency chain: the tasks whose commands run,
/// in order, and the fault that ends the walk after them, if any.
pub struct Walk {
    pub run: Seq<Seq<char>>,
    pub fault: Option<Fault>,
}

/// The command words of a task once variables are substituted.
pub open spec fn command_words(vars: Map<Seq<char>, Seq<char>>, t: TaskModel) -> Seq<Seq<char>> {
    words(substituted(vars, t.cmd))
}

/// Walks task `name` with the tasks of `stack` in progress: a task already
/// in progress is a cycle; otherwise its dependencies are walked in order,
/// each checked to exist first, and the first fault ends the walk; then the
/// task's own command runs, unless it has no words. (A stack of distinct
/// tasks of the manifest is shorter than the manifest when `name` is a
/// task not on it, so the third case never arises from an empty stack.)
pub open spec fn walk_task(
    m: Map<Seq<char>, TaskModel>,
    vars: Map<Seq<char>, Seq<char>>,
    name: Seq<char>,
    stack: Seq<Seq<char>>,
) -> Walk
    decreases m.dom().len() - stack.len(), m[name].deps.len() + 1,
{
    if stack.contains(name) {
        Walk { run: seq![], fault: Some(Fault::CircularDependency(name)) }
    } else if !m.contains_key(name) {
        Walk { run: seq![], fault: Some(Fault::TaskNotFound(name)) }
    } else if stack.len() >= m.dom().len() {
        Walk { run: seq![], fault: Some(Fault::CircularDependency(name)) }
    } else {
        let w = walk_deps(m, vars, name, stack, m[name].deps.len() as int);
        if w.fault is Some {
            w
        } else if command_words(vars, m[name]).len() == 0 {
            Walk { run: w.run, fault: Some(Fault::EmptyCommand(name)) }
        } else {
            Walk { run: w.run.push(name), fault: None }
        }
    }
}

/// Walks the first `k` dependencies of task `name`, with `stack` in
/// progress below it.
pub open spec fn walk_deps(
    m: Map<Seq<char>, TaskModel>,
    vars: Map<Seq<char>, Seq<char>>,
    name: Seq<char>,
    stack: Seq<Seq<char>>,
    k: int,
) -> Walk
    decreases m.dom().len() - stack.len(), k,
{
    if k <= 0 || !m.contains_key(name) || k > m[name].deps.len() || stack.len() >= m.dom().len() {
        Walk { run: seq![], fault: None }
    } else {
        let w = walk_deps(m, vars, name, stack, k - 1);
        if w.fault is Some {
            w
        } else {
            let d = m[name].deps[k - 1];
            if !m.contains_key(d) {
                Walk { run: w.run, fault: Some(Fault::DependencyNotFound(d, name)) }
            } else {
                let w2 = walk_task(m, vars, d, stack.push(name));
                Walk { run: w.run + w2.run, fault: w2.fault }
            }
        }
    }
}

/// Walking task `name` from an empty stack.
pub open spec fn walk(
    m: Map<Seq<char>, TaskModel>,
    vars: Map<Seq<char>, Seq<char>>,
    name: Seq<char>,
) -> Walk {
    walk_task(m, vars, name, seq![])
}

/// Once a fault ends the walk of some dependencies, walking more of them
/// changes nothing.
proof fn lemma_deps_stop(
    m: Map<Seq<char>, TaskModel>,
    vars: Map<Seq<char>, Seq<char>>,
    name: Seq<char>,
    stack: Seq<Seq<char>>,
    k: int,
    k2: int,
)
    requires
        0 <= k <= k2 <= m[name].deps.len(),
        walk_deps(m, vars, name, stack, k).fault is Some,
    ensures
        walk_deps(m, vars, name, stack, k2) == walk_deps(m, vars, name, stack, k),
    decreases k2 - k,
{
    if k2 > k {
        lemma_deps_stop(m, vars, name, stack, k, k2 - 1);
    }
}

/// A stack of tasks in progress: distinct tasks of the manifest.
pub open spec fn stack_ok(m: Map<Seq<char>, TaskModel>, s: Seq<Seq<char>>) -> bool {
    s.no_duplicates() && forall|i: int| 0 <= i < s.len() ==> m.contains_key(#[trigger] s[i])
}

proof fn lemma_stack_room(m: Map<Seq<char>, TaskModel>, s: Seq<Seq<char>>, name: Seq<char>)
    requires
        m.dom().finite(),
        stack_ok(m, s),
        m.contains_key(name),
        !s.contains(name),
    ensures
        s.len() < m.dom().len(),
        stack_ok(m, s.push(name)),
{
    let t = s.push(name);
    assert forall|i: int, j: int| 0 <= i < t.len() && 0 <= j < t.len() && i != j implies t[i]
        != t[j] by {
        if i < s.len() && j < s.len() {
            assert(t[i] == s[i] && t[j] == s[j]);
        } else if i < s.len() {
            assert(t[i] == s[i]);
        } else if j < s.len() {
            assert(t[j] == s[j]);
        }
    }
    assert(t.no_duplicates());
    t.unique_seq_to_set();
    assert(t.to_set().subset_of(m.dom()));
    lemma_len_subset(t.to_set(), m.dom());
}

/// One command to execute: the task, its command line once variables are
/// substituted, and that line's words.
#[derive(Debug)]
pub struct Step {
    pub task: String,
    pub command: String,
    pub words: Vec<String>,
}

/// The task names of a list of steps.
pub open spec fn step_tasks(steps: Seq<Step>) -> Seq<Seq<char>> {
    steps.map_values(|s: Step| s.task@)
}

/// A step of a manifest's task, as the executor builds it.
pub open spec fn step_ok(m: Map<Seq<char>, TaskModel>, vars: Map<Seq<char>, Seq<char>>, s: Step) -> bool {
    &&& m.contains_key(s.task@)
    &&& s.command@ == substituted(vars, m[s.task@].cmd)
    &&& views(s.words@) == words(s.command@)
    &&& s.words@.len() > 0
}

/// A planned run: the steps to execute in order, and the fault that ends
/// the run after them, if any.
#[derive(Debug)]
pub struct RunPlan {
    pub steps: Vec<Step>,
    pub fault: Option<RunError>,
}

/// Runs the tasks of a manifest with an environment.
#[derive(Debug)]
pub struct TaskRunner {
    taskfile: TaskFile,
    env_parser: EnvParser,
}

impl TaskRunner {
    pub closed spec fn wf(&self) -> bool {
        self.taskfile.wf() && self.env_parser.wf()
    }

    /// The tasks.
    pub closed spec fn tasks(&self) -> Map<Seq<char>, TaskModel> {
        self.taskfile@
    }

    /// The environment variables that substitution reads.
    pub closed spec fn vars(&self) -> Map<Seq<char>, Seq<char>> {
        self.env_parser@
    }

    /// A runner over `taskfile` whose environment starts empty, with the
    /// manifest's environment files declared but not yet loaded.
    pub fn new(taskfile: TaskFile) -> (r: TaskRunner)
        requires
            taskfile.wf(),
        ensures
            r.wf(),
            r.tasks() == taskfile@,
            r.vars() == Map::<Seq<char>, Seq<char>>::empty(),
    {
        let env_parser = match taskfile.env() {
            Some(c) => EnvParser::with_config(c.clone()),
            None => EnvParser::new(),
        };
        TaskRunner { taskfile, env_parser }
    }

    /// A runner over `taskfile` that substitutes from `env_parser`.
    pub fn with_env(taskfile: TaskFile, env_parser: EnvParser) -> (r: TaskRunner)
        requires
            taskfile.wf(),
            env_parser.wf(),
        ensures
            r.wf(),
            r.tasks() == taskfile@,
            r.vars() == env_parser@,
    {
        TaskRunner { taskfile, env_parser }
    }

    /// The environment that substitution reads.
    pub fn env_parser(&self) -> (r: &EnvParser)
        requires
            self.wf(),
        ensures
            r.wf(),
            r@ == self.vars(),
    {
        &self.env_parser
    }

    /// The manifest.
    pub fn taskfile(&self) -> (r: &TaskFile)
        requires
            self.wf(),
        ensures
            r.wf(),
            r@ == self.tasks(),
    {
        &self.taskfile
    }

    /// Whether the manifest has a task named `task_name`.
    pub fn has_task(&self, task_name: &str) -> (r: bool)
        requires
            self.wf(),
        ensures
            r == self.tasks().contains_key(task_name@),
    {
        self.taskfile.find(&task_name.to_owned()).is_some()
    }

    /// The task named `task_name`.
    pub fn get_task(&self, task_name: &str) -> (r: Option<&Task>)
        requires
            self.wf(),
        ensures
            match r {
                Some(t) => self.tasks().contains_key(task_name@) && self.tasks()[task_name@] == t@,
                None => !self.tasks().contains_key(task_name@),
            },
    {
        self.taskfile.find(&task_name.to_owned())
    }

    /// The names of the tasks, each once.
    pub fn get_task_names(&self) -> (r: Vec<&String>)
        requires
            self.wf(),
        ensures
            r@.map_values(|x: &String| x@).no_duplicates(),
            forall|k: Seq<char>|
                self.tasks().contains_key(k) <==> r@.map_values(|x: &String| x@).contains(k),
    {
        proof {
            self.taskfile.lemma_names();
        }
        self.taskfile.names()
    }

    /// The number of tasks.
    pub fn task_count(&self) -> (r: usize)
        requires
            self.wf(),
        ensures
            r == self.tasks().dom().len(),
    {
        self.taskfile.len()
    }

    /// The tasks with their names, as the manifest holds them.
    pub closed spec fn entries(&self) -> Seq<(String, Task)> {
        self.taskfile.spec_entries()
    }

    /// The lines of the task table: a message when there are no tasks;
    /// else a framed table with one row per task, by increasing name.
    pub fn list_tasks(&self) -> (r: Vec<String>)
        requires
            self.wf(),
        ensures
            map_of(self.entries()) == self.tasks(),
            keys_unique(self.entries()),
            self.entries().len() == 0 ==> views(r@) == seq![no_tasks_line()],
            self.entries().len() > 0 ==> exists|order: Seq<int>|
                by_name(self.entries(), order) && views(r@) == #[trigger] table(self.entries(), order),
    {
        task_table(self.taskfile.entries())
    }

    /// The plan for running task `task_name`: the steps of its dependency
    /// chain in the order they execute, and the fault that ends the run
    /// after them, if any.
    pub fn plan(&self, task_name: &str) -> (r: RunPlan)
        requires
            self.wf(),
        ensures
            step_tasks(r.steps@) == walk(self.tasks(), self.vars(), task_name@).run,
            fault_of(r.fault) == walk(self.tasks(), self.vars(), task_name@).fault,
            forall|i: int|
                0 <= i < r.steps@.len() ==> step_ok(self.tasks(), self.vars(), #[trigger] r.steps@[i]),
    {
        let mut stack: Vec<String> = Vec::new();
        let mut steps: Vec<Step> = Vec::new();
        assert(views(stack@) == Seq::<Seq<char>>::empty());
        let fault = self.plan_task(&task_name.to_owned(), &mut stack, &mut steps);
        assert(step_tasks(Seq::<Step>::empty()) + walk(self.tasks(), self.vars(), task_name@).run
            == walk(self.tasks(), self.vars(), task_name@).run);
        RunPlan { steps, fault }
    }

    /// Starts a run of task `task_name`: its steps execute one at a time,
    /// and the first that fails ends the run.
    pub fn run_task(&self, task_name: &str) -> (r: TaskRun)
        requires
            self.wf(),
        ensures
            r@ == start(walk(self.tasks(), self.vars(), task_name@)),
            forall|i: int|
                0 <= i < r.spec_steps().len() ==> step_ok(
                    self.tasks(),
                    self.vars(),
                    #[trigger] r.spec_steps()[i],
                ),
    {
        let plan = self.plan(task_name);
        TaskRun { steps: plan.steps, fault: plan.fault, done: 0, failure: None }
    }

    fn contains_name(stack: &Vec<String>, name: &String) -> (r: bool)
        ensures
            r == views(stack@).contains(name@),
    {
        let mut i: usize = 0;
        while i < stack.len()
            invariant
                i <= stack@.len(),
                forall|j: int| 0 <= j < i ==> (#[trigger] stack@[j])@ != name@,
            decreases stack@.len() - i,
        {
            if stack[i] == *name {
                assert(views(stack@)[i as int] == name@);
                return true;
            }
            i += 1;
        }
        proof {
            if views(stack@).contains(name@) {
                let j = choose|j: int| 0 <= j < views(stack@).len() && views(stack@)[j] == name@;
                assert(stack@[j]@ == name@);
            }
        }
        false
    }

    /// Appends to `steps` the steps of walking task `name` with `stack` in
    /// progress, and returns the fault that ends that walk.
    fn plan_task(&self, name: &String, stack: &mut Vec<String>, steps: &mut Vec<Step>) -> (r:
        Option<RunError>)
        requires
            self.wf(),
            stack_ok(self.tasks(), views(old(stack)@)),
            forall|i: int|
                0 <= i < old(steps)@.len() ==> step_ok(
                    self.tasks(),
                    self.vars(),
                    #[trigger] old(steps)@[i],
                ),
        ensures
            final(stack)@ == old(stack)@,
            forall|i: int|
                0 <= i < final(steps)@.len() ==> step_ok(
                    self.tasks(),
                    self.vars(),
                    #[trigger] final(steps)@[i],
                ),
            step_tasks(final(steps)@) == step_tasks(old(steps)@) + walk_task(
                self.tasks(),
                self.vars(),
                name@,
                views(old(stack)@),
            ).run,
            fault_of(r) == walk_task(self.tasks(), self.vars(), name@, views(old(stack)@)).fault,
        decreases self.tasks().dom().len() - old(stack)@.len(),
    {
        let ghost m = self.tasks();
        let ghost vars = self.vars();
        let ghost s0 = views(stack@);
        let ghost steps0 = step_tasks(steps@);
        if Self::contains_name(stack, name) {
            return Some(RunError::CircularDependency { task: name.clone() });
        }
        let task = match self.taskfile.find(name) {
            Some(t) => t,
            None => {
                return Some(RunError::TaskNotFound { task: name.clone() });
            },
        };
        proof {
            lemma_map_finite_tasks(self);
            lemma_stack_room(m, s0, name@);
        }
        let ghost deps = m[name@].deps;
        if let Some(ds) = &task.depends_on {
            let mut i: usize = 0;
            assert(step_tasks(steps@) + walk_deps(m, vars, name@, s0, 0).run == steps0 + seq![]);
            assert(steps0 + seq![] == steps0);
            while i < ds.len()
                invariant
                    self.wf(),
                    m == self.tasks(),
                    vars == self.vars(),
                    m.contains_key(name@),
                    !s0.contains(name@),
                    s0.len() < m.dom().len(),
                    stack_ok(m, s0.push(name@)),
                    views(ds@) == deps,
                    deps == m[name@].deps,
                    i <= ds@.len(),
                    views(stack@) == s0,
                    stack@ == old(stack)@,
                    s0 == views(old(stack)@),
                    steps0 == step_tasks(old(steps)@),
                    walk_deps(m, vars, name@, s0, i as int).fault is None,
                    step_tasks(steps@) == steps0 + walk_deps(m, vars, name@, s0, i as int).run,
                    forall|j: int|
                        0 <= j < steps@.len() ==> step_ok(m, vars, #[trigger] steps@[j]),
                decreases ds@.len() - i,
            {
                let dep = &ds[i];
                let ghost before = walk_deps(m, vars, name@, s0, i as int);
                assert(deps[i as int] == dep@);
                match self.taskfile.find(dep) {
                    None => {
                        proof {
                            let w = walk_deps(m, vars, name@, s0, i + 1);
                            assert(w.run == before.run);
                            lemma_deps_stop(m, vars, name@, s0, i + 1, deps.len() as int);
                            assert(walk_task(m, vars, name@, s0) == walk_deps(
                                m,
                                vars,
                                name@,
                                s0,
                                deps.len() as int,
                            ));
                        }
                        return Some(
                            RunError::DependencyNotFound { dependency: dep.clone(), task: name.clone() },
                        );
                    },
                    Some(_) => {},
                }
                stack.push(name.clone());
                assert(views(stack@) == s0.push(name@));
                let r = self.plan_task(dep, stack, steps);
                let ghost inner = walk_task(m, vars, dep@, s0.push(name@));
                stack.pop();
                assert(stack@ == old(stack)@);
                assert(step_tasks(steps@) == steps0 + (before.run + inner.run));
                if r.is_some() {
                    proof {
                        let w = walk_deps(m, vars, name@, s0, i + 1);
                        assert(w.run == before.run + inner.run);
                        lemma_deps_stop(m, vars, name@, s0, i + 1, deps.len() as int);
                        assert(walk_task(m, vars, name@, s0) == walk_deps(
                            m,
                            vars,
                            name@,
                            s0,
                            deps.len() as int,
                        ));
                    }
                    return r;
                }
                i += 1;
            }
        }
        assert(walk_deps(m, vars, name@, s0, deps.len() as int).fault is None);
        let command = self.env_parser.substitute_env_vars(task.cmd.as_str());
        let cs = chars_of(command.as_str());
        let ws = split_words(cs.as_slice());
        if ws.len() == 0 {
            return Some(RunError::EmptyCommand { task: name.clone() });
        }
        let step = Step { task: name.clone(), command, words: ws };
        proof {
            assert(step_ok(m, vars, step));
            assert(step_tasks(steps@.push(step)) == step_tasks(steps@).push(name@));
        }
        steps.push(step);
        None
    }
}

/// How the process of a step ended.
#[derive(Debug)]
pub enum Exit {
    /// The process exited with this code; `-1` stands for a code that could
    /// not be read.
    Code(i32),
    /// The process could not be started, for this reason.
    SpawnFailed(String),
}

/// The fault that an exit of task `task` makes, if it is one.
pub open spec fn exit_fault(task: Seq<char>, e: Exit) -> Option<Fault> {
    match e {
        Exit::Code(c) => if c == 0 {
            None
        } else {
            Some(Fault::NonZeroExit(task, c))
        },
        Exit::SpawnFailed(r) => Some(Fault::SpawnFailure(task, r@)),
    }
}

/// The state of a run: the planned tasks and the fault after them, how
/// many steps have succeeded, and the failure of the step after them.
pub struct RunState {
    pub run: Seq<Seq<char>>,
    pub fault: Option<Fault>,
    pub done: nat,
    pub failure: Option<Fault>,
}

/// A run that has executed nothing yet.
pub open spec fn start(w: Walk) -> RunState {
    RunState { run: w.run, fault: w.fault, done: 0, failure: None }
}

/// Whether a step is waiting to execute.
pub open spec fn is_pending(st: RunState) -> bool {
    st.failure is None && st.done < st.run.len()
}

/// The state after the pending step ended with `e`.
pub open spec fn after(st: RunState, e: Exit) -> RunState {
    match exit_fault(st.run[st.done as int], e) {
        None => RunState { done: st.done + 1, ..st },
        Some(f) => RunState { failure: Some(f), ..st },
    }
}

/// How a run that has stopped ends.
pub open spec fn result(st: RunState) -> Result<(), Fault> {
    match st.failure {
        Some(f) => Err(f),
        None => match st.fault {
            Some(f) => Err(f),
            None => Ok(()),
        },
    }
}

/// A run in progress. Whoever drives it executes the pending step, reports
/// how it ended, and repeats until no step is pending.
#[derive(Debug)]
pub struct TaskRun {
    steps: Vec<Step>,
    fault: Option<RunError>,
    done: usize,
    failure: Option<RunError>,
}

impl View for TaskRun {
    type V = RunState;

    closed spec fn view(&self) -> RunState {
        RunState {
            run: step_tasks(self.steps@),
            fault: fault_of(self.fault),
            done: self.done as nat,
            failure: fault_of(self.failure),
        }
    }
}

impl TaskRun {
    /// The planned steps.
    pub closed spec fn spec_steps(&self) -> Seq<Step> {
        self.steps@
    }

    /// The step to execute now, if any.
    pub fn pending(&self) -> (r: Option<&Step>)
        ensures
            r is Some <==> is_pending(self@),
            is_pending(self@) ==> r == Some(&self.spec_steps()[self@.done as int]),
    {
        if self.failure.is_none() && self.done < self.steps.len() {
            Some(&self.steps[self.done])
        } else {
            None
        }
    }

    /// Records how the pending step ended.
    pub fn advance(&mut self, exit: Exit)
        requires
            is_pending(old(self)@),
        ensures
            final(self)@ == after(old(self)@, exit),
            final(self).spec_steps() == old(self).spec_steps(),
    {
        assert(step_tasks(self.steps@).len() == self.steps@.len());
        let n = self.steps.len();
        let task = self.steps[self.done].task.clone();
        match exit {
            Exit::Code(c) => {
                if c == 0 {
                    assert(self.done < n);
                    self.done = self.done + 1;
                } else {
                    self.failure = Some(RunError::NonZeroExit { task, code: c });
                }
            },
            Exit::SpawnFailed(reason) => {
                self.failure = Some(RunError::SpawnFailure { task, reason });
            },
        }
    }

    /// How the run ended, once no step is pending.
    pub fn finish(self) -> (r: Result<(), RunError>)
        requires
            !is_pending(self@),
        ensures
            match r {
                Ok(()) => result(self@) == Ok::<(), Fault>(()),
                Err(e) => result(self@) == Err::<(), Fault>(e@),
            },
    {
        match self.failure {
            Some(e) => Err(e),
            None => match self.fault {
                Some(e) => Err(e),
                None => Ok(()),
            },
        }
    }
}

/// A finite manifest holding `k` distinct tasks has at least `k` tasks.
proof fn lemma_room<V>(m: Map<Seq<char>, V>, ks: Set<Seq<char>>)
    requires
        m.dom().finite(),
        ks.subset_of(m.dom()),
    ensures
        ks.len() <= m.dom().len(),
{
    lemma_len_subset(ks, m.dom());
}

/// Running a task without dependencies whose command has words executes
/// exactly one process, the task's own, and succeeds once it does.
pub proof fn lemma_single_task(
    m: Map<Seq<char>, TaskModel>,
    vars: Map<Seq<char>, Seq<char>>,
    a: Seq<char>,
)
    requires
        m.dom().finite(),
        m.contains_key(a),
        m[a].deps.len() == 0,
        command_words(vars, m[a]).len() > 0,
    ensures
        walk(m, vars, a) == (Walk { run: seq![a], fault: None }),
{
    lemma_room(m, set![a]);
    assert(walk_deps(m, vars, a, seq![], 0) == (Walk { run: seq![], fault: None }));
    assert(seq![].push(a) == seq![a]);
}

/// In a chain where `a` depends on `b` and `b` on `c`, running `a`
/// executes `c`, then `b`, then `a`; and if the process of `c` exits with a
/// nonzero code, the run stops there with that code.
pub proof fn lemma_chain(
    m: Map<Seq<char>, TaskModel>,
    vars: Map<Seq<char>, Seq<char>>,
    a: Seq<char>,
    b: Seq<char>,
    c: Seq<char>,
    code: i32,
)
    requires
        m.dom().finite(),
        a != b && b != c && a != c,
        m.contains_key(a) && m.contains_key(b) && m.contains_key(c),
        m[a].deps == seq![b],
        m[b].deps == seq![c],
        m[c].deps.len() == 0,
        command_words(vars, m[a]).len() > 0,
        command_words(vars, m[b]).len() > 0,
        command_words(vars, m[c]).len() > 0,
        code != 0,
    ensures
        walk(m, vars, a) == (Walk { run: seq![c, b, a], fault: None }),
        !is_pending(after(start(walk(m, vars, a)), Exit::Code(code))),
        result(after(start(walk(m, vars, a)), Exit::Code(code))) == Err::<(), Fault>(
            Fault::NonZeroExit(c, code),
        ),
{
    lemma_room(m, set![a, b, c]);
    let sa = seq![a];
    let sab = seq![a, b];
    assert(seq![].push(a) == sa);
    assert(sa.push(b) == sab);
    assert(!sab.contains(c)) by {
        assert(sab[0] != c && sab[1] != c);
    }
    assert(!sa.contains(b)) by {
        assert(sa[0] != b);
    }
    let wc = walk_task(m, vars, c, sab);
    assert(walk_deps(m, vars, c, sab, 0) == (Walk { run: seq![], fault: None }));
    assert(wc == (Walk { run: seq![c], fault: None }));
    let wb = walk_task(m, vars, b, sa);
    assert(walk_deps(m, vars, b, sa, 0) == (Walk { run: seq![], fault: None }));
    assert(walk_deps(m, vars, b, sa, 1) == (Walk { run: seq![] + seq![c], fault: None }));
    assert(seq![] + seq![c] == seq![c]);
    assert(seq![c].push(b) == seq![c, b]);
    assert(wb == (Walk { run: seq![c, b], fault: None }));
    assert(walk_deps(m, vars, a, seq![], 0) == (Walk { run: seq![], fault: None }));
    assert(walk_deps(m, vars, a, seq![], 1) == (Walk { run: seq![] + seq![c, b], fault: None }));
    assert(seq![] + seq![c, b] == seq![c, b]);
    assert(seq![c, b].push(a) == seq![c, b, a]);
}

/// Two tasks that depend on each other make a run fail with a cycle before
/// any process executes.
pub proof fn lemma_cycle(
    m: Map<Seq<char>, TaskModel>,
    vars: Map<Seq<char>, Seq<char>>,
    a: Seq<char>,
    b: Seq<char>,
)
    requires
        m.dom().finite(),
        a != b,
        m.contains_key(a) && m.contains_key(b),
        m[a].deps == seq![b],
        m[b].deps == seq![a],
    ensures
        walk(m, vars, a) == (Walk { run: seq![], fault: Some(Fault::CircularDependency(a)) }),
{
    lemma_room(m, set![a, b]);
    let sa = seq![a];
    let sab = seq![a, b];
    assert(seq![].push(a) == sa);
    assert(sa.push(b) == sab);
    assert(sab.contains(a)) by {
        assert(sab[0] == a);
    }
    assert(!sa.contains(b)) by {
        assert(sa[0] != b);
    }
    assert(set![a, b].len() == 2);
    assert(walk_task(m, vars, a, sab) == (Walk {
        run: seq![],
        fault: Some(Fault::CircularDependency(a)),
    }));
    assert(walk_deps(m, vars, b, sa, 0) == (Walk { run: seq![], fault: None }));
    assert(Seq::<Seq<char>>::empty() + Seq::<Seq<char>>::empty() == Seq::<Seq<char>>::empty());
    assert(walk_deps(m, vars, b, sa, 1) == (Walk {
        run: seq![],
        fault: Some(Fault::CircularDependency(a)),
    }));
    assert(walk_task(m, vars, b, sa) == (Walk {
        run: seq![],
        fault: Some(Fault::CircularDependency(a)),
    }));
    assert(walk_deps(m, vars, a, seq![], 0) == (Walk { run: seq![], fault: None }));
}

/// A task whose dependency is missing from the manifest fails naming both,
/// before any process executes.
pub proof fn lemma_missing_dependency(
    m: Map<Seq<char>, TaskModel>,
    vars: Map<Seq<char>, Seq<char>>,
    a: Seq<char>,
    z: Seq<char>,
)
    requires
        m.dom().finite(),
        m.contains_key(a),
        !m.contains_key(z),
        m[a].deps == seq![z],
    ensures
        walk(m, vars, a) == (Walk { run: seq![], fault: Some(Fault::DependencyNotFound(z, a)) }),
{
    lemma_room(m, set![a]);
    assert(walk_deps(m, vars, a, seq![], 0) == (Walk { run: seq![], fault: None }));
}

/// A task whose command has no words once substituted fails with an empty
/// command before any process executes.
pub proof fn lemma_empty_command(
    m: Map<Seq<char>, TaskModel>,
    vars: Map<Seq<char>, Seq<char>>,
    a: Seq<char>,
)
    requires
        m.dom().finite(),
        m.contains_key(a),
        m[a].deps.len() == 0,
        command_words(vars, m[a]).len() == 0,
    ensures
        walk(m, vars, a) == (Walk { run: seq![], fault: Some(Fault::EmptyCommand(a)) }),
        !is_pending(start(walk(m, vars, a))),
{
    lemma_room(m, set![a]);
    assert(walk_deps(m, vars, a, seq![], 0) == (Walk { run: seq![], fault: None }));
}

/// A task without dependencies whose command is white space only fails
/// with an empty command before any process executes.
pub proof fn lemma_blank_command(
    m: Map<Seq<char>, TaskModel>,
    vars: Map<Seq<char>, Seq<char>>,
    a: Seq<char>,
)
    requires
        m.dom().finite(),
        m.contains_key(a),
        m[a].deps.len() == 0,
        forall|i: int| 0 <= i < m[a].cmd.len() ==> white_space(#[trigger] m[a].cmd[i]),
    ensures
        walk(m, vars, a) == (Walk { run: seq![], fault: Some(Fault::EmptyCommand(a)) }),
{
    let c = m[a].cmd;
    assert(!c.contains('$')) by {
        if c.contains('$') {
            let j = choose|j: int| 0 <= j < c.len() && c[j] == '$';
            assert(white_space(c[j]));
        }
    }
    lemma_no_dollar_unchanged(vars, c, name_marks(c));
    lemma_blank_has_no_words(c);
    lemma_empty_command(m, vars, a);
}

/// A step whose process exits with a nonzero code ends the run with a
/// failure carrying that code; no later step executes.
pub proof fn lemma_nonzero_exit(st: RunState, code: i32)
    requires
        is_pending(st),
        code != 0,
    ensures
        !is_pending(after(st, Exit::Code(code))),
        result(after(st, Exit::Code(code))) == Err::<(), Fault>(
            Fault::NonZeroExit(st.run[st.done as int], code),
        ),
{
}

proof fn lemma_map_finite_tasks(r: &TaskRunner)
    requires
        r.wf(),
    ensures
        r.tasks().dom().finite(),
{
    r.taskfile.lemma_finite();
}

} // verus!
