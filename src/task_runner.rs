use vstd::prelude::*;

use crate::task::{tasks_view, ExecutionContext, Task, TaskModel, TaskType, Tasks};

verus! {

/// The OneShot registry that a list of (name, hash) records stands for: a later record of
/// a name overrides an earlier one.
pub open spec fn reg_view(s: Seq<(String, String)>) -> Map<Seq<char>, Seq<char>>
    decreases s.len(),
{
    if s.len() == 0 {
        Map::empty()
    } else {
        reg_view(s.drop_last()).insert(s.last().0@, s.last().1@)
    }
}

proof fn lemma_reg_last(s: Seq<(String, String)>, k: Seq<char>, i: int)
    requires
        0 <= i < s.len(),
        s[i].0@ == k,
        forall|j: int| i < j < s.len() ==> s[j].0@ != k,
    ensures
        reg_view(s).contains_key(k),
        reg_view(s)[k] == s[i].1@,
    decreases s.len(),
{
    if i < s.len() - 1 {
        lemma_reg_last(s.drop_last(), k, i);
    }
}

proof fn lemma_reg_absent(s: Seq<(String, String)>, k: Seq<char>)
    requires
        forall|j: int| 0 <= j < s.len() ==> s[j].0@ != k,
    ensures
        !reg_view(s).contains_key(k),
    decreases s.len(),
{
    if s.len() > 0 {
        lemma_reg_absent(s.drop_last(), k);
    }
}

proof fn lemma_reg_update(s: Seq<(String, String)>, i: int, e: (String, String))
    requires
        0 <= i < s.len(),
        s[i].0@ == e.0@,
        forall|j: int| i < j < s.len() ==> s[j].0@ != e.0@,
    ensures
        reg_view(s.update(i, e)) == reg_view(s).insert(e.0@, e.1@),
    decreases s.len(),
{
    let u = s.update(i, e);
    if i == s.len() - 1 {
        assert(u.drop_last() =~= s.drop_last());
        assert(reg_view(u) =~= reg_view(s).insert(e.0@, e.1@));
    } else {
        assert(u.drop_last() =~= s.drop_last().update(i, e));
        lemma_reg_update(s.drop_last(), i, e);
        assert(reg_view(u) =~= reg_view(s).insert(e.0@, e.1@));
    }
}

/// The names of the tasks of a list.
pub open spec fn names_set(tasks: Seq<TaskModel>) -> Set<Seq<char>> {
    Set::new(|n: Seq<char>| exists|i: int| 0 <= i < tasks.len() && tasks[i].name == n)
}

/// The mathematical value of a runner.
pub struct RunnerModel {
    pub registry: Map<Seq<char>, Seq<char>>,
    pub tasks: Seq<TaskModel>,
    pub cursor: int,
    pub context: ExecutionContext,
}

/// What happens next in a run.
#[derive(Debug, Clone, Copy, PartialEq, Eq, Structural)]
pub enum RunAction {
    /// Run the task at this position of the list and report whether it succeeded.
    Execute(usize),
    /// Store the state durably, then restart the machine.
    Reboot,
    /// Every task is done: store the state durably.
    Complete,
    /// A task failed: delete the stored state and stop.
    Abort,
}

/// What the runner is told.
#[derive(Debug, Clone, Copy, PartialEq, Eq, Structural)]
pub enum RunEvent {
    /// The run starts.
    Start,
    /// The task handed out last finished, with or without success.
    TaskFinished(bool),
}

/// Has this OneShot task already run with its present content?
pub open spec fn satisfied(t: TaskModel, registry: Map<Seq<char>, Seq<char>>) -> bool {
    &&& t.type_ == TaskType::OneShot
    &&& registry.contains_key(t.name)
    &&& registry[t.name] == t.hash
}

/// The first position from `c` on whose task is not yet satisfied.
pub open spec fn skip_satisfied(tasks: Seq<TaskModel>, registry: Map<Seq<char>, Seq<char>>, c: int) -> int
    decreases tasks.len() - c,
{
    if c < 0 || c >= tasks.len() {
        c
    } else if satisfied(tasks[c], registry) {
        skip_satisfied(tasks, registry, c + 1)
    } else {
        c
    }
}

/// The state with the cursor moved past the satisfied tasks.
pub open spec fn advance(m: RunnerModel) -> RunnerModel {
    RunnerModel { cursor: skip_satisfied(m.tasks, m.registry, m.cursor), ..m }
}

/// Run the task under the cursor, or finish.
pub open spec fn action_at(m: RunnerModel) -> RunAction {
    if 0 <= m.cursor < m.tasks.len() {
        RunAction::Execute(m.cursor as usize)
    } else {
        RunAction::Complete
    }
}

/// The state after the task under the cursor succeeded.
pub open spec fn after_success(m: RunnerModel) -> RunnerModel {
    let t = m.tasks[m.cursor];
    RunnerModel {
        registry: if t.type_ == TaskType::OneShot {
            m.registry.insert(t.name, t.hash)
        } else {
            m.registry
        },
        cursor: m.cursor + 1,
        ..m
    }
}

/// The state a run starts from: the stored one, replaced by the fetched list (with the
/// registry cut to its names) when the repository changed, or a fresh one.
pub open spec fn reconcile(
    context: ExecutionContext,
    fetched: Seq<TaskModel>,
    changed: bool,
    restored: Option<RunnerModel>,
) -> RunnerModel {
    match restored {
        Some(s) => if changed {
            RunnerModel {
                registry: s.registry.restrict(names_set(fetched)),
                tasks: fetched,
                cursor: 0,
                context: s.context,
            }
        } else {
            s
        },
        None => RunnerModel { registry: Map::empty(), tasks: fetched, cursor: 0, context },
    }
}

/// The state of a run: the ordered tasks, the position of the next one, and the hash with
/// which each OneShot task last ran.
#[derive(Debug)]
pub struct TaskRunner {
    pub done_oneshot_tasks: Vec<(String, String)>,
    pub task_list: Vec<Task>,
    pub next_task: usize,
    pub execution_context: ExecutionContext,
}

impl View for TaskRunner {
    type V = RunnerModel;

    open spec fn view(&self) -> RunnerModel {
        RunnerModel {
            registry: reg_view(self.done_oneshot_tasks@),
            tasks: tasks_view(self.task_list@),
            cursor: self.next_task as int,
            context: self.execution_context,
        }
    }
}

/// The position of the last record of `name`.
fn lookup(reg: &Vec<(String, String)>, name: &String) -> (r: Option<usize>)
    ensures
        r matches Some(i) ==> i < reg@.len() && reg@[i as int].0@ == name@ && (forall|j: int|
            i < j < reg@.len() ==> reg@[j].0@ != name@),
        r matches Some(i) ==> reg_view(reg@).contains_key(name@) && reg_view(reg@)[name@]
            == reg@[i as int].1@,
        r is None ==> !reg_view(reg@).contains_key(name@),
{
    let mut i: usize = reg.len();
    while i > 0
        invariant
            i <= reg@.len(),
            forall|j: int| i <= j < reg@.len() ==> reg@[j].0@ != name@,
        decreases i,
    {
        i = i - 1;
        if reg[i].0 == *name {
            proof {
                lemma_reg_last(reg@, name@, i as int);
            }
            return Some(i);
        }
    }
    proof {
        lemma_reg_absent(reg@, name@);
    }
    None
}

/// Records that `name` ran with `hash`.
fn record(reg: &mut Vec<(String, String)>, name: &String, hash: &String)
    ensures
        reg_view(final(reg)@) == reg_view(old(reg)@).insert(name@, hash@),
{
    let e = (name.clone(), hash.clone());
    match lookup(reg, name) {
        Some(i) => {
            proof {
                lemma_reg_update(reg@, i as int, e);
            }
            reg.set(i, e);
        },
        None => {
            let ghost s = reg@;
            reg.push(e);
            assert(reg@.drop_last() =~= s);
        },
    }
}

/// Is some task of the list named `name`?
fn has_task_named(tasks: &Vec<Task>, name: &String) -> (r: bool)
    ensures
        r == names_set(tasks_view(tasks@)).contains(name@),
{
    let ghost tv = tasks_view(tasks@);
    let mut i: usize = 0;
    while i < tasks.len()
        invariant
            i <= tasks@.len(),
            tv == tasks_view(tasks@),
            forall|j: int| 0 <= j < i ==> tv[j].name != name@,
        decreases tasks.len() - i,
    {
        if tasks[i].name == *name {
            assert(tv[i as int].name == name@);
            return true;
        }
        i = i + 1;
    }
    false
}

/// The records whose names are those of tasks of the list.
fn prune(reg: &Vec<(String, String)>, tasks: &Vec<Task>) -> (r: Vec<(String, String)>)
    ensures
        reg_view(r@) == reg_view(reg@).restrict(names_set(tasks_view(tasks@))),
{
    let ghost keep = names_set(tasks_view(tasks@));
    let mut out: Vec<(String, String)> = Vec::new();
    let mut i: usize = 0;
    assert(reg_view(out@) =~= reg_view(reg@.take(0)).restrict(keep));
    while i < reg.len()
        invariant
            i <= reg@.len(),
            keep == names_set(tasks_view(tasks@)),
            reg_view(out@) == reg_view(reg@.take(i as int)).restrict(keep),
        decreases reg.len() - i,
    {
        let ghost before = reg_view(reg@.take(i as int));
        assert(reg@.take(i + 1).drop_last() =~= reg@.take(i as int));
        let k = &reg[i].0;
        if has_task_named(tasks, k) {
            let ghost o = out@;
            out.push((k.clone(), reg[i].1.clone()));
            assert(out@.drop_last() =~= o);
            assert(reg_view(out@) =~= reg_view(reg@.take(i + 1)).restrict(keep));
        } else {
            assert(reg_view(out@) =~= reg_view(reg@.take(i + 1)).restrict(keep));
        }
        i = i + 1;
    }
    assert(reg@.take(reg@.len() as int) =~= reg@);
    out
}

impl TaskRunner {
    /// The state that a run starts from, given the fetched task list, whether the
    /// repository content changed, and the state stored by an earlier run, if any could be
    /// read.
    pub fn new(
        execution_context: ExecutionContext,
        fetched_tasks: Tasks,
        tasks_changed: bool,
        restored: Option<TaskRunner>,
    ) -> (r: TaskRunner)
        ensures
            r@ == reconcile(
                execution_context,
                tasks_view(fetched_tasks.0@),
                tasks_changed,
                match restored {
                    Some(s) => Some(s@),
                    None => None,
                },
            ),
    {
        match restored {
            Some(mut restored_state) => {
                if tasks_changed {
                    restored_state.done_oneshot_tasks = prune(
                        &restored_state.done_oneshot_tasks,
                        &fetched_tasks.0,
                    );
                    restored_state.next_task = 0;
                    restored_state.task_list = fetched_tasks.0;
                }
                restored_state
            },
            None => {
                let r = TaskRunner {
                    done_oneshot_tasks: Vec::new(),
                    task_list: fetched_tasks.0,
                    next_task: 0,
                    execution_context,
                };
                assert(reg_view(r.done_oneshot_tasks@) =~= Map::empty());
                r
            },
        }
    }

    /// Moves the cursor past the OneShot tasks that already ran with their present content.
    fn skip_done(&mut self)
        ensures
            final(self)@ == advance(old(self)@),
    {
        while self.next_task < self.task_list.len()
            invariant
                skip_satisfied(self@.tasks, self@.registry, self.next_task as int) == skip_satisfied(
                    old(self)@.tasks,
                    old(self)@.registry,
                    old(self)@.cursor,
                ),
                self@.tasks == old(self)@.tasks,
                self@.registry == old(self)@.registry,
                self.done_oneshot_tasks == old(self).done_oneshot_tasks,
                self.task_list == old(self).task_list,
                self.execution_context == old(self).execution_context,
            decreases self.task_list.len() - self.next_task,
        {
            let task = &self.task_list[self.next_task];
            if task.type_ != TaskType::OneShot {
                return;
            }
            match lookup(&self.done_oneshot_tasks, &task.name) {
                Some(i) => {
                    if self.done_oneshot_tasks[i].1 != task.hash {
                        return;
                    }
                },
                None => {
                    return;
                },
            }
            self.next_task = self.next_task + 1;
        }
    }

    /// The next action of the run, given what happened last.
    pub fn run(&mut self, event: RunEvent) -> (r: RunAction)
        ensures
            match event {
                RunEvent::Start => final(self)@ == advance(old(self)@) && r == action_at(
                    advance(old(self)@),
                ),
                RunEvent::TaskFinished(succeeded) => if old(self)@.cursor < old(self)@.tasks.len() {
                    if !succeeded {
                        final(self)@ == old(self)@ && r == RunAction::Abort
                    } else if old(self)@.tasks[old(self)@.cursor].reboot_required {
                        final(self)@ == after_success(old(self)@) && r == RunAction::Reboot
                    } else {
                        final(self)@ == advance(after_success(old(self)@)) && r == action_at(
                            advance(after_success(old(self)@)),
                        )
                    }
                } else {
                    final(self)@ == old(self)@ && r == RunAction::Complete
                },
            },
    {
        match event {
            RunEvent::Start => {},
            RunEvent::TaskFinished(succeeded) => {
                if self.next_task >= self.task_list.len() {
                    return RunAction::Complete;
                }
                if !succeeded {
                    return RunAction::Abort;
                }
                let task = &self.task_list[self.next_task];
                if task.type_ == TaskType::OneShot {
                    record(&mut self.done_oneshot_tasks, &task.name, &task.hash);
                }
                let reboot = task.reboot_required;
                self.next_task = self.next_task + 1;
                if reboot {
                    return RunAction::Reboot;
                }
            },
        }
        self.skip_done();
        if self.next_task < self.task_list.len() {
            RunAction::Execute(self.next_task)
        } else {
            RunAction::Complete
        }
    }
}

/// A OneShot task that succeeded is skipped by a later run over a fetched list that holds
/// it under the same name and content hash; once its hash changed, it runs again.
pub proof fn lemma_oneshot_skip(m: RunnerModel, fetched: Seq<TaskModel>, j: int)
    requires
        0 <= m.cursor < m.tasks.len(),
        m.tasks[m.cursor].type_ == TaskType::OneShot,
        0 <= j < fetched.len(),
        fetched[j].type_ == TaskType::OneShot,
        fetched[j].name == m.tasks[m.cursor].name,
    ensures
        ({
            let r = reconcile(m.context, fetched, true, Some(after_success(m)));
            &&& fetched[j].hash == m.tasks[m.cursor].hash ==> skip_satisfied(
                r.tasks,
                r.registry,
                j,
            ) > j
            &&& fetched[j].hash != m.tasks[m.cursor].hash ==> skip_satisfied(
                r.tasks,
                r.registry,
                j,
            ) == j
        }),
{
    let r = reconcile(m.context, fetched, true, Some(after_success(m)));
    assert(names_set(fetched).contains(fetched[j].name));
    assert(r.registry.contains_key(fetched[j].name));
    if fetched[j].hash == m.tasks[m.cursor].hash {
        lemma_skip_monotone(r.tasks, r.registry, j + 1);
    }
}

proof fn lemma_skip_monotone(tasks: Seq<TaskModel>, registry: Map<Seq<char>, Seq<char>>, c: int)
    ensures
        skip_satisfied(tasks, registry, c) >= c,
    decreases tasks.len() - c,
{
    if 0 <= c < tasks.len() && satisfied(tasks[c], registry) {
        lemma_skip_monotone(tasks, registry, c + 1);
    }
}

/// After a task that asks for a reboot succeeded, the stored state resumes past it: a
/// restart with unchanged content hands out only later tasks.
pub proof fn lemma_reboot_resume(m: RunnerModel, fetched: Seq<TaskModel>)
    requires
        0 <= m.cursor < m.tasks.len(),
        m.tasks[m.cursor].reboot_required,
    ensures
        ({
            let r = reconcile(m.context, fetched, false, Some(after_success(m)));
            &&& r.cursor == m.cursor + 1
            &&& advance(r).cursor >= m.cursor + 1
        }),
{
    let r = reconcile(m.context, fetched, false, Some(after_success(m)));
    lemma_skip_monotone(r.tasks, r.registry, r.cursor);
}

} // verus!
