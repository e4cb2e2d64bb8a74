use vstd::prelude::*;

use crate::ordering::{
    arrange, as_ints, has_cycle, lemma_order_fails_iff_cycle, names_of, order_spec, ready, rotate,
};
use crate::directives::{directives_of, Directives, StackEntry};
use crate::task::{copy_strings, strings_view, tasks_view, ExecutionContext, Task, TaskModel, Tasks};

verus! {

/// What hashing the bytes of a script gives.
pub uninterp spec fn sha256_hex(data: Seq<u8>) -> Seq<char>;

/// Relies on sha256::digest (for `&[u8]`): the SHA-256 digest of the bytes in lowercase
/// hex, a string that depends on the bytes alone.
#[verifier::external_body]
fn content_hash(data: &Vec<u8>) -> (r: String)
    ensures
        r@ == sha256_hex(data@),
{
    sha256::digest(data.as_slice())
}

/// A file of the repository checkout: the names of the directories on its path, outermost
/// first, its own name, its path and its bytes.
#[derive(Debug)]
pub struct FileEntry {
    pub dirs: Vec<String>,
    pub file_name: String,
    pub path: String,
    pub content: Vec<u8>,
}

pub struct FileEntryModel {
    pub dirs: Seq<Seq<char>>,
    pub file_name: Seq<char>,
    pub path: Seq<char>,
    pub content: Seq<u8>,
}

impl View for FileEntry {
    type V = FileEntryModel;

    open spec fn view(&self) -> FileEntryModel {
        FileEntryModel {
            dirs: strings_view(self.dirs@),
            file_name: self.file_name@,
            path: self.path@,
            content: self.content@,
        }
    }
}

pub open spec fn entries_view(v: Seq<FileEntry>) -> Seq<FileEntryModel> {
    Seq::new(v.len(), |i: int| v[i]@)
}

/// The file name ends in `.ps1` after at least one other character.
pub open spec fn is_script(n: Seq<char>) -> bool {
    &&& n.len() > 4
    &&& n[n.len() - 4] == '.'
    &&& n[n.len() - 3] == 'p'
    &&& n[n.len() - 2] == 's'
    &&& n[n.len() - 1] == '1'
}

/// The task name of a script file: its name without the extension.
pub open spec fn script_stem(n: Seq<char>) -> Seq<char> {
    n.subrange(0, n.len() - 4)
}

pub open spec fn membership_view(m: Option<Vec<String>>) -> Option<Seq<Seq<char>>> {
    match m {
        Some(v) => Some(strings_view(v@)),
        None => None,
    }
}

/// The membership is known and shares a group with the filter.
pub open spec fn in_some_group(groups: Seq<Seq<char>>, membership: Option<Seq<Seq<char>>>) -> bool {
    match membership {
        Some(m) => exists|k: int| 0 <= k < groups.len() && m.contains(#[trigger] groups[k]),
        None => false,
    }
}

/// A file becomes a task: its context is the wanted one, its type is set, it is a script,
/// and a user task with a group filter needs a membership in one of the groups.
pub open spec fn materializes(
    acc: Directives,
    file_name: Seq<char>,
    wanted: ExecutionContext,
    membership: Option<Seq<Seq<char>>>,
) -> bool {
    &&& acc.context == Some(wanted)
    &&& acc.task_type is Some
    &&& is_script(file_name)
    &&& (wanted == ExecutionContext::User && acc.group_filter.len() > 0) ==> in_some_group(
        acc.group_filter,
        membership,
    )
}

pub open spec fn task_of(e: FileEntryModel, acc: Directives) -> TaskModel {
    TaskModel {
        type_: acc.task_type->0,
        name: script_stem(e.file_name),
        depends_on: acc.depends_on,
        context: acc.context->0,
        user_filter: acc.user_filter,
        group_filter: acc.group_filter,
        reboot_required: acc.reboot_required,
        executable: e.path,
        hash: sha256_hex(e.content),
    }
}

/// The tasks that the files give, in the order of the files.
pub open spec fn collected(
    entries: Seq<FileEntryModel>,
    wanted: ExecutionContext,
    membership: Option<Seq<Seq<char>>>,
) -> Seq<TaskModel>
    decreases entries.len(),
{
    if entries.len() == 0 {
        Seq::empty()
    } else {
        let prev = collected(entries.drop_last(), wanted, membership);
        let e = entries.last();
        let acc = directives_of(e.dirs);
        if materializes(acc, e.file_name, wanted, membership) {
            prev.push(task_of(e, acc))
        } else {
            prev
        }
    }
}

/// The ordered task list of a checkout; `None` on a circular dependency.
pub open spec fn build_spec(
    entries: Seq<FileEntryModel>,
    wanted: ExecutionContext,
    membership: Option<Seq<Seq<char>>>,
) -> Option<Seq<TaskModel>> {
    let ts = collected(entries, wanted, membership);
    match order_spec(ts) {
        Some(o) => Some(arrange(ts, o)),
        None => None,
    }
}

/// Does the membership hold one of the groups?
fn shares_group(groups: &Vec<String>, membership: &Vec<String>) -> (r: bool)
    ensures
        r == in_some_group(strings_view(groups@), Some(strings_view(membership@))),
{
    let ghost g = strings_view(groups@);
    let ghost m = strings_view(membership@);
    let mut k: usize = 0;
    while k < groups.len()
        invariant
            k <= groups@.len(),
            g == strings_view(groups@),
            m == strings_view(membership@),
            forall|q: int| 0 <= q < k ==> !m.contains(#[trigger] g[q]),
        decreases groups.len() - k,
    {
        let mut j: usize = 0;
        while j < membership.len()
            invariant
                j <= membership@.len(),
                k < groups@.len(),
                g == strings_view(groups@),
                m == strings_view(membership@),
                forall|q: int| 0 <= q < j ==> m[q] != g[k as int],
            decreases membership.len() - j,
        {
            if membership[j] == groups[k] {
                assert(m[j as int] == g[k as int]);
                assert(m.contains(g[k as int]));
                return true;
            }
            j = j + 1;
        }
        k = k + 1;
    }
    false
}

/// Is the file name that of a script?
fn is_script_name(n: &str) -> (r: bool)
    ensures
        r == is_script(n@),
{
    let len = n.unicode_len();
    len > 4 && n.get_char(len - 4) == '.' && n.get_char(len - 3) == 'p' && n.get_char(len - 2)
        == 's' && n.get_char(len - 1) == '1'
}

impl TaskFetcher {
    /// The task that a file gives under the accumulated constraints, if it gives one.
    pub fn materialize(
        acc: &StackEntry,
        entry: &FileEntry,
        wanted_execution_context: ExecutionContext,
        membership: &Option<Vec<String>>,
    ) -> (r: Option<Task>)
        ensures
            materializes(acc@, entry.file_name@, wanted_execution_context, membership_view(
                *membership,
            )) ==> (r matches Some(t) && t@ == task_of(entry@, acc@)),
            !materializes(acc@, entry.file_name@, wanted_execution_context, membership_view(
                *membership,
            )) ==> r is None,
    {
        match acc.context {
            None => {
                return None;
            },
            Some(c) => {
                if c != wanted_execution_context {
                    return None;
                }
            },
        }
        let type_ = match acc.tasktype {
            None => {
                return None;
            },
            Some(t) => t,
        };
        if !is_script_name(entry.file_name.as_str()) {
            return None;
        }
        if wanted_execution_context == ExecutionContext::User && acc.group_filter.len() > 0 {
            match membership {
                Some(m) => {
                    if !shares_group(&acc.group_filter, m) {
                        return None;
                    }
                },
                None => {
                    return None;
                },
            }
        }
        let len = entry.file_name.as_str().unicode_len();
        let name = String::from_str(entry.file_name.as_str().substring_char(0, len - 4));
        Some(
            Task {
                type_,
                name,
                depends_on: copy_strings(&acc.depends_on),
                context: wanted_execution_context,
                user_filter: copy_strings(&acc.user_filter),
                group_filter: copy_strings(&acc.group_filter),
                reboot_required: acc.reboot_required,
                executable: entry.path.clone(),
                hash: content_hash(&entry.content),
            },
        )
    }

    /// Turns the files of a checkout into the task list for the wanted audience, in
    /// dependency order; `None` when the dependencies are circular.
    pub fn build_tasks_from_directory(
        entries: &Vec<FileEntry>,
        wanted_execution_context: ExecutionContext,
        membership: &Option<Vec<String>>,
    ) -> (r: Option<Tasks>)
        ensures
            match build_spec(
                entries_view(entries@),
                wanted_execution_context,
                membership_view(*membership),
            ) {
                Some(ts) => r matches Some(v) && tasks_view(v.0@) == ts,
                None => r is None,
            },
    {
        let ghost ev = entries_view(entries@);
        let ghost mv = membership_view(*membership);
        let mut tasks: Vec<Task> = Vec::new();
        let mut i: usize = 0;
        while i < entries.len()
            invariant
                i <= entries@.len(),
                ev == entries_view(entries@),
                mv == membership_view(*membership),
                tasks_view(tasks@) == collected(ev.take(i as int), wanted_execution_context, mv),
            decreases entries.len() - i,
        {
            let entry = &entries[i];
            let acc = StackEntry::from_path(&entry.dirs);
            let ghost before = tasks_view(tasks@);
            assert(ev.take(i + 1).drop_last() =~= ev.take(i as int));
            assert(ev.take(i + 1).last() == entry@);
            match Self::materialize(&acc, entry, wanted_execution_context, membership) {
                Some(t) => {
                    tasks.push(t);
                    assert(tasks_view(tasks@) =~= before.push(t@));
                },
                None => {},
            }
            i = i + 1;
        }
        assert(ev.take(entries@.len() as int) =~= ev);
        match Self::order_tasks_by_dependency(tasks.as_slice()) {
            Some(ordered) => Some(Tasks(ordered)),
            None => None,
        }
    }
}

/// The errors of building a task list.
#[derive(Debug, Clone, Copy, PartialEq, Eq, Structural)]
pub enum TaskFetchterError {
    CircularDependecy,
}

impl TaskFetchterError {
    pub fn description(&self) -> (r: &'static str)
        ensures
            r@ == "Tasks with circular dependencies cannot be ordered."@,
    {
        match self {
            TaskFetchterError::CircularDependecy => {
                "Tasks with circular dependencies cannot be ordered."
            },
        }
    }
}

/// Builds the task list of a repository checkout.
pub struct TaskFetcher();

impl TaskFetcher {
    /// Is some task at the positions `out` named `d`?
    fn is_placed(tasks: &[Task], out: &Vec<usize>, d: &String) -> (r: bool)
        requires
            forall|m: int| 0 <= m < out@.len() ==> out@[m] < tasks@.len(),
        ensures
            r == names_of(tasks_view(tasks@), as_ints(out@)).contains(d@),
    {
        let ghost tv = tasks_view(tasks@);
        let mut m: usize = 0;
        while m < out.len()
            invariant
                m <= out@.len(),
                tv == tasks_view(tasks@),
                forall|q: int| 0 <= q < out@.len() ==> out@[q] < tasks@.len(),
                forall|q: int| 0 <= q < m ==> tv[as_ints(out@)[q]].name != d@,
            decreases out.len() - m,
        {
            if tasks[out[m]].name == *d {
                assert(tv[as_ints(out@)[m as int]].name == d@);
                return true;
            }
            m = m + 1;
        }
        false
    }

    /// Are all dependencies of `tasks[t]` placed?
    fn deps_ready(tasks: &[Task], out: &Vec<usize>, t: usize) -> (r: bool)
        requires
            t < tasks@.len(),
            forall|m: int| 0 <= m < out@.len() ==> out@[m] < tasks@.len(),
        ensures
            r == ready(tasks_view(tasks@)[t as int], names_of(tasks_view(tasks@), as_ints(out@))),
    {
        let ghost tv = tasks_view(tasks@);
        let ghost done = names_of(tv, as_ints(out@));
        let deps = &tasks[t].depends_on;
        let mut k: usize = 0;
        while k < deps.len()
            invariant
                k <= deps@.len(),
                t < tasks@.len(),
                tv == tasks_view(tasks@),
                done == names_of(tv, as_ints(out@)),
                *deps == tasks@[t as int].depends_on,
                forall|m: int| 0 <= m < out@.len() ==> out@[m] < tasks@.len(),
                forall|q: int| 0 <= q < k ==> done.contains(#[trigger] tv[t as int].depends_on[q]),
            decreases deps.len() - k,
        {
            if !Self::is_placed(tasks, out, &deps[k]) {
                assert(!done.contains(tv[t as int].depends_on[k as int]));
                return false;
            }
            k = k + 1;
        }
        true
    }

    /// Orders tasks so that each stands after the tasks that it depends on, by rotating
    /// a queue of pending tasks; `None` when the dependencies are circular or name a
    /// task that does not exist.
    pub fn order_tasks_by_dependency(orig_tasks: &[Task]) -> (r: Option<Vec<Task>>)
        ensures
            match order_spec(tasks_view(orig_tasks@)) {
                Some(o) => r matches Some(v) && tasks_view(v@) == arrange(
                    tasks_view(orig_tasks@),
                    o,
                ),
                None => r is None,
            },
            r is None <==> has_cycle(tasks_view(orig_tasks@)),
    {
        let ghost tv = tasks_view(orig_tasks@);
        let mut unordered_tasks: Vec<usize> = Vec::new();
        let mut i: usize = 0;
        while i < orig_tasks.len()
            invariant
                i <= orig_tasks@.len(),
                unordered_tasks@.len() == i,
                forall|q: int| 0 <= q < i ==> unordered_tasks@[q] == q,
            decreases orig_tasks.len() - i,
        {
            unordered_tasks.push(i);
            i = i + 1;
        }
        assert(as_ints(unordered_tasks@) =~= crate::ordering::all_indices(tv.len()));
        let mut ordered: Vec<usize> = Vec::new();
        assert(as_ints(ordered@) =~= Seq::<int>::empty());
        let mut iteration_count: usize = 0;
        while unordered_tasks.len() > 0
            invariant
                tv == tasks_view(orig_tasks@),
                rotate(tv, as_ints(unordered_tasks@), as_ints(ordered@), iteration_count as int)
                    == order_spec(tv),
                iteration_count <= unordered_tasks@.len(),
                forall|m: int| 0 <= m < ordered@.len() ==> ordered@[m] < orig_tasks@.len(),
                forall|m: int|
                    0 <= m < unordered_tasks@.len() ==> unordered_tasks@[m] < orig_tasks@.len(),
            decreases unordered_tasks@.len(), unordered_tasks@.len() - iteration_count,
        {
            let ghost q = as_ints(unordered_tasks@);
            let c_task = unordered_tasks.remove(0);
            assert(as_ints(unordered_tasks@) =~= q.drop_first());
            if Self::deps_ready(orig_tasks, &ordered, c_task) {
                let ghost before = as_ints(ordered@);
                ordered.push(c_task);
                iteration_count = 0;
                assert(as_ints(ordered@) =~= before.push(c_task as int));
            } else {
                if iteration_count >= unordered_tasks.len() {
                    proof {
                        lemma_order_fails_iff_cycle(tv);
                    }
                    return None;
                }
                let ghost rest = as_ints(unordered_tasks@);
                iteration_count = iteration_count + 1;
                unordered_tasks.push(c_task);
                assert(as_ints(unordered_tasks@) =~= rest.push(c_task as int));
            }
        }
        let mut tasks: Vec<Task> = Vec::new();
        let mut j: usize = 0;
        while j < ordered.len()
            invariant
                j <= ordered@.len(),
                tasks@.len() == j,
                forall|m: int| 0 <= m < ordered@.len() ==> ordered@[m] < orig_tasks@.len(),
                forall|m: int|
                    0 <= m < j ==> tasks@[m]@ == orig_tasks@[ordered@[m] as int]@,
            decreases ordered.len() - j,
        {
            tasks.push(orig_tasks[ordered[j]].duplicate());
            j = j + 1;
        }
        assert(tasks_view(tasks@) =~= arrange(tv, as_ints(ordered@)));
        proof {
            lemma_order_fails_iff_cycle(tv);
        }
        Some(tasks)
    }
}

/// Building twice from the same repository content and membership gives the same task
/// list: the same names, hashes and order.
pub proof fn lemma_build_idempotent(
    e1: Seq<FileEntry>,
    e2: Seq<FileEntry>,
    wanted: ExecutionContext,
    m1: Option<Vec<String>>,
    m2: Option<Vec<String>>,
)
    requires
        entries_view(e1) == entries_view(e2),
        membership_view(m1) == membership_view(m2),
    ensures
        build_spec(entries_view(e1), wanted, membership_view(m1)) == build_spec(
            entries_view(e2),
            wanted,
            membership_view(m2),
        ),
{
}

} // verus!
