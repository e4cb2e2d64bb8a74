use vstd::prelude::*;

verus! {

/// Whether a task targets the machine-wide scope or the signed-in user.
#[derive(Clone, Copy, Debug, PartialEq, Eq, Structural)]
pub enum ExecutionContext {
    System,
    User,
}

/// A OneShot task runs once per distinct content version; an OnBoot task runs every time.
#[derive(Clone, Copy, Debug, PartialEq, Eq, Structural)]
pub enum TaskType {
    OneShot,
    OnBoot,
}

/// A materialized script with the constraints inherited from its directory path.
/// An empty name list stands for a constraint that was never set.
#[derive(Debug)]
pub struct Task {
    pub type_: TaskType,
    pub name: String,
    pub depends_on: Vec<String>,
    pub context: ExecutionContext,
    pub user_filter: Vec<String>,
    pub group_filter: Vec<String>,
    pub reboot_required: bool,
    pub executable: String,
    pub hash: String,
}

/// The mathematical value of a `Task`.
pub struct TaskModel {
    pub type_: TaskType,
    pub name: Seq<char>,
    pub depends_on: Seq<Seq<char>>,
    pub context: ExecutionContext,
    pub user_filter: Seq<Seq<char>>,
    pub group_filter: Seq<Seq<char>>,
    pub reboot_required: bool,
    pub executable: Seq<char>,
    pub hash: Seq<char>,
}

pub open spec fn strings_view(v: Seq<String>) -> Seq<Seq<char>> {
    Seq::new(v.len(), |i: int| v[i]@)
}

pub open spec fn tasks_view(v: Seq<Task>) -> Seq<TaskModel> {
    Seq::new(v.len(), |i: int| v[i]@)
}

impl View for Task {
    type V = TaskModel;

    open spec fn view(&self) -> TaskModel {
        TaskModel {
            type_: self.type_,
            name: self.name@,
            depends_on: strings_view(self.depends_on@),
            context: self.context,
            user_filter: strings_view(self.user_filter@),
            group_filter: strings_view(self.group_filter@),
            reboot_required: self.reboot_required,
            executable: self.executable@,
            hash: self.hash@,
        }
    }
}

/// Copies a list of strings.
pub fn copy_strings(v: &Vec<String>) -> (r: Vec<String>)
    ensures
        strings_view(r@) == strings_view(v@),
{
    let mut r: Vec<String> = Vec::new();
    let mut i: usize = 0;
    while i < v.len()
        invariant
            i <= v.len(),
            r@.len() == i,
            forall|k: int| 0 <= k < i ==> r@[k]@ == v@[k]@,
        decreases v.len() - i,
    {
        r.push(v[i].clone());
        i = i + 1;
    }
    assert(strings_view(r@) =~= strings_view(v@));
    r
}

impl Task {
    /// Duplicates the task field by field.
    pub fn duplicate(&self) -> (r: Task)
        ensures
            r@ == self@,
    {
        Task {
            type_: self.type_,
            name: self.name.clone(),
            depends_on: copy_strings(&self.depends_on),
            context: self.context,
            user_filter: copy_strings(&self.user_filter),
            group_filter: copy_strings(&self.group_filter),
            reboot_required: self.reboot_required,
            executable: self.executable.clone(),
            hash: self.hash.clone(),
        }
    }
}

/// An ordered list of tasks.
#[derive(Debug)]
pub struct Tasks(pub Vec<Task>);

} // verus!
