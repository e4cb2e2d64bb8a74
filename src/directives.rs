use vstd::prelude::*;

use crate::task::{strings_view, ExecutionContext, TaskType};

verus! {

/// The constraints accumulated along a path of directory names.
pub struct Directives {
    pub task_type: Option<TaskType>,
    pub context: Option<ExecutionContext>,
    pub depends_on: Seq<Seq<char>>,
    pub user_filter: Seq<Seq<char>>,
    pub group_filter: Seq<Seq<char>>,
    pub reboot_required: bool,
}

pub open spec fn no_directives() -> Directives {
    Directives {
        task_type: None,
        context: None,
        depends_on: Seq::empty(),
        user_filter: Seq::empty(),
        group_filter: Seq::empty(),
        reboot_required: false,
    }
}

/// `n` added to a list of names that holds each name once.
pub open spec fn add_name(s: Seq<Seq<char>>, n: Seq<char>) -> Seq<Seq<char>> {
    if s.contains(n) {
        s
    } else {
        s.push(n)
    }
}

/// `i` is the position of the first `-` in `s`.
pub open spec fn is_first_dash(s: Seq<char>, i: int) -> bool {
    &&& 0 <= i < s.len()
    &&& s[i] == '-'
    &&& forall|j: int| 0 <= j < i ==> s[j] != '-'
}

/// A directory name `key-value` split at its first `-`.
pub open spec fn split_directive(name: Seq<char>) -> Option<(Seq<char>, Seq<char>)> {
    if exists|i: int| is_first_dash(name, i) {
        let i = choose|i: int| is_first_dash(name, i);
        Some((name.subrange(0, i), name.subrange(i + 1, name.len() as int)))
    } else {
        None
    }
}

/// The effect of one directory name on the accumulated constraints; names that are no
/// directive leave them unchanged.
pub open spec fn apply_directive(acc: Directives, name: Seq<char>) -> Directives {
    match split_directive(name) {
        Some((key, value)) => {
            if key == "group"@ {
                Directives { group_filter: add_name(acc.group_filter, value), ..acc }
            } else if key == "user"@ {
                Directives { user_filter: add_name(acc.user_filter, value), ..acc }
            } else if key == "depends"@ {
                Directives { depends_on: add_name(acc.depends_on, value), ..acc }
            } else if key == "context"@ && value == "system"@ {
                Directives { context: Some(ExecutionContext::System), ..acc }
            } else if key == "context"@ && value == "user"@ {
                Directives { context: Some(ExecutionContext::User), ..acc }
            } else if key == "reboot"@ && value == "enabled"@ {
                Directives { reboot_required: true, ..acc }
            } else if key == "reboot"@ && value == "disabled"@ {
                Directives { reboot_required: false, ..acc }
            } else if key == "type"@ && value == "oneshot"@ {
                Directives { task_type: Some(TaskType::OneShot), ..acc }
            } else if key == "type"@ && value == "onboot"@ {
                Directives { task_type: Some(TaskType::OnBoot), ..acc }
            } else {
                acc
            }
        },
        None => acc,
    }
}

/// The constraints that a path of directory names, outermost first, sets.
pub open spec fn directives_of(dirs: Seq<Seq<char>>) -> Directives
    decreases dirs.len(),
{
    if dirs.len() == 0 {
        no_directives()
    } else {
        apply_directive(directives_of(dirs.drop_last()), dirs.last())
    }
}

/// The accumulator carried down the directory walk.
#[derive(Debug)]
pub struct StackEntry {
    pub tasktype: Option<TaskType>,
    pub context: Option<ExecutionContext>,
    pub depends_on: Vec<String>,
    pub user_filter: Vec<String>,
    pub group_filter: Vec<String>,
    pub reboot_required: bool,
}

impl View for StackEntry {
    type V = Directives;

    open spec fn view(&self) -> Directives {
        Directives {
            task_type: self.tasktype,
            context: self.context,
            depends_on: strings_view(self.depends_on@),
            user_filter: strings_view(self.user_filter@),
            group_filter: strings_view(self.group_filter@),
            reboot_required: self.reboot_required,
        }
    }
}

/// Do two strings hold the same characters?
pub fn str_eq(a: &str, b: &str) -> (r: bool)
    ensures
        r == (a@ == b@),
{
    let n = a.unicode_len();
    if n != b.unicode_len() {
        return false;
    }
    let mut i: usize = 0;
    while i < n
        invariant
            n == a@.len(),
            n == b@.len(),
            i <= n,
            forall|j: int| 0 <= j < i ==> a@[j] == b@[j],
        decreases n - i,
    {
        if a.get_char(i) != b.get_char(i) {
            return false;
        }
        i = i + 1;
    }
    assert(a@ =~= b@);
    true
}

/// Adds `n` to `v` unless it is there already.
fn insert_name(v: &mut Vec<String>, n: &str)
    ensures
        strings_view(final(v)@) == add_name(strings_view(old(v)@), n@),
{
    let ghost sv = strings_view(v@);
    let ns = String::from_str(n);
    let mut j: usize = 0;
    while j < v.len()
        invariant
            j <= v@.len(),
            sv == strings_view(v@),
            ns@ == n@,
            forall|q: int| 0 <= q < j ==> sv[q] != n@,
        decreases v.len() - j,
    {
        if v[j] == ns {
            assert(sv[j as int] == n@);
            assert(sv.contains(n@));
            return;
        }
        j = j + 1;
    }
    assert(!sv.contains(n@));
    v.push(ns);
    assert(strings_view(v@) =~= sv.push(n@));
}

impl StackEntry {
    /// No constraints.
    pub fn new() -> (r: StackEntry)
        ensures
            r@ == no_directives(),
    {
        let r = StackEntry {
            tasktype: None,
            context: None,
            depends_on: Vec::new(),
            user_filter: Vec::new(),
            group_filter: Vec::new(),
            reboot_required: false,
        };
        assert(r@.depends_on =~= Seq::<Seq<char>>::empty());
        assert(r@.user_filter =~= Seq::<Seq<char>>::empty());
        assert(r@.group_filter =~= Seq::<Seq<char>>::empty());
        r
    }

    /// Applies the directive that a directory name states.
    pub fn apply_directive(&mut self, dir_name: &str)
        ensures
            final(self)@ == apply_directive(old(self)@, dir_name@),
    {
        let n = dir_name.unicode_len();
        let mut i: usize = 0;
        let mut found = false;
        while i < n && !found
            invariant
                n == dir_name@.len(),
                i <= n,
                forall|j: int| 0 <= j < i ==> dir_name@[j] != '-',
                found ==> i < n && dir_name@[i as int] == '-',
            decreases n - i, if found { 0int } else { 1int },
        {
            if dir_name.get_char(i) == '-' {
                found = true;
            } else {
                i = i + 1;
            }
        }
        if !found {
            assert(!exists|k: int| is_first_dash(dir_name@, k));
            return;
        }
        assert(is_first_dash(dir_name@, i as int));
        proof {
            let c = choose|k: int| is_first_dash(dir_name@, k);
            assert(c == i) by {
                if c < i {
                    assert(dir_name@[c] != '-');
                } else if c > i {
                    assert(dir_name@[i as int] != '-');
                }
            }
        }
        let key = dir_name.substring_char(0, i);
        let value = dir_name.substring_char(i + 1, n);
        if str_eq(key, "group") {
            insert_name(&mut self.group_filter, value);
        } else if str_eq(key, "user") {
            insert_name(&mut self.user_filter, value);
        } else if str_eq(key, "depends") {
            insert_name(&mut self.depends_on, value);
        } else if str_eq(key, "context") && str_eq(value, "system") {
            self.context = Some(ExecutionContext::System);
        } else if str_eq(key, "context") && str_eq(value, "user") {
            self.context = Some(ExecutionContext::User);
        } else if str_eq(key, "reboot") && str_eq(value, "enabled") {
            self.reboot_required = true;
        } else if str_eq(key, "reboot") && str_eq(value, "disabled") {
            self.reboot_required = false;
        } else if str_eq(key, "type") && str_eq(value, "oneshot") {
            self.tasktype = Some(TaskType::OneShot);
        } else if str_eq(key, "type") && str_eq(value, "onboot") {
            self.tasktype = Some(TaskType::OnBoot);
        }
    }

    /// The constraints that a path of directory names sets, outermost first.
    pub fn from_path(dirs: &Vec<String>) -> (r: StackEntry)
        ensures
            r@ == directives_of(strings_view(dirs@)),
    {
        let mut acc = StackEntry::new();
        let mut i: usize = 0;
        while i < dirs.len()
            invariant
                i <= dirs@.len(),
                acc@ == directives_of(strings_view(dirs@).take(i as int)),
            decreases dirs.len() - i,
        {
            acc.apply_directive(dirs[i].as_str());
            assert(strings_view(dirs@).take(i + 1).drop_last() =~= strings_view(dirs@).take(
                i as int,
            ));
            i = i + 1;
        }
        assert(strings_view(dirs@).take(dirs@.len() as int) =~= strings_view(dirs@));
        acc
    }
}

} // verus!
