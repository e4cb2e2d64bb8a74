use vstd::prelude::*;

use crate::task::TaskModel;

verus! {

/// The names of the tasks at the given positions.
pub open spec fn names_of(tasks: Seq<TaskModel>, out: Seq<int>) -> Set<Seq<char>> {
    Set::new(|nm: Seq<char>| exists|m: int| 0 <= m < out.len() && tasks[out[m]].name == nm)
}

/// Every dependency of `t` is among `done`.
pub open spec fn ready(t: TaskModel, done: Set<Seq<char>>) -> bool {
    forall|k: int| 0 <= k < t.depends_on.len() ==> done.contains(#[trigger] t.depends_on[k])
}

/// The rotation schedule: pop the front of the queue; place it when its dependencies are
/// placed, else move it to the back; give up once every queued task was tried since the
/// last placement.
pub open spec fn rotate(tasks: Seq<TaskModel>, queue: Seq<int>, out: Seq<int>, tried: int) -> Option<
    Seq<int>,
>
    decreases queue.len(), queue.len() - tried,
{
    if queue.len() == 0 {
        Some(out)
    } else {
        let c = queue[0];
        let rest = queue.drop_first();
        if ready(tasks[c], names_of(tasks, out)) {
            rotate(tasks, rest, out.push(c), 0)
        } else if tried >= rest.len() || tried < 0 {
            None
        } else {
            rotate(tasks, rest.push(c), out, tried + 1)
        }
    }
}

pub open spec fn all_indices(n: nat) -> Seq<int> {
    Seq::new(n, |i: int| i)
}

/// The positions, in the input, of the tasks in dependency order; `None` on a cycle.
pub open spec fn order_spec(tasks: Seq<TaskModel>) -> Option<Seq<int>> {
    rotate(tasks, all_indices(tasks.len()), Seq::empty(), 0)
}

/// `out` lists every position of `tasks` once.
pub open spec fn is_permutation(tasks: Seq<TaskModel>, out: Seq<int>) -> bool {
    &&& out.len() == tasks.len()
    &&& forall|i: int| 0 <= i < out.len() ==> 0 <= #[trigger] out[i] < tasks.len()
    &&& forall|x: int| 0 <= x < tasks.len() ==> #[trigger] out.contains(x)
}

/// A task named `d` stands before position `m`.
pub open spec fn placed_before(tasks: Seq<TaskModel>, out: Seq<int>, m: int, d: Seq<char>) -> bool {
    exists|p: int| 0 <= p < m && tasks[out[p]].name == d
}

/// Each dependency of a placed task names a task placed before it.
pub open spec fn deps_placed_before(tasks: Seq<TaskModel>, out: Seq<int>) -> bool {
    forall|m: int, k: int|
        0 <= m < out.len() && 0 <= k < tasks[out[m]].depends_on.len() ==> placed_before(
            tasks,
            out,
            m,
            #[trigger] tasks[out[m]].depends_on[k],
        )
}

/// No task outside `s` is named `d`.
pub open spec fn named_only_inside(tasks: Seq<TaskModel>, s: Set<int>, d: Seq<char>) -> bool {
    forall|j: int| 0 <= j < tasks.len() && !s.contains(j) ==> #[trigger] tasks[j].name != d
}

/// A nonempty set of tasks, each with a dependency that names no task outside the set:
/// none of them can ever be placed first.
pub open spec fn is_stuck_set(tasks: Seq<TaskModel>, s: Set<int>) -> bool {
    &&& exists|i: int| s.contains(i)
    &&& forall|i: int|
        #[trigger] s.contains(i) ==> 0 <= i < tasks.len() && exists|k: int|
            0 <= k < tasks[i].depends_on.len() && #[trigger] named_only_inside(
                tasks,
                s,
                tasks[i].depends_on[k],
            )
}

pub open spec fn has_cycle(tasks: Seq<TaskModel>) -> bool {
    exists|s: Set<int>| is_stuck_set(tasks, s)
}

pub open spec fn rotate_inv(tasks: Seq<TaskModel>, queue: Seq<int>, out: Seq<int>, tried: int) -> bool {
    &&& out.len() + queue.len() == tasks.len()
    &&& forall|i: int| 0 <= i < out.len() ==> 0 <= #[trigger] out[i] < tasks.len()
    &&& forall|i: int| 0 <= i < queue.len() ==> 0 <= #[trigger] queue[i] < tasks.len()
    &&& forall|x: int| 0 <= x < tasks.len() ==> #[trigger] out.contains(x) || queue.contains(x)
    &&& deps_placed_before(tasks, out)
    &&& 0 <= tried <= queue.len()
    &&& forall|k: int|
        queue.len() - tried <= k < queue.len() ==> !ready(
            tasks[#[trigger] queue[k]],
            names_of(tasks, out),
        )
}

proof fn lemma_rotate(tasks: Seq<TaskModel>, queue: Seq<int>, out: Seq<int>, tried: int)
    requires
        rotate_inv(tasks, queue, out, tried),
    ensures
        rotate(tasks, queue, out, tried) matches Some(o) ==> is_permutation(tasks, o)
            && deps_placed_before(tasks, o),
        rotate(tasks, queue, out, tried) is None ==> has_cycle(tasks),
    decreases queue.len(), queue.len() - tried,
{
    if queue.len() == 0 {
        assert forall|x: int| 0 <= x < tasks.len() implies #[trigger] out.contains(x) by {
            assert(out.contains(x) || queue.contains(x));
        }
    } else {
        let c = queue[0];
        let rest = queue.drop_first();
        let done = names_of(tasks, out);
        if ready(tasks[c], done) {
            let out2 = out.push(c);
            assert forall|x: int| 0 <= x < tasks.len() implies #[trigger] out2.contains(x)
                || rest.contains(x) by {
                if out.contains(x) {
                    let m = choose|m: int| 0 <= m < out.len() && out[m] == x;
                    assert(out2[m] == x);
                } else {
                    assert(queue.contains(x));
                    let m = choose|m: int| 0 <= m < queue.len() && queue[m] == x;
                    if m == 0 {
                        assert(out2[out.len() as int] == x);
                    } else {
                        assert(rest[m - 1] == x);
                    }
                }
            }
            assert forall|m: int, k: int|
                0 <= m < out2.len() && 0 <= k < tasks[out2[m]].depends_on.len() implies placed_before(
                tasks,
                out2,
                m,
                #[trigger] tasks[out2[m]].depends_on[k],
            ) by {
                if m < out.len() {
                    assert(out2[m] == out[m]);
                    assert(placed_before(tasks, out, m, tasks[out[m]].depends_on[k]));
                    let p = choose|p: int|
                        0 <= p < m && tasks[out[p]].name == tasks[out[m]].depends_on[k];
                    assert(out2[p] == out[p]);
                } else {
                    assert(done.contains(tasks[c].depends_on[k]));
                    let p = choose|p: int|
                        0 <= p < out.len() && tasks[out[p]].name == tasks[c].depends_on[k];
                    assert(out2[p] == out[p]);
                }
            }
            lemma_rotate(tasks, rest, out2, 0);
        } else if tried >= rest.len() || tried < 0 {
            let s = Set::new(|i: int| queue.contains(i));
            assert(s.contains(c));
            assert forall|i: int| #[trigger] s.contains(i) implies 0 <= i < tasks.len() && exists|
                k: int,
            |
                0 <= k < tasks[i].depends_on.len() && #[trigger] named_only_inside(
                    tasks,
                    s,
                    tasks[i].depends_on[k],
                ) by {
                let q = choose|q: int| 0 <= q < queue.len() && queue[q] == i;
                assert(!ready(tasks[queue[q]], done));
                let k = choose|k: int|
                    0 <= k < tasks[i].depends_on.len() && !done.contains(
                        #[trigger] tasks[i].depends_on[k],
                    );
                assert forall|j: int| 0 <= j < tasks.len() && !s.contains(j) implies #[trigger] tasks[j].name
                    != tasks[i].depends_on[k] by {
                    assert(out.contains(j) || queue.contains(j));
                    let m = choose|m: int| 0 <= m < out.len() && out[m] == j;
                    if tasks[j].name == tasks[i].depends_on[k] {
                        assert(done.contains(tasks[i].depends_on[k]));
                    }
                }
                assert(named_only_inside(tasks, s, tasks[i].depends_on[k]));
            }
            assert(is_stuck_set(tasks, s));
        } else {
            let q2 = rest.push(c);
            assert forall|x: int| 0 <= x < tasks.len() implies #[trigger] out.contains(x)
                || q2.contains(x) by {
                if !out.contains(x) {
                    assert(queue.contains(x));
                    let m = choose|m: int| 0 <= m < queue.len() && queue[m] == x;
                    if m == 0 {
                        assert(q2[rest.len() as int] == x);
                    } else {
                        assert(q2[m - 1] == x);
                    }
                }
            }
            assert forall|k: int| q2.len() - (tried + 1) <= k < q2.len() implies !ready(
                tasks[#[trigger] q2[k]],
                names_of(tasks, out),
            ) by {
                if k < rest.len() {
                    assert(q2[k] == queue[k + 1]);
                }
            }
            lemma_rotate(tasks, q2, out, tried + 1);
        }
    }
}

/// A dependency order, when one is produced, lists every task once and places each
/// task after a task named by each of its dependencies; no order is produced only
/// when some nonempty set of tasks depends on names found nowhere outside the set.
pub proof fn lemma_order_sound(tasks: Seq<TaskModel>)
    ensures
        order_spec(tasks) matches Some(o) ==> is_permutation(tasks, o) && deps_placed_before(
            tasks,
            o,
        ),
        order_spec(tasks) is None ==> has_cycle(tasks),
{
    let q = all_indices(tasks.len());
    assert forall|x: int| 0 <= x < tasks.len() implies #[trigger] Seq::<int>::empty().contains(x)
        || q.contains(x) by {
        assert(q[x] == x);
    }
    lemma_rotate(tasks, q, Seq::empty(), 0);
}

proof fn lemma_prefix_outside(tasks: Seq<TaskModel>, o: Seq<int>, s: Set<int>, m: int)
    requires
        is_permutation(tasks, o),
        deps_placed_before(tasks, o),
        is_stuck_set(tasks, s),
        0 <= m <= o.len(),
    ensures
        forall|p: int| 0 <= p < m ==> !s.contains(#[trigger] o[p]),
    decreases m,
{
    if m > 0 {
        lemma_prefix_outside(tasks, o, s, m - 1);
        let i = o[m - 1];
        if s.contains(i) {
            let k = choose|k: int|
                0 <= k < tasks[i].depends_on.len() && #[trigger] named_only_inside(
                    tasks,
                    s,
                    tasks[i].depends_on[k],
                );
            let d = tasks[i].depends_on[k];
            assert(placed_before(tasks, o, m - 1, tasks[o[m - 1]].depends_on[k]));
            let p = choose|p: int| 0 <= p < m - 1 && tasks[o[p]].name == d;
            assert(!s.contains(o[p]));
            assert(tasks[o[p]].name != d);
        }
    }
}

/// A list that holds every task once, each after a task named by each of its
/// dependencies, leaves no set of tasks stuck.
pub proof fn lemma_sound_order_excludes_cycle(tasks: Seq<TaskModel>, o: Seq<int>)
    requires
        is_permutation(tasks, o),
        deps_placed_before(tasks, o),
    ensures
        !has_cycle(tasks),
{
    if has_cycle(tasks) {
        let s = choose|s: Set<int>| is_stuck_set(tasks, s);
        let i = choose|i: int| s.contains(i);
        lemma_prefix_outside(tasks, o, s, o.len() as int);
        assert(o.contains(i));
        let p = choose|p: int| 0 <= p < o.len() && o[p] == i;
        assert(!s.contains(o[p]));
    }
}

/// The orderer fails exactly when some set of tasks is stuck.
pub proof fn lemma_order_fails_iff_cycle(tasks: Seq<TaskModel>)
    ensures
        order_spec(tasks) is None <==> has_cycle(tasks),
{
    lemma_order_sound(tasks);
    if let Some(o) = order_spec(tasks) {
        lemma_sound_order_excludes_cycle(tasks, o);
    }
}

/// Names are unique within one build.
pub open spec fn names_unique(tasks: Seq<TaskModel>) -> bool {
    forall|i: int, j: int|
        0 <= i < tasks.len() && 0 <= j < tasks.len() && i != j ==> tasks[i].name != tasks[j].name
}

/// Two tasks that depend on each other make the orderer report a circular dependency.
pub proof fn lemma_mutual_dependency_is_cycle(tasks: Seq<TaskModel>, a: int, b: int, ka: int, kb: int)
    requires
        names_unique(tasks),
        0 <= a < tasks.len(),
        0 <= b < tasks.len(),
        a != b,
        0 <= ka < tasks[a].depends_on.len(),
        tasks[a].depends_on[ka] == tasks[b].name,
        0 <= kb < tasks[b].depends_on.len(),
        tasks[b].depends_on[kb] == tasks[a].name,
    ensures
        order_spec(tasks) is None,
{
    let s = Set::new(|i: int| i == a || i == b);
    assert(s.contains(a));
    assert(named_only_inside(tasks, s, tasks[a].depends_on[ka]));
    assert(named_only_inside(tasks, s, tasks[b].depends_on[kb]));
    assert(is_stuck_set(tasks, s));
    lemma_order_fails_iff_cycle(tasks);
}

/// The tasks at the positions listed in `o`.
pub open spec fn arrange(tasks: Seq<TaskModel>, o: Seq<int>) -> Seq<TaskModel> {
    Seq::new(o.len(), |i: int| tasks[o[i]])
}

pub open spec fn as_ints(s: Seq<usize>) -> Seq<int> {
    Seq::new(s.len(), |i: int| s[i] as int)
}

} // verus!
