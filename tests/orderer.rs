use repo_task_run::task::{ExecutionContext, Task, TaskType};
use repo_task_run::task_fetcher::{TaskFetcher, TaskFetchterError};

fn task(name: &str, deps: &[&str]) -> Task {
    Task {
        type_: TaskType::OnBoot,
        name: name.to_string(),
        depends_on: deps.iter().map(|d| d.to_string()).collect(),
        context: ExecutionContext::System,
        user_filter: vec![],
        group_filter: vec![],
        reboot_required: false,
        executable: format!("{}.ps1", name),
        hash: name.to_string(),
    }
}

fn order(tasks: &[Task]) -> Option<Vec<String>> {
    TaskFetcher::order_tasks_by_dependency(tasks).map(|v| v.iter().map(|t| t.name.clone()).collect())
}

#[test]
fn independent_tasks_keep_discovery_order() {
    let t = vec![task("a", &[]), task("b", &[]), task("c", &[])];
    assert_eq!(order(&t).unwrap(), vec!["a", "b", "c"]);
}

#[test]
fn dependencies_come_first() {
    let t = vec![task("d", &["c"]), task("c", &["b", "a"]), task("b", &["a"]), task("a", &[])];
    let o = order(&t).unwrap();
    assert_eq!(o, vec!["a", "b", "c", "d"]);
}

#[test]
fn rotation_order_is_exact() {
    let t = vec![task("x", &["z"]), task("y", &[]), task("z", &["y"])];
    assert_eq!(order(&t).unwrap(), vec!["y", "z", "x"]);
}

#[test]
fn every_dependency_precedes_its_dependent() {
    let t = vec![
        task("e", &["a", "d"]),
        task("d", &["b"]),
        task("c", &[]),
        task("b", &["c"]),
        task("a", &["c"]),
    ];
    let o = order(&t).unwrap();
    assert_eq!(o.len(), 5);
    for (i, n) in o.iter().enumerate() {
        let tk = t.iter().find(|x| &x.name == n).unwrap();
        for d in &tk.depends_on {
            assert!(o[..i].contains(d));
        }
    }
}

#[test]
fn empty_list_orders_to_empty() {
    assert_eq!(order(&[]).unwrap(), Vec::<String>::new());
}

#[test]
fn two_tasks_depending_on_each_other_are_a_cycle() {
    let t = vec![task("a", &["b"]), task("b", &["a"])];
    assert!(order(&t).is_none());
}

#[test]
fn missing_dependency_is_reported_as_cycle() {
    let t = vec![task("a", &[]), task("b", &["nope"])];
    assert!(order(&t).is_none());
}

#[test]
fn self_dependency_is_a_cycle() {
    let t = vec![task("a", &["a"])];
    assert!(order(&t).is_none());
}

#[test]
fn circular_dependency_error_describes_itself() {
    assert_eq!(
        TaskFetchterError::CircularDependecy.description(),
        "Tasks with circular dependencies cannot be ordered."
    );
}
