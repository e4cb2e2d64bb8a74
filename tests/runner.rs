use repo_task_run::task::{ExecutionContext, Task, TaskType, Tasks};
use repo_task_run::task_runner::{RunAction, RunEvent, TaskRunner};

fn task(name: &str, t: TaskType, reboot: bool, hash: &str) -> Task {
    Task {
        type_: t,
        name: name.to_string(),
        depends_on: vec![],
        context: ExecutionContext::System,
        user_filter: vec![],
        group_filter: vec![],
        reboot_required: reboot,
        executable: format!("{}.ps1", name),
        hash: hash.to_string(),
    }
}

fn copy(ts: &[Task]) -> Tasks {
    Tasks(ts.iter().map(|t| t.duplicate()).collect())
}

/// Drives a run the way the agent does; returns the tasks executed and the final action.
fn drive(r: &mut TaskRunner, fail: &[&str]) -> (Vec<String>, RunAction) {
    let mut ran = Vec::new();
    let mut action = r.run(RunEvent::Start);
    while let RunAction::Execute(i) = action {
        let name = r.task_list[i].name.clone();
        let ok = !fail.contains(&name.as_str());
        ran.push(name);
        action = r.run(RunEvent::TaskFinished(ok));
    }
    (ran, action)
}

fn snapshot(r: &TaskRunner) -> TaskRunner {
    TaskRunner {
        done_oneshot_tasks: r.done_oneshot_tasks.clone(),
        task_list: r.task_list.iter().map(|t| t.duplicate()).collect(),
        next_task: r.next_task,
        execution_context: r.execution_context,
    }
}

#[test]
fn fresh_runner_starts_empty() {
    let ts = vec![task("a", TaskType::OnBoot, false, "h")];
    let r = TaskRunner::new(ExecutionContext::User, copy(&ts), true, None);
    assert_eq!(r.next_task, 0);
    assert!(r.done_oneshot_tasks.is_empty());
    assert_eq!(r.task_list.len(), 1);
    assert_eq!(r.execution_context, ExecutionContext::User);
}

#[test]
fn all_tasks_run_in_order_and_complete() {
    let ts = vec![
        task("a", TaskType::OnBoot, false, "1"),
        task("b", TaskType::OneShot, false, "2"),
        task("c", TaskType::OnBoot, false, "3"),
    ];
    let mut r = TaskRunner::new(ExecutionContext::System, copy(&ts), true, None);
    let (ran, action) = drive(&mut r, &[]);
    assert_eq!(ran, vec!["a", "b", "c"]);
    assert_eq!(action, RunAction::Complete);
    assert_eq!(r.next_task, 3);
    assert_eq!(r.done_oneshot_tasks, vec![("b".to_string(), "2".to_string())]);
}

#[test]
fn oneshot_is_skipped_while_hash_unchanged() {
    let ts = vec![task("a", TaskType::OneShot, false, "H"), task("b", TaskType::OnBoot, false, "x")];
    let mut r = TaskRunner::new(ExecutionContext::System, copy(&ts), true, None);
    let (ran, _) = drive(&mut r, &[]);
    assert_eq!(ran, vec!["a", "b"]);
    let mut r2 = TaskRunner::new(ExecutionContext::System, copy(&ts), true, Some(snapshot(&r)));
    let (ran2, action2) = drive(&mut r2, &[]);
    assert_eq!(ran2, vec!["b"]);
    assert_eq!(action2, RunAction::Complete);
}

#[test]
fn oneshot_reruns_after_hash_change() {
    let ts = vec![task("a", TaskType::OneShot, false, "H")];
    let mut r = TaskRunner::new(ExecutionContext::System, copy(&ts), true, None);
    drive(&mut r, &[]);
    let edited = vec![task("a", TaskType::OneShot, false, "H2")];
    let mut r2 = TaskRunner::new(ExecutionContext::System, copy(&edited), true, Some(snapshot(&r)));
    let (ran2, _) = drive(&mut r2, &[]);
    assert_eq!(ran2, vec!["a"]);
    assert_eq!(r2.done_oneshot_tasks, vec![("a".to_string(), "H2".to_string())]);
}

#[test]
fn changed_content_resets_cursor_and_prunes_registry() {
    let old = TaskRunner {
        done_oneshot_tasks: vec![
            ("gone".to_string(), "1".to_string()),
            ("kept".to_string(), "2".to_string()),
        ],
        task_list: vec![task("gone", TaskType::OneShot, false, "1")],
        next_task: 1,
        execution_context: ExecutionContext::System,
    };
    let ts = vec![task("kept", TaskType::OneShot, false, "2")];
    let r = TaskRunner::new(ExecutionContext::System, copy(&ts), true, Some(old));
    assert_eq!(r.next_task, 0);
    assert_eq!(r.done_oneshot_tasks, vec![("kept".to_string(), "2".to_string())]);
    assert_eq!(r.task_list[0].name, "kept");
}

#[test]
fn unchanged_content_keeps_restored_state() {
    let old = TaskRunner {
        done_oneshot_tasks: vec![],
        task_list: vec![task("a", TaskType::OnBoot, true, "1"), task("b", TaskType::OnBoot, false, "2")],
        next_task: 1,
        execution_context: ExecutionContext::System,
    };
    let fetched = vec![task("z", TaskType::OnBoot, false, "9")];
    let r = TaskRunner::new(ExecutionContext::System, copy(&fetched), false, Some(old));
    assert_eq!(r.next_task, 1);
    assert_eq!(r.task_list.len(), 2);
    assert_eq!(r.task_list[1].name, "b");
}

#[test]
fn reboot_task_checkpoints_and_resume_starts_after_it() {
    let ts = vec![
        task("a", TaskType::OnBoot, false, "1"),
        task("n", TaskType::OnBoot, true, "2"),
        task("c", TaskType::OnBoot, false, "3"),
    ];
    let mut r = TaskRunner::new(ExecutionContext::System, copy(&ts), true, None);
    let (ran, action) = drive(&mut r, &[]);
    assert_eq!(ran, vec!["a", "n"]);
    assert_eq!(action, RunAction::Reboot);
    assert_eq!(r.next_task, 2);
    let mut resumed = TaskRunner::new(ExecutionContext::System, copy(&ts), false, Some(snapshot(&r)));
    let (ran2, action2) = drive(&mut resumed, &[]);
    assert_eq!(ran2, vec!["c"]);
    assert_eq!(action2, RunAction::Complete);
}

#[test]
fn failure_halts_and_aborts() {
    let ts = vec![
        task("a", TaskType::OneShot, false, "1"),
        task("k", TaskType::OneShot, false, "2"),
        task("z", TaskType::OnBoot, false, "3"),
    ];
    let mut r = TaskRunner::new(ExecutionContext::System, copy(&ts), true, None);
    let (ran, action) = drive(&mut r, &["k"]);
    assert_eq!(ran, vec!["a", "k"]);
    assert_eq!(action, RunAction::Abort);
    assert_eq!(r.next_task, 1);
    assert_eq!(r.done_oneshot_tasks, vec![("a".to_string(), "1".to_string())]);
}

#[test]
fn finished_event_past_the_end_completes() {
    let mut r = TaskRunner::new(ExecutionContext::System, Tasks(vec![]), true, None);
    assert_eq!(r.run(RunEvent::TaskFinished(false)), RunAction::Complete);
    assert_eq!(r.run(RunEvent::Start), RunAction::Complete);
}

#[test]
fn end_to_end_setup_reboots_then_cleanup_runs() {
    let mut setup = task("setup", TaskType::OneShot, true, "s");
    setup.depends_on = vec![];
    let mut cleanup = task("cleanup", TaskType::OneShot, false, "c");
    cleanup.depends_on = vec!["setup".to_string()];
    let ts = vec![setup, cleanup];
    let mut r = TaskRunner::new(ExecutionContext::System, copy(&ts), true, None);
    let (ran, action) = drive(&mut r, &[]);
    assert_eq!(ran, vec!["setup"]);
    assert_eq!(action, RunAction::Reboot);
    assert_eq!(r.next_task, 1);
    // the next invocation re-fetches (always reported as changed)
    let mut fresh = TaskRunner::new(ExecutionContext::System, copy(&ts), true, Some(snapshot(&r)));
    let (ran2, action2) = drive(&mut fresh, &[]);
    assert_eq!(ran2, vec!["cleanup"]);
    assert_eq!(action2, RunAction::Complete);
}
