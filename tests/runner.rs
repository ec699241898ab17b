use taskfile::env::EnvParser;
use taskfile::executor::{Exit, RunError, TaskRunner};
use taskfile::tasks::{Task, TaskFile};

fn task(cmd: &str, deps: &[&str]) -> Task {
    Task {
        cmd: cmd.to_string(),
        desc: None,
        depends_on: if deps.is_empty() {
            None
        } else {
            Some(deps.iter().map(|d| d.to_string()).collect())
        },
    }
}

fn runner(tasks: Vec<(&str, Task)>) -> TaskRunner {
    let mut file = TaskFile::new();
    for (name, t) in tasks {
        file.insert(name.to_string(), t);
    }
    TaskRunner::new(file)
}

fn planned(r: &TaskRunner, name: &str) -> Vec<String> {
    r.plan(name).steps.iter().map(|s| s.task.clone()).collect()
}

#[test]
fn lib_test_task_operations() {
    let mut tasks = TaskFile::new();
    tasks.insert(
        "test".to_string(),
        Task {
            cmd: "echo 'hello'".to_string(),
            desc: Some("Test description".to_string()),
            depends_on: None,
        },
    );

    let runner = TaskRunner::new(tasks);

    assert!(runner.has_task("test"));
    assert!(!runner.has_task("nonexistent"));
    assert_eq!(runner.task_count(), 1);

    let task = runner.get_task("test");
    assert!(task.is_some());
    assert_eq!(task.unwrap().cmd, "echo 'hello'");
}

#[test]
fn single_task_runs_one_process() {
    let r = runner(vec![("build", task("cargo build --release", &[]))]);
    let plan = r.plan("build");
    assert!(plan.fault.is_none());
    assert_eq!(plan.steps.len(), 1);
    assert_eq!(plan.steps[0].task, "build");
    assert_eq!(plan.steps[0].command, "cargo build --release");
    assert_eq!(plan.steps[0].words, vec!["cargo", "build", "--release"]);

    let mut run = r.run_task("build");
    assert_eq!(run.pending().unwrap().task, "build");
    run.advance(Exit::Code(0));
    assert!(run.pending().is_none());
    assert!(run.finish().is_ok());
}

#[test]
fn chain_runs_deepest_first() {
    let r = runner(vec![
        ("a", task("echo a", &["b"])),
        ("b", task("echo b", &["c"])),
        ("c", task("echo c", &[])),
    ]);
    assert_eq!(planned(&r, "a"), vec!["c", "b", "a"]);

    let mut run = r.run_task("a");
    let mut order = Vec::new();
    while let Some(step) = run.pending() {
        order.push(step.task.clone());
        run.advance(Exit::Code(0));
    }
    assert_eq!(order, vec!["c", "b", "a"]);
    assert!(run.finish().is_ok());
}

#[test]
fn chain_stops_when_dependency_fails() {
    let r = runner(vec![
        ("a", task("echo a", &["b"])),
        ("b", task("echo b", &["c"])),
        ("c", task("false", &[])),
    ]);
    let mut run = r.run_task("a");
    assert_eq!(run.pending().unwrap().task, "c");
    run.advance(Exit::Code(1));
    assert!(run.pending().is_none());
    match run.finish() {
        Err(RunError::NonZeroExit { task, code }) => {
            assert_eq!(task, "c");
            assert_eq!(code, 1);
        }
        other => panic!("unexpected {:?}", other),
    }
}

#[test]
fn mutual_dependency_is_a_cycle() {
    let r = runner(vec![("a", task("echo a", &["b"])), ("b", task("echo b", &["a"]))]);
    let plan = r.plan("a");
    assert!(plan.steps.is_empty());
    match plan.fault {
        Some(RunError::CircularDependency { task }) => assert_eq!(task, "a"),
        other => panic!("unexpected {:?}", other),
    }
    let run = r.run_task("a");
    assert!(run.pending().is_none());
    let err = run.finish().unwrap_err();
    assert_eq!(err.message(), "Circular dependency detected for task 'a'");
}

#[test]
fn self_dependency_is_a_cycle() {
    let r = runner(vec![("a", task("echo a", &["a"]))]);
    match r.plan("a").fault {
        Some(RunError::CircularDependency { task }) => assert_eq!(task, "a"),
        other => panic!("unexpected {:?}", other),
    }
}

#[test]
fn missing_dependency_names_both() {
    let r = runner(vec![("a", task("echo a", &["z"]))]);
    let plan = r.plan("a");
    assert!(plan.steps.is_empty());
    match plan.fault {
        Some(RunError::DependencyNotFound { dependency, task }) => {
            assert_eq!(dependency, "z");
            assert_eq!(task, "a");
        }
        other => panic!("unexpected {:?}", other),
    }
    let err = r.run_task("a").finish().unwrap_err();
    assert_eq!(err.message(), "Dependency 'z' not found for task 'a'");
}

#[test]
fn missing_dependency_after_a_sibling() {
    let r = runner(vec![("a", task("echo a", &["b", "z", "c"])), ("b", task("echo b", &[])), ("c", task("echo c", &[]))]);
    let plan = r.plan("a");
    assert_eq!(plan.steps.len(), 1);
    assert_eq!(plan.steps[0].task, "b");
    assert!(matches!(plan.fault, Some(RunError::DependencyNotFound { .. })));
}

#[test]
fn unknown_task_is_not_found() {
    let r = runner(vec![("a", task("echo a", &[]))]);
    let err = r.run_task("nope").finish().unwrap_err();
    assert!(matches!(err, RunError::TaskNotFound { .. }));
    assert_eq!(err.message(), "Task 'nope' not found in Taskfile");
}

#[test]
fn empty_command_fails_before_spawning() {
    let r = runner(vec![
        ("blank", task("   \t ", &[])),
        ("none", task("", &[])),
        ("wide", task("\u{3000}\u{a0}\n", &[])),
    ]);
    for name in ["blank", "none", "wide"] {
        let run = r.run_task(name);
        assert!(run.pending().is_none());
        let err = run.finish().unwrap_err();
        assert!(matches!(err, RunError::EmptyCommand { .. }));
        assert_eq!(err.message(), format!("Empty command for task '{}'", name));
    }
}

#[test]
fn exit_code_three_is_carried() {
    let r = runner(vec![("fail", task("sh -c 'exit 3'", &[]))]);
    let mut run = r.run_task("fail");
    assert!(run.pending().is_some());
    run.advance(Exit::Code(3));
    assert!(run.pending().is_none());
    let err = run.finish().unwrap_err();
    match &err {
        RunError::NonZeroExit { task, code } => {
            assert_eq!(task, "fail");
            assert_eq!(*code, 3);
        }
        other => panic!("unexpected {:?}", other),
    }
    assert_eq!(err.message(), "Task 'fail' failed with exit code 3");
}

#[test]
fn unreadable_exit_code_and_spawn_failure() {
    let r = runner(vec![("t", task("x", &[]))]);
    let mut run = r.run_task("t");
    run.advance(Exit::Code(-1));
    assert_eq!(run.finish().unwrap_err().message(), "Task 't' failed with exit code -1");

    let mut run = r.run_task("t");
    run.advance(Exit::SpawnFailed("no such file".to_string()));
    let err = run.finish().unwrap_err();
    assert!(matches!(err, RunError::SpawnFailure { .. }));
    assert_eq!(err.message(), "Task 't' could not be started: no such file");
}

#[test]
fn commands_are_substituted_then_split() {
    let mut file = TaskFile::new();
    file.insert("greet".to_string(), task("echo  $WHO\u{3000}$NOPE", &[]));
    let mut env = EnvParser::new();
    env.set_env_var("WHO", "big world");
    let r = TaskRunner::with_env(file, env);
    let plan = r.plan("greet");
    assert_eq!(plan.steps[0].command, "echo  big world\u{3000}$NOPE");
    assert_eq!(plan.steps[0].words, vec!["echo", "big", "world", "$NOPE"]);
}

#[test]
fn tasks_rerun_in_a_later_run() {
    let r = runner(vec![("a", task("echo a", &["c"])), ("b", task("echo b", &["c"])), ("c", task("echo c", &[]))]);
    assert_eq!(planned(&r, "a"), vec!["c", "a"]);
    assert_eq!(planned(&r, "a"), vec!["c", "a"]);
    assert_eq!(planned(&r, "b"), vec!["c", "b"]);
}

#[test]
fn diamond_runs_shared_dependency_per_branch() {
    let r = runner(vec![
        ("top", task("echo top", &["l", "r"])),
        ("l", task("echo l", &["base"])),
        ("r", task("echo r", &["base"])),
        ("base", task("echo base", &[])),
    ]);
    assert_eq!(planned(&r, "top"), vec!["base", "l", "base", "r", "top"]);
}

#[test]
fn task_names_and_insert_replace() {
    let mut file = TaskFile::new();
    file.insert("x".to_string(), task("one", &[]));
    file.insert("y".to_string(), task("two", &[]));
    file.insert("x".to_string(), task("three", &[]));
    let r = TaskRunner::new(file);
    assert_eq!(r.task_count(), 2);
    let mut names: Vec<String> = r.get_task_names().into_iter().cloned().collect();
    names.sort();
    assert_eq!(names, vec!["x", "y"]);
    assert_eq!(r.get_task("x").unwrap().cmd, "three");
}
