use taskfile::executor::TaskRunner;
use taskfile::tasks::{Task, TaskFile};

#[test]
fn empty_manifest_lists_message() {
    let r = TaskRunner::new(TaskFile::new());
    assert_eq!(r.list_tasks(), vec!["No tasks found in Taskfile."]);
}

#[test]
fn table_is_sorted_and_aligned() {
    let mut file = TaskFile::new();
    file.insert(
        "dev".to_string(),
        Task {
            cmd: "npm run dev".to_string(),
            desc: None,
            depends_on: Some(vec!["build".to_string(), "lint".to_string()]),
        },
    );
    file.insert(
        "build".to_string(),
        Task {
            cmd: "cargo build".to_string(),
            desc: Some("Build the project".to_string()),
            depends_on: None,
        },
    );
    let lines = TaskRunner::new(file).list_tasks();
    let rule = |l: &str, m: &str, r: &str| {
        format!("{}{}{}{}{}{}{}", l, "─".repeat(7), m, "─".repeat(19), m, "─".repeat(13), r)
    };
    assert_eq!(
        lines,
        vec![
            rule("┌", "┬", "┐"),
            "│ Task  │    Description    │ Dependencies │".to_string(),
            rule("├", "┼", "┤"),
            "│ build │ Build the project │ -           │".to_string(),
            "│ dev   │ No description    │ build, lint │".to_string(),
            rule("└", "┴", "┘"),
        ]
    );
}

#[test]
fn narrow_table_keeps_minimum_widths() {
    let mut file = TaskFile::new();
    file.insert(
        "b".to_string(),
        Task { cmd: "x".to_string(), desc: Some("d".to_string()), depends_on: Some(vec![]) },
    );
    file.insert("a".to_string(), Task { cmd: "y".to_string(), desc: None, depends_on: None });
    let lines = TaskRunner::new(file).list_tasks();
    assert_eq!(lines.len(), 6);
    assert_eq!(lines[0], format!("┌{}┬{}┬{}┐", "─".repeat(6), "─".repeat(16), "─".repeat(12)));
    assert_eq!(lines[1], "│ Task │  Description   │ Dependencies │");
    assert_eq!(lines[3], "│ a    │ No description │ -          │");
    assert_eq!(lines[4], "│ b    │ d              │            │");
}
