use todo_core::error::AppError;
use todo_core::model::{Task, TaskStatus};
use todo_core::notify::{activation_argument, parse_activation_argument};

#[test]
fn task_has_required_fields() {
    let task = Task {
        id: "task-1".to_string(),
        title: "demo".to_string(),
        status: TaskStatus::Pending,
        created_at: "2025-12-20T00:00:00Z".to_string(),
        scheduled_at: None,
        completed_at: None,
        completion_history: Vec::new(),
        urgent: false,
    };

    assert_eq!(task.id, "task-1");
    assert_eq!(task.title, "demo");
    assert_eq!(task.status, TaskStatus::Pending);
    assert_eq!(task.created_at, "2025-12-20T00:00:00Z");
    assert_eq!(task.scheduled_at, None);
    assert_eq!(task.completed_at, None);
    assert!(task.completion_history.is_empty());
    assert!(!task.urgent);
}

#[test]
fn app_error_exposes_code() {
    let err = AppError::invalid_input("missing title");
    assert_eq!(err.code(), "invalid_input");
}

#[test]
fn app_error_codes_and_messages() {
    assert_eq!(AppError::invalid_data("x").code(), "invalid_data");
    assert_eq!(AppError::io("disk").code(), "io_error");
    assert_eq!(AppError::io("disk").message(), "disk");
    assert_eq!(AppError::invalid_input("bad").message(), "bad");
}

#[test]
fn activation_argument_round_trip() {
    let argument = activation_argument("task-1");
    let parsed = parse_activation_argument(&argument);
    assert_eq!(parsed.as_deref(), Some("task-1"));
}

#[test]
fn activation_argument_has_show_prefix() {
    assert_eq!(activation_argument("task-9"), "show:task-9");
    assert_eq!(parse_activation_argument("show:").as_deref(), Some(""));
    assert!(parse_activation_argument("sho").is_none());
}

#[test]
fn parse_activation_argument_rejects_other_values() {
    assert!(parse_activation_argument("other:task-1").is_none());
}
