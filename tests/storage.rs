use todo_core::model::{Task, TaskStatus};
use todo_core::storage::{document_from_state, state_from_document, StoredTasks, TaskState, SCHEMA_VERSION};

fn demo() -> Task {
    Task {
        id: "task-1".to_string(),
        title: "demo".to_string(),
        status: TaskStatus::Pending,
        created_at: "2025-12-20T00:00:00Z".to_string(),
        scheduled_at: None,
        completed_at: None,
        completion_history: Vec::new(),
        urgent: false,
    }
}

#[test]
fn save_and_load_state_preserves_focus() {
    let state = TaskState {
        tasks: vec![demo()],
        focused_task_id: Some("task-1".to_string()),
    };
    let doc = document_from_state(&state);
    assert_eq!(doc.schema_version, SCHEMA_VERSION);
    let loaded = state_from_document(doc).unwrap();
    assert_eq!(loaded, state);
}

#[test]
fn accepts_v1_schema() {
    let doc = StoredTasks {
        schema_version: 1,
        tasks: vec![demo()],
        focused_task_id: None,
    };
    let loaded = state_from_document(doc).unwrap();
    assert_eq!(loaded.tasks, vec![demo()]);
}

#[test]
fn rejects_unknown_focused_task_id() {
    let doc = StoredTasks {
        schema_version: 4,
        tasks: vec![demo()],
        focused_task_id: Some("task-missing".to_string()),
    };
    let err = state_from_document(doc).unwrap_err();
    assert_eq!(err.code(), "invalid_data");
    assert_eq!(err.message(), "focused_task_id not found");
}

#[test]
fn schema_version_must_match() {
    for version in [0, SCHEMA_VERSION + 1] {
        let doc = StoredTasks {
            schema_version: version,
            tasks: Vec::new(),
            focused_task_id: None,
        };
        let err = state_from_document(doc).unwrap_err();
        assert_eq!(err.code(), "invalid_data");
        assert_eq!(err.message(), "schema_version mismatch");
    }
}

#[test]
fn empty_state_has_nothing() {
    let s = TaskState::empty();
    assert!(s.tasks.is_empty());
    assert_eq!(s.focused_task_id, None);
}
