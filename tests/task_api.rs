use todo_core::error::AppError;
use todo_core::model::{CompletionEntry, Task, TaskStatus};
use time::format_description::well_known::Rfc3339;
use time::OffsetDateTime;
use todo_core::notify::{NoopNotifier, Notifier};
use todo_core::storage::TaskState;
use todo_core::task_api::{
    add_task, add_task_with_urgency, complete_focused_task, complete_task, delete_task, edit_task,
    filter_tasks, get_task_by_id, is_overdue, list_backlog, list_backlog_with_focus, list_today,
    list_today_with_focus, notify_overdue_or_urgent, reschedule_task, schedule_task, set_focus,
    set_task_urgent, task_overdue, view_contains, ListMode,
};

fn at(text: &str) -> i128 {
    OffsetDateTime::parse(text, &Rfc3339)
        .unwrap()
        .unix_timestamp_nanos()
}

fn task(id: &str, title: &str, scheduled_at: Option<&str>) -> Task {
    Task {
        id: id.to_string(),
        title: title.to_string(),
        status: TaskStatus::Pending,
        created_at: "2025-12-01T00:00:00Z".to_string(),
        scheduled_at: scheduled_at.map(|s| s.to_string()),
        completed_at: None,
        completion_history: Vec::new(),
        urgent: false,
    }
}

fn state(tasks: Vec<Task>, focus: Option<&str>) -> TaskState {
    TaskState {
        tasks,
        focused_task_id: focus.map(|f| f.to_string()),
    }
}

fn ids(tasks: &[Task]) -> Vec<&str> {
    tasks.iter().map(|t| t.id.as_str()).collect()
}

#[test]
fn add_task_rejects_blank_title() {
    let mut s = TaskState::empty();
    let now = at("2025-12-20T00:00:00Z");
    let err = add_task(&mut s, "", now).unwrap_err();
    assert_eq!(err, AppError::InvalidInput("title is required".to_string()));
    let err = add_task(&mut s, "   ", now).unwrap_err();
    assert_eq!(err.code(), "invalid_input");
    assert!(s.tasks.is_empty());
}

#[test]
fn add_task_builds_pending_task_from_clock() {
    let mut s = TaskState::empty();
    let now = at("2025-12-20T00:00:00Z");
    let t = add_task_with_urgency(&mut s, "  demo  ", true, now).unwrap();
    assert_eq!(t.id, "task-1766188800000000000");
    assert_eq!(t.title, "demo");
    assert_eq!(t.created_at, "2025-12-20T00:00:00Z");
    assert_eq!(t.status, TaskStatus::Pending);
    assert!(t.urgent);
    assert_eq!(s.tasks, vec![t.clone()]);
    assert_eq!(get_task_by_id(&s, &t.id).unwrap(), t);
}

#[test]
fn add_then_list_buy_milk() {
    let mut s = TaskState::empty();
    let now = at("2025-12-20T08:00:00Z");
    let t = add_task(&mut s, "Buy milk", now).unwrap();
    assert_eq!(t.status, TaskStatus::Pending);
    assert_eq!(t.scheduled_at, None);
    assert_eq!(list_backlog(&s, now).unwrap(), vec![t]);
    assert!(list_today(&s, now).unwrap().is_empty());
}

#[test]
fn overdue_task_is_listed_today_and_can_be_rescheduled() {
    let mut s = state(vec![task("task-1", "late", Some("2025-12-20T09:00:00Z"))], None);
    let now = at("2025-12-21T00:00:00Z");
    assert_eq!(task_overdue(&s.tasks[0], now), Ok(true));
    assert_eq!(ids(&list_today(&s, now).unwrap()), vec!["task-1"]);
    let moved = reschedule_task(&mut s, "task-1", "2025-12-22T09:00:00Z", now).unwrap();
    assert_eq!(moved.scheduled_at.as_deref(), Some("2025-12-22T09:00:00Z"));
    assert_eq!(s.tasks[0], moved);
}

#[test]
fn focused_task_comes_first_in_today() {
    let mut s = state(
        vec![
            task("task-1", "a", Some("2025-12-20T08:00:00Z")),
            task("task-2", "b", Some("2025-12-20T09:00:00Z")),
            task("task-3", "c", None),
        ],
        None,
    );
    let now = at("2025-12-20T12:00:00Z");
    set_focus(&mut s, "task-2").unwrap();
    let listed = list_today_with_focus(&s, now).unwrap();
    assert_eq!(ids(&listed.tasks), vec!["task-2", "task-1"]);
    assert_eq!(listed.focused_task_id.as_deref(), Some("task-2"));
    assert_eq!(ids(&s.tasks), vec!["task-1", "task-2", "task-3"]);

    set_focus(&mut s, "task-3").unwrap();
    let listed = list_today_with_focus(&s, now).unwrap();
    assert_eq!(ids(&listed.tasks), vec!["task-1", "task-2"]);
    let backlog = list_backlog_with_focus(&s, now).unwrap();
    assert_eq!(ids(&backlog.tasks), vec!["task-3"]);
}

#[test]
fn today_and_backlog_split_at_now() {
    let s = state(
        vec![
            task("past", "p", Some("2025-12-19T09:00:00Z")),
            task("exact", "e", Some("2025-12-20T12:00:00Z")),
            task("future", "f", Some("2025-12-20T12:00:01Z")),
            task("none", "n", None),
        ],
        None,
    );
    let now = at("2025-12-20T12:00:00Z");
    assert_eq!(ids(&list_today(&s, now).unwrap()), vec!["past", "exact"]);
    assert_eq!(ids(&list_backlog(&s, now).unwrap()), vec!["future", "none"]);
}

#[test]
fn filter_tasks_returns_today_and_backlog() {
    let now = at("2025-12-20T12:00:00Z");
    let tasks = vec![
        task("task-1", "today", Some("2025-12-20T12:00:00Z")),
        task("task-2", "future", Some("2025-12-21T09:00:00Z")),
        task("task-3", "unscheduled", None),
    ];

    let today_tasks = filter_tasks(&tasks, now, ListMode::Today).unwrap();
    assert_eq!(today_tasks.len(), 1);
    assert_eq!(today_tasks[0].id, "task-1");

    let backlog_tasks = filter_tasks(&tasks, now, ListMode::Backlog).unwrap();
    assert_eq!(backlog_tasks.len(), 2);
    assert!(backlog_tasks.iter().any(|task| task.id == "task-2"));
    assert!(backlog_tasks.iter().any(|task| task.id == "task-3"));
}

#[test]
fn filter_tasks_backlog_includes_unscheduled_tasks() {
    let now = at("2025-12-20T12:00:00Z");
    let tasks = vec![
        task("future", "scheduled", Some("2025-12-22T10:00:00Z")),
        task("unscheduled", "later", None),
    ];

    let backlog_tasks = filter_tasks(&tasks, now, ListMode::Backlog).unwrap();
    assert_eq!(backlog_tasks.len(), 2);
    assert!(backlog_tasks.iter().any(|task| task.id == "future"));
    assert!(backlog_tasks.iter().any(|task| task.id == "unscheduled"));
}

#[test]
fn filter_tasks_reports_invalid_scheduled_at() {
    let now = at("2025-12-20T12:00:00Z");
    let tasks = vec![task("task-1", "bad", Some("not-a-date"))];

    let err = filter_tasks(&tasks, now, ListMode::Today).unwrap_err();
    assert_eq!(err.code(), "invalid_data");
}

#[test]
fn set_focus_sets_focused_task_id() {
    let mut s = state(vec![task("task-1", "first", None), task("task-2", "second", None)], None);
    let focused = set_focus(&mut s, " task-2 ").unwrap();
    assert_eq!(focused.id, "task-2");
    assert_eq!(s.focused_task_id, Some("task-2".to_string()));
    assert_eq!(s.tasks.len(), 2);
}

#[test]
fn set_focus_rejects_missing_task() {
    let mut s = state(vec![task("task-1", "first", None)], None);
    let err = set_focus(&mut s, "task-2").unwrap_err();
    assert_eq!(err, AppError::InvalidInput("task not found".to_string()));
    let err = set_focus(&mut s, "  ").unwrap_err();
    assert_eq!(err, AppError::InvalidInput("id is required".to_string()));
    assert_eq!(s.focused_task_id, None);
}

#[test]
fn set_task_urgent_updates_flag() {
    let mut s = state(vec![task("task-1", "urgent", None)], None);
    let updated = set_task_urgent(&mut s, "task-1", true).unwrap();
    assert!(updated.urgent);
    assert!(s.tasks[0].urgent);
    let cleared = set_task_urgent(&mut s, "task-1", false).unwrap();
    assert!(!cleared.urgent);
    assert!(!s.tasks[0].urgent);
}

#[test]
fn set_task_urgent_rejects_missing_task() {
    let mut s = TaskState::empty();
    let err = set_task_urgent(&mut s, "task-1", true).unwrap_err();
    assert_eq!(err.code(), "invalid_input");
}

#[test]
fn get_task_by_id_returns_task() {
    let t = task("task-1", "demo", None);
    let s = state(vec![t.clone()], None);
    assert_eq!(get_task_by_id(&s, "task-1").unwrap(), t);
    assert_eq!(get_task_by_id(&s, "task-9").unwrap_err().code(), "invalid_input");
}

#[test]
fn complete_focused_task_marks_completed_and_clears_focus() {
    let mut s = state(vec![task("task-1", "demo", None)], Some("task-1"));
    let now = at("2025-12-20T10:00:00Z");
    let completed = complete_focused_task(&mut s, Some(" ship it "), now).unwrap();
    assert_eq!(completed.status, TaskStatus::Completed);
    assert_eq!(completed.completed_at.as_deref(), Some("2025-12-20T10:00:00Z"));
    assert_eq!(
        completed.completion_history,
        vec![CompletionEntry {
            message: "ship it".to_string(),
            completed_at: "2025-12-20T10:00:00Z".to_string(),
        }]
    );
    assert_eq!(s.focused_task_id, None);
}

#[test]
fn complete_focused_task_rejects_missing_focus() {
    let mut s = TaskState::empty();
    let err = complete_focused_task(&mut s, None, 0).unwrap_err();
    assert_eq!(err, AppError::InvalidInput("no focused task".to_string()));
}

#[test]
fn complete_task_clears_focus_when_matching_id() {
    let mut s = state(vec![task("task-1", "demo", None)], Some("task-1"));
    let completed = complete_task(&mut s, "task-1", None, at("2025-12-20T10:00:00Z")).unwrap();
    assert_eq!(completed.status, TaskStatus::Completed);
    assert!(completed.completion_history.is_empty());
    assert_eq!(s.focused_task_id, None);
}

#[test]
fn complete_task_twice_fails_and_keeps_history() {
    let mut s = state(vec![task("task-1", "demo", None)], None);
    let now = at("2025-12-20T10:00:00Z");
    complete_task(&mut s, "task-1", Some("done"), now).unwrap();
    let before = s.clone();
    let err = complete_task(&mut s, "task-1", Some("again"), now).unwrap_err();
    assert_eq!(err, AppError::InvalidInput("task already completed".to_string()));
    assert_eq!(s, before);
    assert_eq!(s.tasks[0].completion_history.len(), 1);
}

#[test]
fn complete_task_rejects_blank_message() {
    let mut s = state(vec![task("task-1", "demo", None)], None);
    let err = complete_task(&mut s, "task-1", Some("  "), 0).unwrap_err();
    assert_eq!(err, AppError::InvalidInput("message is required".to_string()));
    assert_eq!(s.tasks[0].status, TaskStatus::Pending);
}

#[test]
fn edit_task_updates_title() {
    let before_edit = task("task-1", "old", Some("2025-12-22T09:00:00Z"));
    let mut s = state(vec![before_edit.clone()], Some("task-1"));
    let updated = edit_task(&mut s, "task-1", " new ").unwrap();
    assert_eq!(updated.title, "new");
    assert_eq!(updated.scheduled_at, before_edit.scheduled_at);
    assert_eq!(s.tasks[0].title, "new");
    assert_eq!(s.focused_task_id, None);
}

#[test]
fn edit_task_rejects_blank_title() {
    let mut s = state(vec![task("task-1", "old", None)], None);
    let err = edit_task(&mut s, "task-1", "  ").unwrap_err();
    assert_eq!(err, AppError::InvalidInput("title is required".to_string()));
}

#[test]
fn edit_task_rejects_missing_id() {
    let mut s = state(vec![task("task-1", "old", None)], None);
    let err = edit_task(&mut s, "task-2", "new").unwrap_err();
    assert_eq!(err, AppError::InvalidInput("task not found".to_string()));
}

#[test]
fn delete_task_removes_and_clears_focus() {
    let mut s = state(vec![task("task-1", "a", None), task("task-2", "b", None)], Some("task-2"));
    let removed = delete_task(&mut s, "task-2").unwrap();
    assert_eq!(removed.id, "task-2");
    assert_eq!(ids(&s.tasks), vec!["task-1"]);
    assert_eq!(s.focused_task_id, None);
    assert_eq!(delete_task(&mut s, "task-2").unwrap_err().code(), "invalid_input");
}

#[test]
fn delete_task_keeps_other_focus() {
    let mut s = state(vec![task("task-1", "a", None), task("task-2", "b", None)], Some("task-1"));
    delete_task(&mut s, "task-2").unwrap();
    assert_eq!(s.focused_task_id.as_deref(), Some("task-1"));
}

#[test]
fn schedule_task_normalizes_and_overwrites() {
    let mut s = state(vec![task("task-1", "a", Some("2025-12-22T09:00:00Z"))], None);
    let t = schedule_task(&mut s, "task-1", " 2025-12-20T10:00:00.000+02:00 ").unwrap();
    assert_eq!(t.scheduled_at.as_deref(), Some("2025-12-20T10:00:00+02:00"));
    let err = schedule_task(&mut s, "task-1", "tomorrow").unwrap_err();
    assert_eq!(err, AppError::InvalidInput("datetime must be RFC3339".to_string()));
    let err = schedule_task(&mut s, "task-1", " ").unwrap_err();
    assert_eq!(err, AppError::InvalidInput("datetime is required".to_string()));
}

#[test]
fn reschedule_requires_an_overdue_schedule() {
    let now = at("2025-12-21T00:00:00Z");
    let mut s = state(
        vec![
            task("future", "f", Some("2025-12-25T09:00:00Z")),
            task("none", "n", None),
        ],
        None,
    );
    let err = reschedule_task(&mut s, "future", "2025-12-30T09:00:00Z", now).unwrap_err();
    assert_eq!(err, AppError::InvalidInput("task is not overdue".to_string()));
    let err = reschedule_task(&mut s, "none", "2025-12-30T09:00:00Z", now).unwrap_err();
    assert_eq!(err, AppError::InvalidInput("task is not scheduled".to_string()));
    assert_eq!(s.tasks[0].scheduled_at.as_deref(), Some("2025-12-25T09:00:00Z"));
}

#[test]
fn is_overdue_compares_instants_across_offsets() {
    let now = at("2025-12-20T12:00:00Z");
    assert_eq!(is_overdue("2025-12-20T13:00:00+02:00", now), Ok(true));
    assert_eq!(is_overdue("2025-12-20T12:00:00Z", now), Ok(false));
    assert_eq!(is_overdue("junk", now).unwrap_err().code(), "invalid_data");
    assert_eq!(task_overdue(&task("t", "x", None), now), Ok(false));
}

#[test]
fn schedule_keeps_instant_and_offset() {
    let mut s = state(vec![task("task-1", "a", None)], None);
    let t = schedule_task(&mut s, "task-1", "2025-12-20T10:00:00+02:00").unwrap();
    assert_eq!(t.scheduled_at.as_deref(), Some("2025-12-20T10:00:00+02:00"));
    let now = at("2025-12-20T08:00:00Z");
    assert_eq!(task_overdue(&t, now), Ok(false));
    assert_eq!(task_overdue(&t, now + 1), Ok(true));
}

struct FailingFor(&'static str);

impl Notifier for FailingFor {
    fn notify(&self, task: &Task) -> Result<(), AppError> {
        if task.id == self.0 {
            Err(AppError::io("delivery failed"))
        } else {
            Ok(())
        }
    }

    fn notify_with_action(&self, task: &Task, _action: &str) -> Result<(), AppError> {
        self.notify(task)
    }
}

#[test]
fn notify_selects_pending_overdue_or_urgent() {
    let now = at("2025-12-21T00:00:00Z");
    let mut urgent = task("urgent", "u", None);
    urgent.urgent = true;
    let mut done = task("done", "d", Some("2025-12-19T00:00:00Z"));
    done.status = TaskStatus::Completed;
    done.urgent = true;
    let s = state(
        vec![
            task("late", "l", Some("2025-12-20T00:00:00Z")),
            urgent,
            done,
            task("later", "x", Some("2025-12-25T00:00:00Z")),
        ],
        None,
    );
    let out = notify_overdue_or_urgent(&s, &NoopNotifier, now).unwrap();
    assert_eq!(ids(&out.tasks), vec!["late", "urgent"]);
    assert!(out.failures.is_empty());

    let out = notify_overdue_or_urgent(&s, &FailingFor("late"), now).unwrap();
    assert_eq!(ids(&out.tasks), vec!["urgent"]);
    assert_eq!(out.failures.len(), 1);
    assert_eq!(out.failures[0].task_id, "late");
    assert_eq!(out.failures[0].error.code(), "io_error");
}

#[test]
fn notify_fails_on_unreadable_pending_schedule() {
    let s = state(vec![task("bad", "b", Some("soon"))], None);
    let err = notify_overdue_or_urgent(&s, &NoopNotifier, 0).unwrap_err();
    assert_eq!(err.code(), "invalid_data");
}

#[test]
fn view_contains_splits_at_now() {
    assert!(view_contains(Some(5), 5, ListMode::Today));
    assert!(!view_contains(Some(5), 5, ListMode::Backlog));
    assert!(view_contains(Some(6), 5, ListMode::Backlog));
    assert!(!view_contains(Some(6), 5, ListMode::Today));
    assert!(view_contains(None, 5, ListMode::Backlog));
    assert!(!view_contains(None, 5, ListMode::Today));
}
