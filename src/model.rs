use vstd::prelude::*;
use crate::text::{copy_opt, opt_view};

verus! {

/// A completion note: the message given when the task was completed.
#[derive(Debug, Clone, PartialEq, Eq)]
pub struct CompletionEntry {
    pub message: String,
    pub completed_at: String,
}

#[derive(Debug, Clone, Copy, PartialEq, Eq, Structural)]
pub enum TaskStatus {
    Pending,
    Completed,
}

/// One unit of work.
#[derive(Debug, Clone, PartialEq, Eq)]
pub struct Task {
    pub id: String,
    pub title: String,
    pub status: TaskStatus,
    pub created_at: String,
    pub scheduled_at: Option<String>,
    pub completed_at: Option<String>,
    pub completion_history: Vec<CompletionEntry>,
    pub urgent: bool,
}

/// The mathematical value of a completion note.
pub ghost struct EntryModel {
    pub message: Seq<char>,
    pub completed_at: Seq<char>,
}

/// The mathematical value of a task.
pub ghost struct TaskModel {
    pub id: Seq<char>,
    pub title: Seq<char>,
    pub status: TaskStatus,
    pub created_at: Seq<char>,
    pub scheduled_at: Option<Seq<char>>,
    pub completed_at: Option<Seq<char>>,
    pub completion_history: Seq<EntryModel>,
    pub urgent: bool,
}

impl View for CompletionEntry {
    type V = EntryModel;

    open spec fn view(&self) -> EntryModel {
        EntryModel { message: self.message@, completed_at: self.completed_at@ }
    }
}

pub open spec fn entries_model(s: Seq<CompletionEntry>) -> Seq<EntryModel> {
    s.map_values(|e: CompletionEntry| e@)
}

impl View for Task {
    type V = TaskModel;

    open spec fn view(&self) -> TaskModel {
        TaskModel {
            id: self.id@,
            title: self.title@,
            status: self.status,
            created_at: self.created_at@,
            scheduled_at: opt_view(self.scheduled_at),
            completed_at: opt_view(self.completed_at),
            completion_history: entries_model(self.completion_history@),
            urgent: self.urgent,
        }
    }
}

/// The models of a sequence of tasks.
pub open spec fn tasks_model(s: Seq<Task>) -> Seq<TaskModel> {
    s.map_values(|t: Task| t@)
}

impl CompletionEntry {
    pub fn copy(&self) -> (r: CompletionEntry)
        ensures
            r@ == self@,
    {
        CompletionEntry { message: self.message.clone(), completed_at: self.completed_at.clone() }
    }
}

/// Copies a list of completion notes.
pub fn copy_entries(v: &Vec<CompletionEntry>) -> (r: Vec<CompletionEntry>)
    ensures
        entries_model(r@) == entries_model(v@),
{
    let mut out: Vec<CompletionEntry> = Vec::new();
    let mut i: usize = 0;
    while i < v.len()
        invariant
            i <= v@.len(),
            out@.len() == i,
            forall|j: int| 0 <= j < i ==> (#[trigger] out@[j])@ == v@[j]@,
        decreases v@.len() - i,
    {
        out.push(v[i].copy());
        i = i + 1;
    }
    assert(entries_model(out@) =~= entries_model(v@));
    out
}

impl Task {
    pub fn copy(&self) -> (r: Task)
        ensures
            r@ == self@,
    {
        Task {
            id: self.id.clone(),
            title: self.title.clone(),
            status: self.status,
            created_at: self.created_at.clone(),
            scheduled_at: copy_opt(&self.scheduled_at),
            completed_at: copy_opt(&self.completed_at),
            completion_history: copy_entries(&self.completion_history),
            urgent: self.urgent,
        }
    }
}

/// Copies a list of tasks.
pub fn copy_tasks(v: &Vec<Task>) -> (r: Vec<Task>)
    ensures
        tasks_model(r@) == tasks_model(v@),
{
    let mut out: Vec<Task> = Vec::new();
    let mut i: usize = 0;
    while i < v.len()
        invariant
            i <= v@.len(),
            out@.len() == i,
            forall|j: int| 0 <= j < i ==> (#[trigger] out@[j])@ == v@[j]@,
        decreases v@.len() - i,
    {
        out.push(v[i].copy());
        i = i + 1;
    }
    assert(tasks_model(out@) =~= tasks_model(v@));
    out
}

/// The word a status is shown as.
pub fn status_label(status: TaskStatus) -> (r: &'static str)
    ensures
        r@ == (if status == TaskStatus::Pending {
            "pending"@
        } else {
            "completed"@
        }),
{
    match status {
        TaskStatus::Pending => "pending",
        TaskStatus::Completed => "completed",
    }
}

} // verus!
