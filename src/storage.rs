use vstd::prelude::*;
use crate::error::{AppError, fails_data};
use crate::model::{Task, TaskModel, copy_tasks, tasks_model};
use crate::text::{copy_opt, opt_view, str_eq};

verus! {

/// The schema version that is written, and the newest that is read.
pub const SCHEMA_VERSION: u32 = 5;

/// The whole persisted world: the tasks and the focus reference.
#[derive(Debug, Clone, PartialEq, Eq)]
pub struct TaskState {
    pub tasks: Vec<Task>,
    pub focused_task_id: Option<String>,
}

/// The persisted document: the state with the schema version it was
/// written under.
#[derive(Debug, Clone, PartialEq, Eq)]
pub struct StoredTasks {
    pub schema_version: u32,
    pub tasks: Vec<Task>,
    pub focused_task_id: Option<String>,
}

pub ghost struct StateModel {
    pub tasks: Seq<TaskModel>,
    pub focused_task_id: Option<Seq<char>>,
}

pub ghost struct DocumentModel {
    pub schema_version: int,
    pub tasks: Seq<TaskModel>,
    pub focused_task_id: Option<Seq<char>>,
}

impl View for TaskState {
    type V = StateModel;

    open spec fn view(&self) -> StateModel {
        StateModel { tasks: tasks_model(self.tasks@), focused_task_id: opt_view(self.focused_task_id) }
    }
}

impl View for StoredTasks {
    type V = DocumentModel;

    open spec fn view(&self) -> DocumentModel {
        DocumentModel {
            schema_version: self.schema_version as int,
            tasks: tasks_model(self.tasks@),
            focused_task_id: opt_view(self.focused_task_id),
        }
    }
}

/// Some task in `tasks` has the id `id`.
pub open spec fn has_task(tasks: Seq<TaskModel>, id: Seq<char>) -> bool {
    exists|i: int| 0 <= i < tasks.len() && (#[trigger] tasks[i]).id == id
}

/// The focus reference, when present, names a task that exists.
pub open spec fn focus_valid(s: StateModel) -> bool {
    match s.focused_task_id {
        Some(f) => has_task(s.tasks, f),
        None => true,
    }
}

/// The outcome of reading a document: the state it holds, or why it is refused.
pub enum LoadOutcome {
    Loaded(StateModel),
    BadVersion,
    DanglingFocus,
}

/// Reading accepts any schema version from one to the current one, and a
/// focus reference only when it names an existing task.
pub open spec fn load_outcome(d: DocumentModel) -> LoadOutcome {
    if !(1 <= d.schema_version <= SCHEMA_VERSION) {
        LoadOutcome::BadVersion
    } else if !focus_valid(StateModel { tasks: d.tasks, focused_task_id: d.focused_task_id }) {
        LoadOutcome::DanglingFocus
    } else {
        LoadOutcome::Loaded(StateModel { tasks: d.tasks, focused_task_id: d.focused_task_id })
    }
}

/// The document written for a state: always under the current version.
pub open spec fn document_of(s: StateModel) -> DocumentModel {
    DocumentModel { schema_version: SCHEMA_VERSION as int, tasks: s.tasks, focused_task_id: s.focused_task_id }
}

impl TaskState {
    /// The state is well formed: its focus reference names an existing task.
    pub open spec fn wf(&self) -> bool {
        focus_valid(self@)
    }

    /// The state of a store where nothing has been written yet.
    pub fn empty() -> (r: TaskState)
        ensures
            r@.tasks.len() == 0,
            r@.focused_task_id is None,
            r.wf(),
    {
        TaskState { tasks: Vec::new(), focused_task_id: None }
    }
}

/// Whether some task in `tasks` has the id `id`.
pub fn contains_id(tasks: &Vec<Task>, id: &str) -> (r: bool)
    ensures
        r == has_task(tasks_model(tasks@), id@),
{
    let ghost m = tasks_model(tasks@);
    let mut i: usize = 0;
    while i < tasks.len()
        invariant
            i <= tasks@.len(),
            m == tasks_model(tasks@),
            forall|j: int| 0 <= j < i ==> (#[trigger] m[j]).id != id@,
        decreases tasks@.len() - i,
    {
        if str_eq(tasks[i].id.as_str(), id) {
            assert(m[i as int].id == id@);
            return true;
        }
        i = i + 1;
    }
    false
}

/// Checks a document that was read and yields the state it holds.
pub fn state_from_document(doc: StoredTasks) -> (r: Result<TaskState, AppError>)
    ensures
        load_outcome(doc@) is BadVersion ==> fails_data(r, "schema_version mismatch"@),
        load_outcome(doc@) is DanglingFocus ==> fails_data(r, "focused_task_id not found"@),
        load_outcome(doc@) is Loaded ==> r is Ok && r->Ok_0@ == load_outcome(doc@)->Loaded_0,
        r is Ok ==> r->Ok_0.wf(),
{
    if doc.schema_version < 1 || doc.schema_version > SCHEMA_VERSION {
        return Err(AppError::invalid_data("schema_version mismatch"));
    }
    let exists = match &doc.focused_task_id {
        Some(f) => contains_id(&doc.tasks, f.as_str()),
        None => true,
    };
    if !exists {
        return Err(AppError::invalid_data("focused_task_id not found"));
    }
    Ok(TaskState { tasks: doc.tasks, focused_task_id: doc.focused_task_id })
}

/// The document to write for a state.
pub fn document_from_state(state: &TaskState) -> (r: StoredTasks)
    ensures
        r@ == document_of(state@),
{
    StoredTasks {
        schema_version: SCHEMA_VERSION,
        tasks: copy_tasks(&state.tasks),
        focused_task_id: copy_opt(&state.focused_task_id),
    }
}

/// Writing a well-formed state and reading the document back yields the
/// same state.
pub proof fn lemma_save_load_round_trip(s: StateModel)
    requires
        focus_valid(s),
    ensures
        load_outcome(document_of(s)) == LoadOutcome::Loaded(s),
{
}

/// A document whose schema version is newer than the current one is refused.
pub proof fn lemma_newer_schema_refused(d: DocumentModel)
    requires
        d.schema_version > SCHEMA_VERSION,
    ensures
        load_outcome(d) is BadVersion,
{
}

} // verus!
