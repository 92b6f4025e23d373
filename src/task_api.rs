use vstd::prelude::*;
use crate::error::{AppError, fails_data, fails_input};
use crate::model::{CompletionEntry, EntryModel, Task, TaskModel, TaskStatus, entries_model, tasks_model};
use crate::moment::{
    Stamp, decimal_of, format_rfc3339, instant_of, normalized, parse_rfc3339, push_decimal,
    rfc3339_reading, rfc3339_text,
};
use crate::notify::{Notifier, activation_argument};
use crate::storage::{StateModel, TaskState, focus_valid, has_task};
use crate::text::{copy_opt, is_blank, opt_view, str_eq, trim, trimmed};

verus! {

/// Why an operation was refused: a bad argument or untrustworthy stored data.
pub ghost enum Failure {
    Input(Seq<char>),
    Data(Seq<char>),
}

/// `r` is the error that `f` describes.
pub open spec fn fails_with<T>(r: Result<T, AppError>, f: Failure) -> bool {
    match f {
        Failure::Input(m) => fails_input(r, m),
        Failure::Data(m) => fails_data(r, m),
    }
}

/// A mutation returned what `o` says, and left the state as `o` says: the
/// new state on success, the old one on failure.
pub open spec fn applied(
    r: Result<Task, AppError>,
    before: StateModel,
    after: StateModel,
    o: Result<(StateModel, TaskModel), Failure>,
) -> bool {
    match o {
        Ok(p) => r is Ok && r->Ok_0@ == p.1 && after == p.0,
        Err(f) => fails_with(r, f) && after == before,
    }
}

/// The index of the first task with id `id`, or -1 when there is none.
pub open spec fn find_task(tasks: Seq<TaskModel>, id: Seq<char>) -> int
    decreases tasks.len(),
{
    if tasks.len() == 0 {
        -1
    } else {
        let k = find_task(tasks.drop_last(), id);
        if k >= 0 {
            k
        } else if tasks.last().id == id {
            tasks.len() - 1
        } else {
            -1
        }
    }
}

pub proof fn lemma_find_task(tasks: Seq<TaskModel>, id: Seq<char>)
    ensures
        ({
            let k = find_task(tasks, id);
            ||| (k == -1 && forall|j: int| 0 <= j < tasks.len() ==> (#[trigger] tasks[j]).id != id)
            ||| (0 <= k < tasks.len() && tasks[k].id == id && forall|j: int|
                0 <= j < k ==> (#[trigger] tasks[j]).id != id)
        }),
        find_task(tasks, id) >= 0 <==> has_task(tasks, id),
    decreases tasks.len(),
{
    if tasks.len() > 0 {
        lemma_find_task(tasks.drop_last(), id);
        assert(forall|j: int| 0 <= j < tasks.len() - 1 ==> tasks.drop_last()[j] == tasks[j]);
    }
    let k = find_task(tasks, id);
    if k >= 0 {
        assert(tasks[k].id == id);
    }
}

/// The first match is fixed by any index that matches with no match before it.
pub proof fn lemma_find_task_at(tasks: Seq<TaskModel>, id: Seq<char>, k: int)
    requires
        0 <= k < tasks.len(),
        tasks[k].id == id,
        forall|j: int| 0 <= j < k ==> (#[trigger] tasks[j]).id != id,
    ensures
        find_task(tasks, id) == k,
{
    lemma_find_task(tasks, id);
    let f = find_task(tasks, id);
    if f >= 0 && f < k {
        assert(tasks[f].id != id);
    }
    if f > k {
        assert(tasks[k].id != id);
    }
}

/// Replacing a task by one with the same id keeps where an id is first found.
pub proof fn lemma_find_task_update(tasks: Seq<TaskModel>, id: Seq<char>, k: int, t: TaskModel)
    requires
        0 <= k < tasks.len(),
        t.id == tasks[k].id,
    ensures
        find_task(tasks.update(k, t), id) == find_task(tasks, id),
{
    let u = tasks.update(k, t);
    lemma_find_task(tasks, id);
    lemma_find_task(u, id);
    let f = find_task(tasks, id);
    if f >= 0 {
        assert(u[f].id == id);
        assert forall|j: int| 0 <= j < f implies (#[trigger] u[j]).id != id by {
            assert(tasks[j].id != id);
        }
        lemma_find_task_at(u, id, f);
    } else {
        assert forall|j: int| 0 <= j < u.len() implies (#[trigger] u[j]).id != id by {
            assert(tasks[j].id != id);
        }
    }
}

/// The index of the first task whose id is `id`.
pub fn position_of(tasks: &Vec<Task>, id: &str) -> (r: Option<usize>)
    ensures
        match r {
            Some(k) => k as int == find_task(tasks_model(tasks@), id@) && k < tasks@.len(),
            None => find_task(tasks_model(tasks@), id@) == -1,
        },
{
    let ghost m = tasks_model(tasks@);
    proof {
        lemma_find_task(m, id@);
    }
    let mut i: usize = 0;
    while i < tasks.len()
        invariant
            i <= tasks@.len(),
            m == tasks_model(tasks@),
            forall|j: int| 0 <= j < i ==> (#[trigger] m[j]).id != id@,
        decreases tasks@.len() - i,
    {
        if str_eq(tasks[i].id.as_str(), id) {
            proof {
                lemma_find_task_at(m, id@, i as int);
            }
            return Some(i);
        }
        i = i + 1;
    }
    None
}

/// The focus reference after `id` is edited away, completed or deleted.
pub open spec fn focus_without(f: Option<Seq<char>>, id: Seq<char>) -> Option<Seq<char>> {
    if f == Some(id) {
        None
    } else {
        f
    }
}

/// The index of the task that a caller-supplied id names, or why there is none.
pub open spec fn spec_locate(s: StateModel, id: Seq<char>) -> Result<int, Failure> {
    if is_blank(id) {
        Err(Failure::Input("id is required"@))
    } else if find_task(s.tasks, trimmed(id)) < 0 {
        Err(Failure::Input("task not found"@))
    } else {
        Ok(find_task(s.tasks, trimmed(id)))
    }
}

pub open spec fn spec_get(s: StateModel, id: Seq<char>) -> Result<TaskModel, Failure> {
    match spec_locate(s, id) {
        Ok(k) => Ok(s.tasks[k]),
        Err(f) => Err(f),
    }
}

pub open spec fn spec_set_urgent(s: StateModel, id: Seq<char>, urgent: bool) -> Result<
    (StateModel, TaskModel),
    Failure,
> {
    match spec_locate(s, id) {
        Ok(k) => {
            let t = TaskModel { urgent, ..s.tasks[k] };
            Ok((StateModel { tasks: s.tasks.update(k, t), ..s }, t))
        },
        Err(f) => Err(f),
    }
}

pub open spec fn spec_set_focus(s: StateModel, id: Seq<char>) -> Result<(StateModel, TaskModel), Failure> {
    match spec_locate(s, id) {
        Ok(k) => Ok((StateModel { focused_task_id: Some(s.tasks[k].id), ..s }, s.tasks[k])),
        Err(f) => Err(f),
    }
}

pub open spec fn spec_edit(s: StateModel, id: Seq<char>, new_title: Seq<char>) -> Result<
    (StateModel, TaskModel),
    Failure,
> {
    if !is_blank(id) && is_blank(new_title) {
        Err(Failure::Input("title is required"@))
    } else {
        match spec_locate(s, id) {
            Ok(k) => {
                let t = TaskModel { title: trimmed(new_title), ..s.tasks[k] };
                Ok((StateModel {
                    tasks: s.tasks.update(k, t),
                    focused_task_id: focus_without(s.focused_task_id, trimmed(id)),
                }, t))
            },
            Err(f) => Err(f),
        }
    }
}

pub open spec fn spec_delete(s: StateModel, id: Seq<char>) -> Result<(StateModel, TaskModel), Failure> {
    match spec_locate(s, id) {
        Ok(k) => Ok((StateModel {
            tasks: s.tasks.remove(k),
            focused_task_id: focus_without(s.focused_task_id, trimmed(id)),
        }, s.tasks[k])),
        Err(f) => Err(f),
    }
}

/// Finds the task that a caller-supplied id names.
fn locate(state: &TaskState, id: &str) -> (r: Result<usize, AppError>)
    ensures
        match spec_locate(state@, id@) {
            Ok(k) => r is Ok && r->Ok_0 as int == k && k < state@.tasks.len(),
            Err(f) => fails_with(r, f),
        },
{
    let trimmed_id = trim(id);
    if trimmed_id.is_empty() {
        return Err(AppError::invalid_input("id is required"));
    }
    match position_of(&state.tasks, trimmed_id) {
        Some(k) => Ok(k),
        None => Err(AppError::invalid_input("task not found")),
    }
}

/// Replaces the task at `k`, leaving the rest of the state alone.
fn replace_task(state: &mut TaskState, k: usize, t: Task)
    requires
        k < old(state)@.tasks.len(),
    ensures
        final(state)@ == (StateModel { tasks: old(state)@.tasks.update(k as int, t@), ..old(state)@ }),
{
    state.tasks.set(k, t);
    assert(tasks_model(state.tasks@) =~= old(state)@.tasks.update(k as int, t@));
}

/// Drops the focus reference when it names `id`.
fn drop_focus_on(state: &mut TaskState, id: &str)
    ensures
        final(state)@ == (StateModel {
            focused_task_id: focus_without(old(state)@.focused_task_id, id@),
            ..old(state)@
        }),
{
    let matches = match &state.focused_task_id {
        Some(f) => str_eq(f.as_str(), id),
        None => false,
    };
    if matches {
        state.focused_task_id = None;
    }
}

/// Replacing a task by one with the same id keeps every id present.
proof fn lemma_update_keeps_ids(tasks: Seq<TaskModel>, k: int, t: TaskModel, id: Seq<char>)
    requires
        0 <= k < tasks.len(),
        t.id == tasks[k].id,
        has_task(tasks, id),
    ensures
        has_task(tasks.update(k, t), id),
{
    let j = choose|j: int| 0 <= j < tasks.len() && (#[trigger] tasks[j]).id == id;
    assert(tasks.update(k, t)[j].id == id);
}

/// The outcome of a mutation keeps the focus valid when it was.
pub open spec fn keeps_focus(s: StateModel, o: Result<(StateModel, TaskModel), Failure>) -> bool {
    focus_valid(s) && o is Ok ==> focus_valid(o->Ok_0.0)
}

/// A mutation that replaces the located task by one with the same id, and
/// keeps or drops the focus, keeps it valid.
proof fn lemma_update_keeps_focus(s: StateModel, k: int, t: TaskModel, f: Option<Seq<char>>)
    requires
        0 <= k < s.tasks.len(),
        t.id == s.tasks[k].id,
        focus_valid(s),
        f == s.focused_task_id || f is None,
    ensures
        focus_valid(StateModel { tasks: s.tasks.update(k, t), focused_task_id: f }),
{
    if f is Some {
        lemma_update_keeps_ids(s.tasks, k, t, f->Some_0);
    }
}

proof fn lemma_locate(s: StateModel, id: Seq<char>)
    ensures
        spec_locate(s, id) is Ok ==> 0 <= spec_locate(s, id)->Ok_0 < s.tasks.len() && s.tasks[spec_locate(
            s,
            id,
        )->Ok_0].id == trimmed(id),
{
    lemma_find_task(s.tasks, trimmed(id));
}

proof fn lemma_set_urgent_keeps_focus(s: StateModel, id: Seq<char>, urgent: bool)
    ensures
        keeps_focus(s, spec_set_urgent(s, id, urgent)),
{
    lemma_locate(s, id);
    if focus_valid(s) && spec_locate(s, id) is Ok {
        let k = spec_locate(s, id)->Ok_0;
        lemma_update_keeps_focus(s, k, TaskModel { urgent, ..s.tasks[k] }, s.focused_task_id);
    }
}

proof fn lemma_set_focus_keeps_focus(s: StateModel, id: Seq<char>)
    ensures
        keeps_focus(s, spec_set_focus(s, id)),
{
    lemma_locate(s, id);
    if spec_locate(s, id) is Ok {
        let k = spec_locate(s, id)->Ok_0;
        assert(s.tasks[k].id == s.tasks[k].id);
    }
}

proof fn lemma_edit_keeps_focus(s: StateModel, id: Seq<char>, new_title: Seq<char>)
    ensures
        keeps_focus(s, spec_edit(s, id, new_title)),
{
    lemma_locate(s, id);
    if focus_valid(s) && spec_edit(s, id, new_title) is Ok {
        let k = spec_locate(s, id)->Ok_0;
        lemma_update_keeps_focus(
            s,
            k,
            TaskModel { title: trimmed(new_title), ..s.tasks[k] },
            focus_without(s.focused_task_id, trimmed(id)),
        );
    }
}

proof fn lemma_delete_keeps_focus(s: StateModel, id: Seq<char>)
    ensures
        keeps_focus(s, spec_delete(s, id)),
{
    lemma_locate(s, id);
    if focus_valid(s) && spec_delete(s, id) is Ok {
        let k = spec_locate(s, id)->Ok_0;
        let f = focus_without(s.focused_task_id, trimmed(id));
        if f is Some {
            let fid = f->Some_0;
            let j = choose|j: int| 0 <= j < s.tasks.len() && (#[trigger] s.tasks[j]).id == fid;
            let r = s.tasks.remove(k);
            if j < k {
                assert(r[j].id == fid);
            } else {
                assert(j != k);
                assert(r[j - 1].id == fid);
            }
        }
    }
}

proof fn lemma_complete_keeps_focus(s: StateModel, id: Seq<char>, message: Option<Seq<char>>, now: int)
    ensures
        keeps_focus(s, spec_complete(s, id, message, now)),
{
    lemma_locate(s, id);
    if focus_valid(s) && spec_complete(s, id, message, now) is Ok {
        let k = spec_locate(s, id)->Ok_0;
        lemma_update_keeps_focus(
            s,
            k,
            completed_model(s.tasks[k], message, rfc3339_text(now, 0)->Some_0),
            focus_without(s.focused_task_id, trimmed(id)),
        );
    }
}

proof fn lemma_complete_focused_keeps_focus(s: StateModel, message: Option<Seq<char>>, now: int)
    ensures
        keeps_focus(s, spec_complete_focused(s, message, now)),
{
}

proof fn lemma_schedule_keeps_focus(s: StateModel, id: Seq<char>, datetime: Seq<char>, reschedule: bool, now: int)
    ensures
        keeps_focus(s, spec_schedule(s, id, datetime, reschedule, now)),
{
    lemma_locate(s, id);
    if focus_valid(s) && spec_schedule(s, id, datetime, reschedule, now) is Ok {
        let k = spec_locate(s, id)->Ok_0;
        lemma_update_keeps_focus(
            s,
            k,
            TaskModel { scheduled_at: normalized(trimmed(datetime)), ..s.tasks[k] },
            s.focused_task_id,
        );
    }
}

proof fn lemma_add_keeps_focus(s: StateModel, title: Seq<char>, urgent: bool, now: int)
    ensures
        keeps_focus(s, spec_add(s, title, urgent, now)),
{
    if focus_valid(s) && spec_add(s, title, urgent, now) is Ok && s.focused_task_id is Some {
        let f = s.focused_task_id->Some_0;
        let j = choose|j: int| 0 <= j < s.tasks.len() && (#[trigger] s.tasks[j]).id == f;
        assert(spec_add(s, title, urgent, now)->Ok_0.0.tasks[j].id == f);
    }
}

/// Looks a task up by its id.
pub fn get_task_by_id(state: &TaskState, id: &str) -> (r: Result<Task, AppError>)
    ensures
        match spec_get(state@, id@) {
            Ok(t) => r is Ok && r->Ok_0@ == t,
            Err(f) => fails_with(r, f),
        },
{
    let k = match locate(state, id) {
        Ok(v) => v,
        Err(e) => {
            return Err(e);
        },
    };
    let t = state.tasks[k].copy();
    Ok(t)
}

/// Sets a task's urgent flag to exactly `urgent`.
pub fn set_task_urgent(state: &mut TaskState, id: &str, urgent: bool) -> (r: Result<Task, AppError>)
    ensures
        applied(r, old(state)@, final(state)@, spec_set_urgent(old(state)@, id@, urgent)),
        old(state).wf() ==> final(state).wf(),
{
    proof {
        lemma_set_urgent_keeps_focus(old(state)@, id@, urgent);
    }
    let k = match locate(state, id) {
        Ok(v) => v,
        Err(e) => {
            return Err(e);
        },
    };
    let mut t = state.tasks[k].copy();
    t.urgent = urgent;
    let result = t.copy();
    replace_task(state, k, t);
    Ok(result)
}

/// Makes a task the focused one, without changing the task.
pub fn set_focus(state: &mut TaskState, id: &str) -> (r: Result<Task, AppError>)
    ensures
        applied(r, old(state)@, final(state)@, spec_set_focus(old(state)@, id@)),
        old(state).wf() ==> final(state).wf(),
{
    proof {
        lemma_set_focus_keeps_focus(old(state)@, id@);
    }
    let k = match locate(state, id) {
        Ok(v) => v,
        Err(e) => {
            return Err(e);
        },
    };
    let t = state.tasks[k].copy();
    state.focused_task_id = Some(t.id.clone());
    Ok(t)
}

/// Replaces a task's title; the focus is dropped when it named that task.
pub fn edit_task(state: &mut TaskState, id: &str, new_title: &str) -> (r: Result<Task, AppError>)
    ensures
        applied(r, old(state)@, final(state)@, spec_edit(old(state)@, id@, new_title@)),
        old(state).wf() ==> final(state).wf(),
{
    proof {
        lemma_edit_keeps_focus(old(state)@, id@, new_title@);
    }
    let trimmed_id = trim(id);
    if trimmed_id.is_empty() {
        return Err(AppError::invalid_input("id is required"));
    }
    let trimmed_title = trim(new_title);
    if trimmed_title.is_empty() {
        return Err(AppError::invalid_input("title is required"));
    }
    let k = match locate(state, id) {
        Ok(v) => v,
        Err(e) => {
            return Err(e);
        },
    };
    let mut t = state.tasks[k].copy();
    t.title = trimmed_title.to_owned();
    let result = t.copy();
    replace_task(state, k, t);
    drop_focus_on(state, trimmed_id);
    Ok(result)
}

/// Removes a task; the focus is dropped when it named that task.
pub fn delete_task(state: &mut TaskState, id: &str) -> (r: Result<Task, AppError>)
    ensures
        applied(r, old(state)@, final(state)@, spec_delete(old(state)@, id@)),
        old(state).wf() ==> final(state).wf(),
{
    proof {
        lemma_delete_keeps_focus(old(state)@, id@);
    }
    let k = match locate(state, id) {
        Ok(v) => v,
        Err(e) => {
            return Err(e);
        },
    };
    let removed = state.tasks.remove(k);
    assert(tasks_model(state.tasks@) =~= old(state)@.tasks.remove(k as int));
    let trimmed_id = trim(id);
    drop_focus_on(state, trimmed_id);
    Ok(removed)
}

/// The message of the failure to write a timestamp.
pub open spec fn unwritable() -> Seq<char> {
    "timestamp cannot be written as RFC3339"@
}

/// The characters of an optional string argument.
pub open spec fn opt_str(o: Option<&str>) -> Option<Seq<char>> {
    match o {
        Some(s) => Some(s@),
        None => None,
    }
}

/// A task once completed at `at`, with the note `message` when one is given.
pub open spec fn completed_model(t: TaskModel, message: Option<Seq<char>>, at: Seq<char>) -> TaskModel {
    TaskModel {
        status: TaskStatus::Completed,
        completed_at: Some(at),
        completion_history: match message {
            Some(m) => t.completion_history.push(EntryModel { message: trimmed(m), completed_at: at }),
            None => t.completion_history,
        },
        ..t
    }
}

/// A message is given but holds nothing but white space.
pub open spec fn blank_message(message: Option<Seq<char>>) -> bool {
    message is Some && is_blank(message->Some_0)
}

pub open spec fn spec_complete(s: StateModel, id: Seq<char>, message: Option<Seq<char>>, now: int) -> Result<
    (StateModel, TaskModel),
    Failure,
> {
    match spec_locate(s, id) {
        Err(f) => Err(f),
        Ok(k) => if s.tasks[k].status == TaskStatus::Completed {
            Err(Failure::Input("task already completed"@))
        } else if blank_message(message) {
            Err(Failure::Input("message is required"@))
        } else {
            match rfc3339_text(now, 0) {
                None => Err(Failure::Data(unwritable())),
                Some(at) => {
                    let t = completed_model(s.tasks[k], message, at);
                    Ok((StateModel {
                        tasks: s.tasks.update(k, t),
                        focused_task_id: focus_without(s.focused_task_id, trimmed(id)),
                    }, t))
                },
            }
        },
    }
}

pub open spec fn spec_complete_focused(s: StateModel, message: Option<Seq<char>>, now: int) -> Result<
    (StateModel, TaskModel),
    Failure,
> {
    match s.focused_task_id {
        None => Err(Failure::Input("no focused task"@)),
        Some(f) => {
            let k = find_task(s.tasks, f);
            if blank_message(message) {
                Err(Failure::Input("message is required"@))
            } else if k < 0 {
                Err(Failure::Input("task not found"@))
            } else if s.tasks[k].status == TaskStatus::Completed {
                Err(Failure::Input("task already completed"@))
            } else {
                match rfc3339_text(now, 0) {
                    None => Err(Failure::Data(unwritable())),
                    Some(at) => {
                        let t = completed_model(s.tasks[k], message, at);
                        Ok((StateModel { tasks: s.tasks.update(k, t), focused_task_id: None }, t))
                    },
                }
            }
        },
    }
}

/// Setting a schedule (`reschedule` false) or moving an overdue one
/// (`reschedule` true) to the instant `datetime` names, with `now` the
/// current instant in nanoseconds since the Unix epoch.
pub open spec fn spec_schedule(
    s: StateModel,
    id: Seq<char>,
    datetime: Seq<char>,
    reschedule: bool,
    now: int,
) -> Result<(StateModel, TaskModel), Failure> {
    if is_blank(id) {
        Err(Failure::Input("id is required"@))
    } else if is_blank(datetime) {
        Err(Failure::Input("datetime is required"@))
    } else if rfc3339_reading(trimmed(datetime)) is None {
        Err(Failure::Input("datetime must be RFC3339"@))
    } else if normalized(trimmed(datetime)) is None {
        Err(Failure::Data(unwritable()))
    } else {
        match spec_locate(s, id) {
            Err(f) => Err(f),
            Ok(k) => {
                let t = s.tasks[k];
                if reschedule && t.scheduled_at is None {
                    Err(Failure::Input("task is not scheduled"@))
                } else if reschedule && instant_of(t.scheduled_at->Some_0) is None {
                    Err(Failure::Data("scheduled_at must be RFC3339"@))
                } else if reschedule && !(instant_of(t.scheduled_at->Some_0)->Some_0 < now) {
                    Err(Failure::Input("task is not overdue"@))
                } else {
                    let u = TaskModel { scheduled_at: normalized(trimmed(datetime)), ..t };
                    Ok((StateModel { tasks: s.tasks.update(k, u), ..s }, u))
                }
            },
        }
    }
}

/// The task created by an add at instant `now`, written at `created_at`.
pub open spec fn new_task_model(title: Seq<char>, urgent: bool, now: int, created_at: Seq<char>) -> TaskModel {
    TaskModel {
        id: "task-"@ + decimal_of(now),
        title: trimmed(title),
        status: TaskStatus::Pending,
        created_at,
        scheduled_at: None,
        completed_at: None,
        completion_history: Seq::empty(),
        urgent,
    }
}

pub open spec fn spec_add(s: StateModel, title: Seq<char>, urgent: bool, now: int) -> Result<
    (StateModel, TaskModel),
    Failure,
> {
    if is_blank(title) {
        Err(Failure::Input("title is required"@))
    } else {
        match rfc3339_text(now, 0) {
            None => Err(Failure::Data(unwritable())),
            Some(c) => {
                let t = new_task_model(title, urgent, now, c);
                Ok((StateModel { tasks: s.tasks.push(t), ..s }, t))
            },
        }
    }
}

/// Whether an RFC 3339 schedule lies strictly before `now`.
pub fn is_overdue(scheduled_at: &str, now: i128) -> (r: Result<bool, AppError>)
    ensures
        match instant_of(scheduled_at@) {
            None => fails_data(r, "scheduled_at must be RFC3339"@),
            Some(i) => r == Ok::<bool, AppError>(i < now),
        },
{
    match parse_rfc3339(scheduled_at) {
        Some(st) => Ok(st.unix_nanos < now),
        None => Err(AppError::invalid_data("scheduled_at must be RFC3339")),
    }
}

/// Whether a task is overdue: scheduled strictly before `now`.
pub open spec fn spec_overdue(t: TaskModel, now: int) -> Result<bool, Failure> {
    match t.scheduled_at {
        None => Ok(false),
        Some(s) => match instant_of(s) {
            None => Err(Failure::Data("scheduled_at must be RFC3339"@)),
            Some(i) => Ok(i < now),
        },
    }
}

/// Whether a task is overdue at the instant `now`; a task without a
/// schedule never is.
pub fn task_overdue(task: &Task, now: i128) -> (r: Result<bool, AppError>)
    ensures
        match spec_overdue(task@, now as int) {
            Ok(b) => r == Ok::<bool, AppError>(b),
            Err(f) => fails_with(r, f),
        },
{
    match &task.scheduled_at {
        None => Ok(false),
        Some(s) => is_overdue(s.as_str(), now),
    }
}

/// The current instant written as RFC 3339 in UTC.
fn timestamp_text(now: i128) -> (r: Result<String, AppError>)
    ensures
        match rfc3339_text(now as int, 0) {
            Some(c) => r is Ok && r->Ok_0@ == c,
            None => fails_data(r, unwritable()),
        },
{
    match format_rfc3339(Stamp { unix_nanos: now, offset_seconds: 0 }) {
        Some(c) => Ok(c),
        None => Err(AppError::invalid_data("timestamp cannot be written as RFC3339")),
    }
}

/// Checks an optional completion message: it may be absent, never blank.
fn check_message(message: Option<&str>) -> (r: Result<(), AppError>)
    ensures
        blank_message(opt_str(message)) ==> fails_input(r, "message is required"@),
        !blank_message(opt_str(message)) ==> r is Ok,
{
    match message {
        Some(m) => {
            if trim(m).is_empty() {
                return Err(AppError::invalid_input("message is required"));
            }
            Ok(())
        },
        None => Ok(()),
    }
}

/// The task completed at `at`, with the trimmed note when one is given.
fn mark_completed(t: &Task, message: Option<&str>, at: &String) -> (r: Task)
    ensures
        r@ == completed_model(t@, opt_str(message), at@),
{
    let mut u = t.copy();
    u.status = TaskStatus::Completed;
    u.completed_at = Some(at.clone());
    match message {
        Some(m) => {
            let ghost before = u.completion_history@;
            u.completion_history.push(CompletionEntry { message: trim(m).to_owned(), completed_at: at.clone() });
            assert(entries_model(u.completion_history@) =~= entries_model(before).push(
                EntryModel { message: trimmed(m@), completed_at: at@ },
            ));
        },
        None => {},
    }
    u
}

/// Completes a task at the instant `now`; the focus is dropped when it named
/// that task.
pub fn complete_task(state: &mut TaskState, id: &str, message: Option<&str>, now: i128) -> (r: Result<
    Task,
    AppError,
>)
    ensures
        applied(r, old(state)@, final(state)@, spec_complete(old(state)@, id@, opt_str(message), now as int)),
        old(state).wf() ==> final(state).wf(),
{
    proof {
        lemma_complete_keeps_focus(old(state)@, id@, opt_str(message), now as int);
    }
    let k = match locate(state, id) {
        Ok(v) => v,
        Err(e) => {
            return Err(e);
        },
    };
    if state.tasks[k].status == TaskStatus::Completed {
        return Err(AppError::invalid_input("task already completed"));
    }
    if let Err(e) = check_message(message) {
        return Err(e);
    }
    let at = match timestamp_text(now) {
        Ok(v) => v,
        Err(e) => {
            return Err(e);
        },
    };
    let t = mark_completed(&state.tasks[k], message, &at);
    let result = t.copy();
    replace_task(state, k, t);
    let trimmed_id = trim(id);
    drop_focus_on(state, trimmed_id);
    Ok(result)
}

/// Completes the focused task at the instant `now` and drops the focus.
pub fn complete_focused_task(state: &mut TaskState, message: Option<&str>, now: i128) -> (r: Result<
    Task,
    AppError,
>)
    ensures
        applied(r, old(state)@, final(state)@, spec_complete_focused(old(state)@, opt_str(message), now as int)),
        old(state).wf() ==> final(state).wf(),
{
    proof {
        lemma_complete_focused_keeps_focus(old(state)@, opt_str(message), now as int);
    }
    let focused = match &state.focused_task_id {
        Some(f) => f.clone(),
        None => {
            return Err(AppError::invalid_input("no focused task"));
        },
    };
    if let Err(e) = check_message(message) {
        return Err(e);
    }
    let k = match position_of(&state.tasks, focused.as_str()) {
        Some(k) => k,
        None => {
            return Err(AppError::invalid_input("task not found"));
        },
    };
    if state.tasks[k].status == TaskStatus::Completed {
        return Err(AppError::invalid_input("task already completed"));
    }
    let at = match timestamp_text(now) {
        Ok(v) => v,
        Err(e) => {
            return Err(e);
        },
    };
    let t = mark_completed(&state.tasks[k], message, &at);
    let result = t.copy();
    replace_task(state, k, t);
    state.focused_task_id = None;
    Ok(result)
}

fn update_schedule(state: &mut TaskState, id: &str, datetime: &str, reschedule: bool, now: i128) -> (r: Result<
    Task,
    AppError,
>)
    ensures
        applied(r, old(state)@, final(state)@, spec_schedule(old(state)@, id@, datetime@, reschedule, now as int)),
        old(state).wf() ==> final(state).wf(),
{
    proof {
        lemma_schedule_keeps_focus(old(state)@, id@, datetime@, reschedule, now as int);
    }
    if trim(id).is_empty() {
        return Err(AppError::invalid_input("id is required"));
    }
    let trimmed_datetime = trim(datetime);
    if trimmed_datetime.is_empty() {
        return Err(AppError::invalid_input("datetime is required"));
    }
    let parsed = match parse_rfc3339(trimmed_datetime) {
        Some(st) => st,
        None => {
            return Err(AppError::invalid_input("datetime must be RFC3339"));
        },
    };
    let scheduled_at = match format_rfc3339(parsed) {
        Some(text) => text,
        None => {
            return Err(AppError::invalid_data("timestamp cannot be written as RFC3339"));
        },
    };
    let k = match locate(state, id) {
        Ok(v) => v,
        Err(e) => {
            return Err(e);
        },
    };
    if reschedule {
        match &state.tasks[k].scheduled_at {
            None => {
                return Err(AppError::invalid_input("task is not scheduled"));
            },
            Some(current) => {
                match is_overdue(current.as_str(), now) {
                    Ok(true) => {},
                    Ok(false) => {
                        return Err(AppError::invalid_input("task is not overdue"));
                    },
                    Err(e) => {
                        return Err(e);
                    },
                }
            },
        }
    }
    let mut t = state.tasks[k].copy();
    t.scheduled_at = Some(scheduled_at);
    let result = t.copy();
    replace_task(state, k, t);
    Ok(result)
}

/// Sets a task's schedule to the normalized form of `datetime`, whatever it
/// was. Without the overdue precondition the current instant plays no part.
pub fn schedule_task(state: &mut TaskState, id: &str, datetime: &str) -> (r: Result<Task, AppError>)
    ensures
        applied(r, old(state)@, final(state)@, spec_schedule(old(state)@, id@, datetime@, false, 0)),
        old(state).wf() ==> final(state).wf(),
{
    update_schedule(state, id, datetime, false, 0)
}

/// Moves an overdue task's schedule to the normalized form of `datetime`.
pub fn reschedule_task(state: &mut TaskState, id: &str, datetime: &str, now: i128) -> (r: Result<
    Task,
    AppError,
>)
    ensures
        applied(r, old(state)@, final(state)@, spec_schedule(old(state)@, id@, datetime@, true, now as int)),
        old(state).wf() ==> final(state).wf(),
{
    update_schedule(state, id, datetime, true, now)
}

/// Adds a pending task created at the instant `now`, with the given urgency.
pub fn add_task_with_urgency(state: &mut TaskState, title: &str, urgent: bool, now: i128) -> (r: Result<
    Task,
    AppError,
>)
    ensures
        applied(r, old(state)@, final(state)@, spec_add(old(state)@, title@, urgent, now as int)),
        old(state).wf() ==> final(state).wf(),
{
    proof {
        lemma_add_keeps_focus(old(state)@, title@, urgent, now as int);
    }
    let trimmed_title = trim(title);
    if trimmed_title.is_empty() {
        return Err(AppError::invalid_input("title is required"));
    }
    let created_at = match timestamp_text(now) {
        Ok(v) => v,
        Err(e) => {
            return Err(e);
        },
    };
    let mut id = "task-".to_owned();
    push_decimal(&mut id, now);
    let task = Task {
        id,
        title: trimmed_title.to_owned(),
        status: TaskStatus::Pending,
        created_at,
        scheduled_at: None,
        completed_at: None,
        completion_history: Vec::new(),
        urgent,
    };
    let result = task.copy();
    state.tasks.push(task);
    assert(tasks_model(state.tasks@) =~= old(state)@.tasks.push(result@));
    assert(entries_model(result.completion_history@) =~= Seq::<EntryModel>::empty());
    Ok(result)
}

/// Adds a pending, non-urgent task created at the instant `now`.
pub fn add_task(state: &mut TaskState, title: &str, now: i128) -> (r: Result<Task, AppError>)
    ensures
        applied(r, old(state)@, final(state)@, spec_add(old(state)@, title@, false, now as int)),
        old(state).wf() ==> final(state).wf(),
{
    add_task_with_urgency(state, title, false, now)
}

/// Which of the two views a list operation builds.
#[derive(Debug, Clone, Copy, PartialEq, Eq, Structural)]
pub enum ListMode {
    Today,
    Backlog,
}

/// The tasks of a view, with the focus reference as stored.
#[derive(Debug, Clone)]
pub struct ListResult {
    pub tasks: Vec<Task>,
    pub focused_task_id: Option<String>,
}

/// A task's schedule, when it has one, reads as RFC 3339.
pub open spec fn readable(t: TaskModel) -> bool {
    t.scheduled_at is Some ==> instant_of(t.scheduled_at->Some_0) is Some
}

pub open spec fn all_readable(m: Seq<TaskModel>) -> bool {
    forall|i: int| 0 <= i < m.len() ==> readable(#[trigger] m[i])
}

/// Whether a task scheduled at instant `scheduled` (none when unscheduled)
/// belongs to view `mode` at instant `now`: today holds what is due at or
/// before `now`, the backlog what is unscheduled or due strictly after it.
pub open spec fn in_view(scheduled: Option<int>, now: int, mode: ListMode) -> bool {
    match scheduled {
        None => mode == ListMode::Backlog,
        Some(i) => if mode == ListMode::Today {
            i <= now
        } else {
            i > now
        },
    }
}

/// Whether a task belongs to view `mode` at `now`; one whose schedule does
/// not read as RFC 3339 belongs to neither.
pub open spec fn listed(t: TaskModel, now: int, mode: ListMode) -> bool {
    match t.scheduled_at {
        None => in_view(None, now, mode),
        Some(s) => match instant_of(s) {
            Some(i) => in_view(Some(i), now, mode),
            None => false,
        },
    }
}

/// Whether a task scheduled at `scheduled` belongs to view `mode` at `now`.
pub fn view_contains(scheduled: Option<i128>, now: i128, mode: ListMode) -> (r: bool)
    ensures
        r == in_view(
            match scheduled {
                Some(i) => Some(i as int),
                None => None,
            },
            now as int,
            mode,
        ),
{
    match scheduled {
        None => mode == ListMode::Backlog,
        Some(i) => if mode == ListMode::Today {
            i <= now
        } else {
            i > now
        },
    }
}

/// The tasks of `m` that satisfy `p`, in their order.
pub open spec fn keep(m: Seq<TaskModel>, p: spec_fn(TaskModel) -> bool) -> Seq<TaskModel>
    decreases m.len(),
{
    if m.len() == 0 {
        Seq::empty()
    } else if p(m.last()) {
        keep(m.drop_last(), p).push(m.last())
    } else {
        keep(m.drop_last(), p)
    }
}

pub open spec fn select(m: Seq<TaskModel>, now: int, mode: ListMode) -> Seq<TaskModel> {
    keep(m, |t: TaskModel| listed(t, now, mode))
}

/// The view `mode` of the tasks `m` at instant `now`; a schedule that does
/// not read as RFC 3339 blocks the whole list.
pub open spec fn spec_filter(m: Seq<TaskModel>, now: int, mode: ListMode) -> Result<Seq<TaskModel>, Failure> {
    if all_readable(m) {
        Ok(select(m, now, mode))
    } else {
        Err(Failure::Data("scheduled_at must be RFC3339"@))
    }
}

/// The list with the focused task, when it is in it, moved to the front.
pub open spec fn promote(sel: Seq<TaskModel>, focus: Option<Seq<char>>) -> Seq<TaskModel> {
    match focus {
        Some(f) => {
            let k = find_task(sel, f);
            if k >= 0 {
                seq![sel[k]] + sel.remove(k)
            } else {
                sel
            }
        },
        None => sel,
    }
}

/// The tasks in view `mode` at the instant `now`, in stored order.
pub fn filter_tasks(tasks: &Vec<Task>, now: i128, mode: ListMode) -> (r: Result<Vec<Task>, AppError>)
    ensures
        match spec_filter(tasks_model(tasks@), now as int, mode) {
            Ok(sel) => r is Ok && tasks_model(r->Ok_0@) == sel,
            Err(f) => fails_with(r, f),
        },
{
    let ghost m = tasks_model(tasks@);
    let ghost p = |t: TaskModel| listed(t, now as int, mode);
    let mut out: Vec<Task> = Vec::new();
    let mut i: usize = 0;
    while i < tasks.len()
        invariant
            i <= tasks@.len(),
            m == tasks_model(tasks@),
            p == (|t: TaskModel| listed(t, now as int, mode)),
            all_readable(m.subrange(0, i as int)),
            tasks_model(out@) == keep(m.subrange(0, i as int), p),
        decreases tasks@.len() - i,
    {
        let t = &tasks[i];
        let ghost before = out@;
        assert(m.subrange(0, i + 1).drop_last() =~= m.subrange(0, i as int));
        assert(m.subrange(0, i + 1).last() == m[i as int]);
        let take = match &t.scheduled_at {
            None => view_contains(None, now, mode),
            Some(s) => match parse_rfc3339(s.as_str()) {
                Some(st) => view_contains(Some(st.unix_nanos), now, mode),
                None => {
                    assert(!readable(m[i as int]));
                    return Err(AppError::invalid_data("scheduled_at must be RFC3339"));
                },
            },
        };
        assert(take == p(m[i as int]));
        if take {
            out.push(t.copy());
            assert(tasks_model(out@) =~= tasks_model(before).push(m[i as int]));
        }
        assert(all_readable(m.subrange(0, i + 1))) by {
            assert forall|j: int| 0 <= j < i + 1 implies readable(#[trigger] m.subrange(0, i + 1)[j]) by {
                if j < i {
                    assert(m.subrange(0, i + 1)[j] == m.subrange(0, i as int)[j]);
                }
            }
        }
        i = i + 1;
    }
    assert(m.subrange(0, i as int) =~= m);
    Ok(out)
}

/// Moves the focused task, when it is in the list, to the front.
fn promote_focused(tasks: &mut Vec<Task>, focus: &Option<String>)
    ensures
        tasks_model(final(tasks)@) == promote(tasks_model(old(tasks)@), opt_view(*focus)),
{
    let ghost m = tasks_model(tasks@);
    match focus {
        Some(f) => match position_of(tasks, f.as_str()) {
            Some(k) => {
                let t = tasks.remove(k);
                tasks.insert(0, t);
                assert(tasks_model(tasks@) =~= seq![m[k as int]] + m.remove(k as int));
            },
            None => {},
        },
        None => {},
    }
}

fn list_with_focus(state: &TaskState, now: i128, mode: ListMode) -> (r: Result<ListResult, AppError>)
    ensures
        match spec_filter(state@.tasks, now as int, mode) {
            Ok(sel) => r is Ok && tasks_model(r->Ok_0.tasks@) == promote(sel, state@.focused_task_id)
                && opt_view(r->Ok_0.focused_task_id) == state@.focused_task_id,
            Err(f) => fails_with(r, f),
        },
{
    let mut tasks = match filter_tasks(&state.tasks, now, mode) {
        Ok(v) => v,
        Err(e) => {
            return Err(e);
        },
    };
    promote_focused(&mut tasks, &state.focused_task_id);
    Ok(ListResult { tasks, focused_task_id: copy_opt(&state.focused_task_id) })
}

/// The today view at instant `now`, the focused task first when it is in it.
pub fn list_today_with_focus(state: &TaskState, now: i128) -> (r: Result<ListResult, AppError>)
    ensures
        match spec_filter(state@.tasks, now as int, ListMode::Today) {
            Ok(sel) => r is Ok && tasks_model(r->Ok_0.tasks@) == promote(sel, state@.focused_task_id)
                && opt_view(r->Ok_0.focused_task_id) == state@.focused_task_id,
            Err(f) => fails_with(r, f),
        },
{
    list_with_focus(state, now, ListMode::Today)
}

/// The backlog at instant `now`, the focused task first when it is in it.
pub fn list_backlog_with_focus(state: &TaskState, now: i128) -> (r: Result<ListResult, AppError>)
    ensures
        match spec_filter(state@.tasks, now as int, ListMode::Backlog) {
            Ok(sel) => r is Ok && tasks_model(r->Ok_0.tasks@) == promote(sel, state@.focused_task_id)
                && opt_view(r->Ok_0.focused_task_id) == state@.focused_task_id,
            Err(f) => fails_with(r, f),
        },
{
    list_with_focus(state, now, ListMode::Backlog)
}

/// The tasks of the today view at instant `now`, the focused one first.
pub fn list_today(state: &TaskState, now: i128) -> (r: Result<Vec<Task>, AppError>)
    ensures
        match spec_filter(state@.tasks, now as int, ListMode::Today) {
            Ok(sel) => r is Ok && tasks_model(r->Ok_0@) == promote(sel, state@.focused_task_id),
            Err(f) => fails_with(r, f),
        },
{
    match list_with_focus(state, now, ListMode::Today) {
        Ok(l) => Ok(l.tasks),
        Err(e) => Err(e),
    }
}

/// The tasks of the backlog at instant `now`, in stored order.
pub fn list_backlog(state: &TaskState, now: i128) -> (r: Result<Vec<Task>, AppError>)
    ensures
        match spec_filter(state@.tasks, now as int, ListMode::Backlog) {
            Ok(sel) => r is Ok && tasks_model(r->Ok_0@) == sel,
            Err(f) => fails_with(r, f),
        },
{
    filter_tasks(&state.tasks, now, ListMode::Backlog)
}

/// The tasks that were notified and those whose delivery failed.
#[derive(Debug)]
pub struct NotificationOutcome {
    pub tasks: Vec<Task>,
    pub failures: Vec<NotificationFailure>,
}

/// A task whose notification could not be delivered, and why.
#[derive(Debug)]
pub struct NotificationFailure {
    pub task_id: String,
    pub error: AppError,
}

/// A pending task qualifies for a notification when it is overdue at `now`
/// or marked urgent; a completed task never does.
pub open spec fn qualifies(t: TaskModel, now: int) -> bool {
    &&& t.status == TaskStatus::Pending
    &&& (t.urgent || spec_overdue(t, now) == Ok::<bool, Failure>(true))
}

/// Every pending task's schedule, when it has one, reads as RFC 3339.
pub open spec fn pending_readable(m: Seq<TaskModel>) -> bool {
    forall|i: int| 0 <= i < m.len() && (#[trigger] m[i]).status == TaskStatus::Pending ==> readable(m[i])
}

/// The tasks of `q` whose flag in `ok` equals `want`, in their order.
pub open spec fn with_flag(q: Seq<TaskModel>, ok: Seq<bool>, want: bool) -> Seq<TaskModel>
    decreases q.len(),
{
    if q.len() == 0 || ok.len() != q.len() {
        Seq::empty()
    } else if ok.last() == want {
        with_flag(q.drop_last(), ok.drop_last(), want).push(q.last())
    } else {
        with_flag(q.drop_last(), ok.drop_last(), want)
    }
}

pub open spec fn ids_of(q: Seq<TaskModel>) -> Seq<Seq<char>> {
    q.map_values(|t: TaskModel| t.id)
}

pub open spec fn failure_ids(f: Seq<NotificationFailure>) -> Seq<Seq<char>> {
    f.map_values(|x: NotificationFailure| x.task_id@)
}

/// Each qualifying task was attempted once, in order: `out` lists those
/// delivered and `failures` the ids of the others.
pub open spec fn notified_split(q: Seq<TaskModel>, tasks: Seq<Task>, failures: Seq<NotificationFailure>) -> bool {
    exists|ok: Seq<bool>|
        ok.len() == q.len() && tasks_model(tasks) == #[trigger] with_flag(q, ok, true) && failure_ids(failures)
            == ids_of(with_flag(q, ok, false))
}

/// Notifies every qualifying task at instant `now` through `notifier`; a
/// failed delivery is recorded and the others are still attempted.
pub fn notify_overdue_or_urgent<N: Notifier>(state: &TaskState, notifier: &N, now: i128) -> (r: Result<
    NotificationOutcome,
    AppError,
>)
    ensures
        !pending_readable(state@.tasks) ==> fails_data(r, "scheduled_at must be RFC3339"@),
        pending_readable(state@.tasks) ==> r is Ok && notified_split(
            keep(state@.tasks, |t: TaskModel| qualifies(t, now as int)),
            r->Ok_0.tasks@,
            r->Ok_0.failures@,
        ),
{
    let ghost m = state@.tasks;
    let ghost p = |t: TaskModel| qualifies(t, now as int);
    let ghost mut ok: Seq<bool> = Seq::empty();
    let mut notified: Vec<Task> = Vec::new();
    let mut failures: Vec<NotificationFailure> = Vec::new();
    let mut i: usize = 0;
    while i < state.tasks.len()
        invariant
            i <= state.tasks@.len(),
            m == state@.tasks,
            p == (|t: TaskModel| qualifies(t, now as int)),
            pending_readable(m.subrange(0, i as int)),
            ok.len() == keep(m.subrange(0, i as int), p).len(),
            tasks_model(notified@) == with_flag(keep(m.subrange(0, i as int), p), ok, true),
            failure_ids(failures@) == ids_of(with_flag(keep(m.subrange(0, i as int), p), ok, false)),
        decreases state.tasks@.len() - i,
    {
        let t = &state.tasks[i];
        let ghost q0 = keep(m.subrange(0, i as int), p);
        let ghost n0 = notified@;
        let ghost f0 = failures@;
        let ghost ok0 = ok;
        assert(m.subrange(0, i + 1).drop_last() =~= m.subrange(0, i as int));
        assert(m.subrange(0, i + 1).last() == m[i as int]);
        assert(m[i as int] == t@);
        let mut qualify = false;
        if t.status == TaskStatus::Pending {
            let overdue = match task_overdue(t, now) {
                Ok(b) => b,
                Err(e) => {
                    assert(!pending_readable(m)) by {
                        assert(m[i as int].status == TaskStatus::Pending && !readable(m[i as int]));
                    }
                    return Err(e);
                },
            };
            qualify = overdue || t.urgent;
        }
        assert(qualify == p(m[i as int]));
        assert(keep(m.subrange(0, i + 1), p) == if qualify {
            q0.push(m[i as int])
        } else {
            q0
        });
        if qualify {
            let action = activation_argument(t.id.as_str());
            match notifier.notify_with_action(t, action.as_str()) {
                Ok(()) => {
                    notified.push(t.copy());
                    proof {
                        ok = ok.push(true);
                        let q1 = q0.push(m[i as int]);
                        assert(q1.drop_last() =~= q0);
                        assert(ok.drop_last() =~= ok0);
                        assert(tasks_model(notified@) =~= tasks_model(n0).push(m[i as int]));
                        assert(with_flag(q1, ok, false) == with_flag(q0, ok.drop_last(), false));
                    }
                },
                Err(e) => {
                    failures.push(NotificationFailure { task_id: t.id.clone(), error: e });
                    proof {
                        ok = ok.push(false);
                        let q1 = q0.push(m[i as int]);
                        assert(q1.drop_last() =~= q0);
                        assert(ok.drop_last() =~= ok0);
                        assert(failure_ids(failures@) =~= failure_ids(f0).push(m[i as int].id));
                        assert(ids_of(with_flag(q1, ok, false)) =~= ids_of(with_flag(q0, ok.drop_last(), false)).push(m[i as int].id));
                    }
                },
            }
        }
        assert(pending_readable(m.subrange(0, i + 1))) by {
            assert forall|j: int| 0 <= j < i + 1 && (#[trigger] m.subrange(0, i + 1)[j]).status == TaskStatus::Pending
                implies readable(m.subrange(0, i + 1)[j]) by {
                if j < i {
                    assert(m.subrange(0, i + 1)[j] == m.subrange(0, i as int)[j]);
                }
            }
        }
        i = i + 1;
    }
    assert(m.subrange(0, i as int) =~= m);
    Ok(NotificationOutcome { tasks: notified, failures })
}

} // verus!
