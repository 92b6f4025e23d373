use vstd::prelude::*;
use crate::model::{TaskModel, TaskStatus};
use crate::moment::{decimal_of, instant_of, normalized, rfc3339_text};
use crate::storage::{StateModel, has_task};
use crate::task_api::{
    Failure, ListMode, all_readable, find_task, keep, lemma_find_task, lemma_find_task_at,
    lemma_find_task_update, listed, promote, readable, select, spec_add, spec_complete, spec_filter,
    spec_get, spec_schedule,
};
use crate::text::{is_blank, trimmed};

verus! {

/// A task added under a non-blank title is pending, and a lookup by any
/// argument that names its id then returns it. The clock must give a
/// writable instant, and no earlier task may hold the id that instant makes.
pub proof fn lemma_add_then_get(s: StateModel, title: Seq<char>, urgent: bool, now: int)
    requires
        !is_blank(title),
        rfc3339_text(now, 0) is Some,
        !has_task(s.tasks, "task-"@ + decimal_of(now)),
    ensures
        spec_add(s, title, urgent, now) is Ok,
        spec_add(s, title, urgent, now)->Ok_0.1.status == TaskStatus::Pending,
        forall|q: Seq<char>|
            trimmed(q) == spec_add(s, title, urgent, now)->Ok_0.1.id ==> #[trigger] spec_get(
                spec_add(s, title, urgent, now)->Ok_0.0,
                q,
            ) == Ok::<TaskModel, Failure>(spec_add(s, title, urgent, now)->Ok_0.1),
{
    let p = spec_add(s, title, urgent, now)->Ok_0;
    let s1 = p.0;
    let t = p.1;
    reveal_strlit("task-");
    assert(t.id.len() > 0);
    assert forall|j: int| 0 <= j < s.tasks.len() implies (#[trigger] s1.tasks[j]).id != t.id by {
        assert(s1.tasks[j] == s.tasks[j]);
    }
    lemma_find_task_at(s1.tasks, t.id, s.tasks.len() as int);
}

/// Whether an element is in a kept list depends on the element alone.
pub proof fn lemma_keep_contains(m: Seq<TaskModel>, p: spec_fn(TaskModel) -> bool, t: TaskModel)
    ensures
        keep(m, p).contains(t) <==> (m.contains(t) && p(t)),
    decreases m.len(),
{
    if m.len() > 0 {
        lemma_keep_contains(m.drop_last(), p, t);
        if m.drop_last().contains(t) {
            let j = choose|j: int| 0 <= j < m.drop_last().len() && m.drop_last()[j] == t;
            assert(m[j] == t);
        }
        if m.contains(t) && t != m.last() {
            let j = choose|j: int| 0 <= j < m.len() && m[j] == t;
            assert(m.drop_last()[j] == t);
        }
        if keep(m, p).contains(t) && p(m.last()) && t != m.last() {
            let j = choose|j: int| 0 <= j < keep(m, p).len() && keep(m, p)[j] == t;
            assert(keep(m.drop_last(), p)[j] == t);
        }
        if p(m.last()) && keep(m.drop_last(), p).contains(t) {
            let j = choose|j: int| 0 <= j < keep(m.drop_last(), p).len() && keep(m.drop_last(), p)[j] == t;
            assert(keep(m, p)[j] == t);
        }
        if p(t) && t == m.last() {
            assert(keep(m, p).last() == t);
        }
    }
}

/// Two tests that disagree on every element split a list between them.
pub proof fn lemma_keep_split(m: Seq<TaskModel>, p: spec_fn(TaskModel) -> bool, q: spec_fn(TaskModel) -> bool)
    requires
        forall|i: int| 0 <= i < m.len() ==> p(#[trigger] m[i]) != q(m[i]),
    ensures
        keep(m, p).len() + keep(m, q).len() == m.len(),
    decreases m.len(),
{
    if m.len() > 0 {
        assert(p(m[m.len() - 1]) != q(m[m.len() - 1]));
        lemma_keep_split(m.drop_last(), p, q);
    }
}

/// Moving the focused task to the front keeps the same tasks.
pub proof fn lemma_promote_contains(sel: Seq<TaskModel>, focus: Option<Seq<char>>, t: TaskModel)
    ensures
        promote(sel, focus).contains(t) <==> sel.contains(t),
        promote(sel, focus).len() == sel.len(),
{
    if focus is Some {
        let f = focus->Some_0;
        lemma_find_task(sel, f);
        let k = find_task(sel, f);
        if k >= 0 {
            let r = seq![sel[k]] + sel.remove(k);
            if sel.contains(t) {
                let j = choose|j: int| 0 <= j < sel.len() && sel[j] == t;
                if j < k {
                    assert(r[j + 1] == t);
                } else if j > k {
                    assert(r[j] == t);
                } else {
                    assert(r[0] == t);
                }
            }
            if r.contains(t) {
                let j = choose|j: int| 0 <= j < r.len() && r[j] == t;
                if j == 0 {
                    assert(sel[k] == t);
                } else if j - 1 < k {
                    assert(sel[j - 1] == t);
                } else {
                    assert(sel[j] == t);
                }
            }
        }
    }
}

/// The today view and the backlog split the tasks: an unscheduled task is in
/// the backlog only, one scheduled at or before `now` in today only, and one
/// scheduled strictly after `now` in the backlog only. This holds of the
/// views as listed, with the focused task moved first.
pub proof fn lemma_today_backlog_partition(m: Seq<TaskModel>, now: int, focus: Option<Seq<char>>, t: TaskModel)
    requires
        all_readable(m),
    ensures
        spec_filter(m, now, ListMode::Today) is Ok,
        spec_filter(m, now, ListMode::Backlog) is Ok,
        ({
            let today = promote(select(m, now, ListMode::Today), focus);
            let backlog = select(m, now, ListMode::Backlog);
            &&& today.len() + backlog.len() == m.len()
            &&& m.contains(t) && t.scheduled_at is None ==> !today.contains(t) && backlog.contains(t)
            &&& m.contains(t) && t.scheduled_at is Some && instant_of(t.scheduled_at->Some_0)->Some_0 <= now
                ==> today.contains(t) && !backlog.contains(t)
            &&& m.contains(t) && t.scheduled_at is Some && instant_of(t.scheduled_at->Some_0)->Some_0 > now
                ==> !today.contains(t) && backlog.contains(t)
            &&& today.contains(t) || backlog.contains(t) ==> m.contains(t)
        }),
{
    let pt = |x: TaskModel| listed(x, now, ListMode::Today);
    let pb = |x: TaskModel| listed(x, now, ListMode::Backlog);
    assert forall|i: int| 0 <= i < m.len() implies pt(#[trigger] m[i]) != pb(m[i]) by {
        assert(readable(m[i]));
    }
    lemma_keep_split(m, pt, pb);
    lemma_keep_contains(m, pt, t);
    lemma_keep_contains(m, pb, t);
    lemma_promote_contains(select(m, now, ListMode::Today), focus, t);
    if m.contains(t) {
        let j = choose|j: int| 0 <= j < m.len() && m[j] == t;
        assert(readable(m[j]));
    }
}

/// Completing a task a second time fails with "task already completed", and
/// the failed call leaves the state, completion history included, as it was.
pub proof fn lemma_complete_twice(
    s: StateModel,
    id: Seq<char>,
    first: Option<Seq<char>>,
    now: int,
    second: Option<Seq<char>>,
    later: int,
)
    requires
        spec_complete(s, id, first, now) is Ok,
    ensures
        spec_complete(spec_complete(s, id, first, now)->Ok_0.0, id, second, later) == Err::<
            (StateModel, TaskModel),
            Failure,
        >(Failure::Input("task already completed"@)),
{
    let k = find_task(s.tasks, trimmed(id));
    let p = spec_complete(s, id, first, now)->Ok_0;
    lemma_find_task(s.tasks, trimmed(id));
    lemma_find_task_update(s.tasks, trimmed(id), k, p.1);
}

/// Rescheduling an unscheduled task fails with "task is not scheduled"; one
/// whose schedule is not strictly before `now` fails with "task is not
/// overdue"; an overdue one gets exactly the normalized new date.
pub proof fn lemma_reschedule_rules(s: StateModel, id: Seq<char>, datetime: Seq<char>, now: int)
    requires
        !is_blank(id),
        has_task(s.tasks, trimmed(id)),
        !is_blank(datetime),
        normalized(trimmed(datetime)) is Some,
    ensures
        ({
            let t = s.tasks[find_task(s.tasks, trimmed(id))];
            let r = spec_schedule(s, id, datetime, true, now);
            &&& t.scheduled_at is None ==> r == Err::<(StateModel, TaskModel), Failure>(
                Failure::Input("task is not scheduled"@),
            )
            &&& t.scheduled_at is Some && instant_of(t.scheduled_at->Some_0) is Some
                && instant_of(t.scheduled_at->Some_0)->Some_0 >= now ==> r == Err::<
                (StateModel, TaskModel),
                Failure,
            >(Failure::Input("task is not overdue"@))
            &&& t.scheduled_at is Some && instant_of(t.scheduled_at->Some_0) is Some
                && instant_of(t.scheduled_at->Some_0)->Some_0 < now ==> r is Ok && r->Ok_0.1.scheduled_at
                == normalized(trimmed(datetime))
        }),
{
    lemma_find_task(s.tasks, trimmed(id));
}

} // verus!
