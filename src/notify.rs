use vstd::prelude::*;
use crate::error::AppError;
use crate::model::Task;
use crate::text::{push_str, starts_with, strip_prefix};

verus! {

/// A way of telling the user about a task. Implementations decide how the
/// message is delivered; callers learn only whether it was.
pub trait Notifier {
    fn notify(&self, task: &Task) -> Result<(), AppError>;

    /// Notifies with an action token that brings the task up when chosen.
    fn notify_with_action(&self, task: &Task, action: &str) -> Result<(), AppError>;
}

/// A notifier that delivers nothing and always succeeds.
pub struct NoopNotifier;

impl Notifier for NoopNotifier {
    fn notify(&self, task: &Task) -> Result<(), AppError> {
        Ok(())
    }

    fn notify_with_action(&self, task: &Task, action: &str) -> Result<(), AppError> {
        self.notify(task)
    }
}

pub open spec fn action_prefix() -> Seq<char> {
    "show:"@
}

/// The action token that asks for a task to be shown.
pub fn activation_argument(task_id: &str) -> (r: String)
    ensures
        r@ == action_prefix() + task_id@,
{
    let mut out = "show:".to_owned();
    push_str(&mut out, task_id);
    out
}

/// The task id inside an action token, when it is one.
pub fn parse_activation_argument(argument: &str) -> (r: Option<String>)
    ensures
        r is Some <==> starts_with(argument@, action_prefix()),
        r is Some ==> r->Some_0@ == argument@.subrange(action_prefix().len() as int, argument@.len() as int),
{
    strip_prefix(argument, "show:")
}

/// Reading back the token made for an id yields that id.
pub proof fn lemma_activation_round_trip(id: Seq<char>)
    ensures
        starts_with(action_prefix() + id, action_prefix()),
        (action_prefix() + id).subrange(action_prefix().len() as int, (action_prefix() + id).len() as int) == id,
{
    let a = action_prefix() + id;
    assert(a.subrange(0, action_prefix().len() as int) =~= action_prefix());
    assert(a.subrange(action_prefix().len() as int, a.len() as int) =~= id);
}

} // verus!
