//! The persisted record of the todo list: a task with a description and
//! a completion flag, identified by a store-assigned id.

use vstd::prelude::*;

verus! {

/// One row of the task table.
///
/// `id` is `None` until the row is persisted; the store assigns ids and
/// never hands one out twice. `completed` is nullable in the table; an
/// absent flag is read as `false` everywhere.
#[derive(Debug)]
pub struct Task {
    pub id: Option<i32>,
    pub description: String,
    pub completed: Option<bool>,
}

/// The id of a persisted row. A row that was never persisted reads as 0,
/// below every id the store hands out.
pub open spec fn task_id(t: Task) -> int {
    match t.id {
        Some(i) => i as int,
        None => 0,
    }
}

/// The completion flag as it is read: an absent flag counts as `false`.
pub open spec fn task_done(t: Task) -> bool {
    t.completed == Some(true)
}

impl Task {
    /// A fresh, not yet persisted task: no id, the given description,
    /// an explicit `false` completion flag.
    pub fn new(description: String) -> (t: Task)
        ensures
            t.id is None,
            t.description == description,
            t.completed == Some(false),
    {
        Task { id: None, description, completed: Some(false) }
    }
}

impl Clone for Task {
    /// An exact copy, field for field.
    fn clone(&self) -> (t: Task)
        ensures
            t == *self,
    {
        Task {
            id: self.id,
            description: self.description.clone(),
            completed: self.completed,
        }
    }
}

} // verus!
