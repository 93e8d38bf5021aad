//! A single to-do item: text content plus a completed flag.

use vstd::prelude::*;

verus! {

/// Mathematical model of a task: its content as a sequence of characters and
/// its completed flag.
#[verifier::ext_equal]
pub struct TaskView {
    pub completed: bool,
    pub content: Seq<char>,
}

/// A to-do item.  `content` may be empty only for values that were read back
/// from a persisted document; task creation through [`crate::state::AppState`]
/// rejects empty content.
#[derive(Debug)]
pub struct Task {
    pub completed: bool,
    pub content: String,
}

impl View for Task {
    type V = TaskView;

    open spec fn view(&self) -> TaskView {
        TaskView { completed: self.completed, content: self.content@ }
    }
}

/// The models of a sequence of tasks, in order.
pub open spec fn task_views(ts: Seq<Task>) -> Seq<TaskView> {
    ts.map_values(|t: Task| t@)
}

impl Task {
    /// Creates a task with the given flag and content.
    pub fn new(completed: bool, content: String) -> (r: Task)
        ensures
            r@ == (TaskView { completed, content: content@ }),
    {
        Task { completed, content }
    }

    /// Flips the completed flag; the content is untouched.
    pub fn toggle(&mut self)
        ensures
            final(self)@ == (TaskView {
                completed: !old(self)@.completed,
                content: old(self)@.content,
            }),
    {
        self.completed = !self.completed;
    }

    /// Returns the completed flag.
    pub fn is_completed(&self) -> (r: bool)
        ensures
            r == self@.completed,
    {
        self.completed
    }

    /// Returns an independent task with the same model value.
    pub fn duplicate(&self) -> (r: Task)
        ensures
            r@ == self@,
    {
        Task { completed: self.completed, content: self.content.clone() }
    }
}

} // verus!
