//! A named, ordered group of tasks.

use vstd::prelude::*;
use crate::task::{Task, TaskView, task_views};
use crate::filter::{apply_filter, filter_open, FilterPref};

verus! {

/// Mathematical model of a collection: its title and the models of its tasks,
/// in order.
#[verifier::ext_equal]
pub struct CollectionView {
    pub title: Seq<char>,
    pub tasks: Seq<TaskView>,
}

/// A to-do list: a title fixed at creation and an ordered task list, newest
/// task at the end.
#[derive(Debug)]
pub struct Collection {
    pub title: String,
    pub tasks: Vec<Task>,
}

impl View for Collection {
    type V = CollectionView;

    open spec fn view(&self) -> CollectionView {
        CollectionView { title: self.title@, tasks: task_views(self.tasks@) }
    }
}

/// The models of a sequence of collections, in order.
pub open spec fn collection_views(cs: Seq<Collection>) -> Seq<CollectionView> {
    cs.map_values(|c: Collection| c@)
}

impl Collection {
    /// Creates a collection with the given title and no tasks.
    pub fn new(title: String) -> (r: Collection)
        ensures
            r@ == (CollectionView { title: title@, tasks: Seq::<TaskView>::empty() }),
    {
        let r = Collection { title, tasks: Vec::new() };
        proof {
            assert(r@.tasks =~= Seq::<TaskView>::empty());
        }
        r
    }

    /// Appends a new open task with the given content at the end of the list;
    /// empty content is rejected and leaves the collection unchanged.
    pub fn add_task(&mut self, content: String)
        ensures
            final(self)@.title == old(self)@.title,
            content@.len() == 0 ==> final(self)@ == old(self)@,
            content@.len() > 0 ==> final(self)@.tasks == old(self)@.tasks.push(
                TaskView { completed: false, content: content@ },
            ),
    {
        if content.as_str().is_empty() {
            return ;
        }
        let ghost before = self@.tasks;
        let t = Task::new(false, content);
        self.tasks.push(t);
        proof {
            assert(self@.tasks =~= before.push(t@));
        }
    }

    /// Removes every completed task, preserving the relative order of the
    /// open ones.
    pub fn remove_completed(&mut self)
        ensures
            final(self)@.title == old(self)@.title,
            final(self)@.tasks == filter_open(old(self)@.tasks),
    {
        let kept = apply_filter(&self.tasks, FilterPref::Open);
        self.tasks = kept;
    }

    /// Returns an independent collection with the same model value.
    pub fn duplicate(&self) -> (r: Collection)
        ensures
            r@ == self@,
    {
        let mut tasks: Vec<Task> = Vec::new();
        let n = self.tasks.len();
        for i in 0..n
            invariant
                n == self.tasks.len(),
                task_views(tasks@) == task_views(self.tasks@.take(i as int)),
        {
            let ghost before = task_views(tasks@);
            let d = self.tasks[i].duplicate();
            tasks.push(d);
            proof {
                assert(task_views(tasks@) =~= before.push(d@));
                assert(task_views(self.tasks@.take(i + 1)) =~= before.push(d@));
            }
        }
        proof {
            assert(self.tasks@.take(n as int) =~= self.tasks@);
        }
        let r = Collection { title: self.title.clone(), tasks };
        proof {
            assert(r@ =~= self@);
        }
        r
    }
}

} // verus!
