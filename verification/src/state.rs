//! The view controller: the full application state and the user actions that
//! mutate it.
//!
//! The state is either `NoCollection` (`active` is `None`) or `Active`
//! (`active` holds the index of the selected collection).  Task-mutating
//! actions require an active collection and touch only it; the visible task
//! view is always derived from the active collection and the filter
//! preference.

use vstd::prelude::*;
use crate::task::{Task, TaskView, task_views};
use crate::collection::{collection_views, Collection, CollectionView};
use crate::filter::{apply_filter, filter_open, spec_filter, FilterPref};
use crate::codec::{from_json, sp_doc, spec_json, to_json, ParseError};

verus! {

/// The in-memory application state.
#[derive(Debug)]
pub struct AppState {
    /// Every collection, in creation order.
    pub collections: Vec<Collection>,
    /// Index of the active collection, if one is selected.
    pub active: Option<usize>,
    /// The persisted filter preference; it applies to whichever collection is
    /// active.
    pub filter_pref: FilterPref,
}

impl AppState {
    /// The models of the collections, in order.
    pub open spec fn cols(self) -> Seq<CollectionView> {
        collection_views(self.collections@)
    }

    /// The index of the active collection; meaningful only when one is
    /// selected.
    pub open spec fn active_index(self) -> int {
        self.active.unwrap() as int
    }

    /// Well-formedness: an active index always points at a collection.
    pub open spec fn wf(self) -> bool {
        self.active is Some ==> self.active.unwrap() < self.collections.len()
    }

    /// The model of the active collection after an action left index `i`
    /// active and replaced that collection's tasks by `tasks`.
    pub open spec fn with_tasks_at(self, i: int, tasks: Seq<TaskView>) -> Seq<CollectionView> {
        self.cols().update(i, CollectionView { title: self.cols()[i].title, tasks })
    }

    /// A fresh state: no collections, nothing selected.
    pub fn new(filter_pref: FilterPref) -> (r: AppState)
        ensures
            r.wf(),
            r.cols().len() == 0,
            r.active is None,
            r.filter_pref == filter_pref,
    {
        AppState { collections: Vec::new(), active: None, filter_pref }
    }

    /// Selects the collection at index `i`; the collections themselves and
    /// the filter preference are untouched.
    pub fn select_collection(&mut self, i: usize)
        requires
            i < old(self).collections.len(),
        ensures
            final(self).wf(),
            final(self).active == Some(i),
            final(self).cols() == old(self).cols(),
            final(self).filter_pref == old(self).filter_pref,
    {
        self.active = Some(i);
    }

    /// Changes the filter preference; the collections and the selection are
    /// untouched.
    pub fn set_filter(&mut self, pref: FilterPref)
        ensures
            final(self).filter_pref == pref,
            final(self).cols() == old(self).cols(),
            final(self).active == old(self).active,
            old(self).wf() ==> final(self).wf(),
    {
        self.filter_pref = pref;
    }

    /// Creates a collection from the name prompt's answer.  A cancelled
    /// prompt (`None`) or an empty title leaves the state unchanged;
    /// otherwise the new, empty collection is appended and becomes active.
    pub fn new_collection(&mut self, title: Option<String>)
        requires
            old(self).wf(),
        ensures
            final(self).wf(),
            final(self).filter_pref == old(self).filter_pref,
            match title {
                None => final(self).cols() == old(self).cols() && final(self).active == old(
                    self,
                ).active,
                Some(t) => if t@.len() == 0 {
                    final(self).cols() == old(self).cols() && final(self).active == old(
                        self,
                    ).active
                } else {
                    final(self).cols() == old(self).cols().push(
                        CollectionView { title: t@, tasks: Seq::<TaskView>::empty() },
                    ) && final(self).active == Some(old(self).collections.len() as usize)
                },
            },
    {
        match title {
            None => {},
            Some(t) => {
                if !t.as_str().is_empty() {
                    let ghost before = self.cols();
                    let c = Collection::new(t);
                    let i = self.collections.len();
                    self.collections.push(c);
                    self.active = Some(i);
                    proof {
                        assert(self.cols() =~= before.push(c@));
                    }
                }
            },
        }
    }

    /// Appends a task with the given content to the active collection; empty
    /// content is rejected and leaves the state unchanged.  Only the active
    /// collection is touched.
    pub fn new_task(&mut self, content: String)
        requires
            old(self).wf(),
            old(self).active is Some,
        ensures
            final(self).wf(),
            final(self).active == old(self).active,
            final(self).filter_pref == old(self).filter_pref,
            content@.len() == 0 ==> final(self).cols() == old(self).cols(),
            content@.len() > 0 ==> final(self).cols() == old(self).with_tasks_at(
                old(self).active_index(),
                old(self).cols()[old(self).active_index()].tasks.push(
                    TaskView { completed: false, content: content@ },
                ),
            ),
    {
        let i = self.active.unwrap();
        let ghost before = self.cols();
        let mut c = self.collections.remove(i);
        c.add_task(content);
        self.collections.insert(i, c);
        proof {
            if content@.len() == 0 {
                assert(self.cols() =~= before);
            } else {
                assert(self.cols() =~= before.update(
                    i as int,
                    CollectionView {
                        title: before[i as int].title,
                        tasks: before[i as int].tasks.push(
                            TaskView { completed: false, content: content@ },
                        ),
                    },
                ));
            }
        }
    }

    /// Flips the completed flag of task `j` of the active collection.  Only
    /// that task is touched.
    pub fn toggle_task(&mut self, j: usize)
        requires
            old(self).wf(),
            old(self).active is Some,
            j < old(self).cols()[old(self).active_index()].tasks.len(),
        ensures
            final(self).wf(),
            final(self).active == old(self).active,
            final(self).filter_pref == old(self).filter_pref,
            final(self).cols() == old(self).with_tasks_at(
                old(self).active_index(),
                old(self).cols()[old(self).active_index()].tasks.update(
                    j as int,
                    TaskView {
                        completed: !old(self).cols()[old(self).active_index()].tasks[j as int].completed,
                        content: old(self).cols()[old(self).active_index()].tasks[j as int].content,
                    },
                ),
            ),
    {
        let i = self.active.unwrap();
        let ghost before = self.cols();
        let mut c = self.collections.remove(i);
        let ghost ctasks = c@.tasks;
        let mut t = c.tasks.remove(j);
        t.toggle();
        c.tasks.insert(j, t);
        proof {
            assert(task_views(c.tasks@) =~= ctasks.update(
                j as int,
                TaskView { completed: !ctasks[j as int].completed, content: ctasks[j as int].content },
            ));
        }
        self.collections.insert(i, c);
        proof {
            assert(self.cols() =~= before.update(
                i as int,
                CollectionView { title: before[i as int].title, tasks: task_views(c.tasks@) },
            ));
        }
    }

    /// Removes every completed task of the active collection, preserving the
    /// relative order of the open ones.  Only the active collection is
    /// touched.
    pub fn remove_done_tasks(&mut self)
        requires
            old(self).wf(),
            old(self).active is Some,
        ensures
            final(self).wf(),
            final(self).active == old(self).active,
            final(self).filter_pref == old(self).filter_pref,
            final(self).cols() == old(self).with_tasks_at(
                old(self).active_index(),
                filter_open(old(self).cols()[old(self).active_index()].tasks),
            ),
    {
        let i = self.active.unwrap();
        let ghost before = self.cols();
        let mut c = self.collections.remove(i);
        c.remove_completed();
        self.collections.insert(i, c);
        proof {
            assert(self.cols() =~= before.update(
                i as int,
                CollectionView {
                    title: before[i as int].title,
                    tasks: filter_open(before[i as int].tasks),
                },
            ));
        }
    }

    /// Builds the startup state.  With no persisted document the state has no
    /// collections and nothing selected; with one, the collections are parsed
    /// from it and the first becomes active; a malformed document is the
    /// fatal startup error.
    pub fn startup(file: Option<&str>, filter_pref: FilterPref) -> (r: Result<
        AppState,
        ParseError,
    >)
        ensures
            match r {
                Ok(s) => s.wf() && s.filter_pref == filter_pref && match file {
                    None => s.cols().len() == 0 && s.active is None,
                    Some(text) => sp_doc(text@) == Some(s.cols()) && (s.cols().len() > 0 ==> s.active
                        == Some(0usize)) && (s.cols().len() == 0 ==> s.active is None),
                },
                Err(_) => file is Some && sp_doc(file.unwrap()@) is None,
            },
    {
        match file {
            None => Ok(AppState::new(filter_pref)),
            Some(text) => match from_json(text) {
                Err(e) => Err(e),
                Ok(cs) => {
                    let active: Option<usize> = if cs.len() > 0 {
                        Some(0)
                    } else {
                        None
                    };
                    Ok(AppState { collections: cs, active, filter_pref })
                },
            },
        }
    }

    /// Serializes the collections as the persisted document, for the save on
    /// close.
    pub fn save_json(&self) -> (r: String)
        ensures
            r@ == spec_json(self.cols()),
    {
        to_json(&self.collections)
    }

    /// Derives the visible task view: the active collection's tasks under the
    /// current filter preference, or the empty view when no collection is
    /// selected.
    pub fn visible_tasks(&self) -> (r: Vec<Task>)
        requires
            self.wf(),
        ensures
            self.active is None ==> r@.len() == 0,
            self.active is Some ==> task_views(r@) == spec_filter(
                self.cols()[self.active_index()].tasks,
                self.filter_pref,
            ),
    {
        match self.active {
            None => Vec::new(),
            Some(i) => apply_filter(&self.collections[i].tasks, self.filter_pref),
        }
    }
}

} // verus!
