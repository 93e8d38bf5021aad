//! The filter policy: which tasks of a list are visible.

use vstd::prelude::*;
use crate::task::{Task, TaskView, task_views};

verus! {

/// The persisted filter preference.
#[derive(Clone, Copy, Debug, PartialEq, Eq, Structural)]
pub enum FilterPref {
    All,
    Open,
    Done,
}

/// The open tasks of `ts`, in their original relative order.
pub open spec fn filter_open(ts: Seq<TaskView>) -> Seq<TaskView> {
    ts.filter(|t: TaskView| !t.completed)
}

/// The completed tasks of `ts`, in their original relative order.
pub open spec fn filter_done(ts: Seq<TaskView>) -> Seq<TaskView> {
    ts.filter(|t: TaskView| t.completed)
}

/// The filtered projection of a task list: `All` keeps every task, `Open`
/// keeps the tasks not yet completed, `Done` keeps the completed ones; the
/// relative order is preserved in every case.
pub open spec fn spec_filter(ts: Seq<TaskView>, pref: FilterPref) -> Seq<TaskView> {
    match pref {
        FilterPref::All => ts,
        FilterPref::Open => filter_open(ts),
        FilterPref::Done => filter_done(ts),
    }
}

/// Derives the visible view of `tasks` under `pref`.  The result is a fresh
/// list whose models are exactly `spec_filter` of the models of `tasks`.
pub fn apply_filter(tasks: &Vec<Task>, pref: FilterPref) -> (r: Vec<Task>)
    ensures
        task_views(r@) == spec_filter(task_views(tasks@), pref),
{
    let mut out: Vec<Task> = Vec::new();
    assert(task_views(out@) =~= spec_filter(task_views(tasks@.take(0)), pref));
    let n = tasks.len();
    for i in 0..n
        invariant
            n == tasks.len(),
            task_views(out@) == spec_filter(task_views(tasks@.take(i as int)), pref),
    {
        let t = &tasks[i];
        let ghost prev = task_views(tasks@.take(i as int));
        let ghost x = tasks@[i as int]@;
        let ghost out_before = task_views(out@);
        let keep = match pref {
            FilterPref::All => true,
            FilterPref::Open => !t.is_completed(),
            FilterPref::Done => t.is_completed(),
        };
        if keep {
            out.push(t.duplicate());
            proof {
                assert(task_views(out@) =~= out_before.push(x));
            }
        }
        proof {
            broadcast use Seq::lemma_filter_push;

            assert(task_views(tasks@.take(i + 1)) =~= prev.push(x));
            assert(spec_filter(prev.push(x), pref) == if keep {
                spec_filter(prev, pref).push(x)
            } else {
                spec_filter(prev, pref)
            });
            assert(task_views(out@) == spec_filter(task_views(tasks@.take(i + 1)), pref));
        }
    }
    proof {
        assert(tasks@.take(n as int) =~= tasks@);
    }
    out
}

/// The open and completed views partition a task list: every task is in the
/// `All` view, each task is in exactly one of the `Open` and `Done` views, and
/// the two views together have exactly as many entries as the list.
pub proof fn lemma_filter_partition(ts: Seq<TaskView>)
    ensures
        spec_filter(ts, FilterPref::All) == ts,
        spec_filter(ts, FilterPref::Open).len() + spec_filter(ts, FilterPref::Done).len()
            == ts.len(),
        forall|t: TaskView| spec_filter(ts, FilterPref::Open).contains(t) ==> !t.completed,
        forall|t: TaskView| spec_filter(ts, FilterPref::Done).contains(t) ==> t.completed,
        forall|i: int|
            0 <= i < ts.len() && !ts[i].completed ==> spec_filter(ts, FilterPref::Open).contains(
                ts[i],
            ),
        forall|i: int|
            0 <= i < ts.len() && ts[i].completed ==> spec_filter(ts, FilterPref::Done).contains(
                ts[i],
            ),
    decreases ts.len(),
{
    reveal(Seq::filter);
    broadcast use vstd::seq_lib::lemma_seq_contains_after_push;

    if ts.len() > 0 {
        let prefix = ts.drop_last();
        lemma_filter_partition(prefix);
        assert(forall|i: int| 0 <= i < prefix.len() ==> prefix[i] == ts[i]);
        if !ts.last().completed {
            assert(filter_open(ts) == filter_open(prefix).push(ts.last()));
            assert(filter_done(ts) == filter_done(prefix));
        } else {
            assert(filter_open(ts) == filter_open(prefix));
            assert(filter_done(ts) == filter_done(prefix).push(ts.last()));
        }
    }
}

/// Filtering keeps only tasks that satisfy the selection, so filtering the
/// same way twice gives the result of filtering once.
pub proof fn lemma_filter_idempotent(ts: Seq<TaskView>, pref: FilterPref)
    ensures
        spec_filter(spec_filter(ts, pref), pref) == spec_filter(ts, pref),
{
    match pref {
        FilterPref::All => {},
        FilterPref::Open => {
            lemma_filter_partition(ts);
            lemma_filter_of_members(spec_filter(ts, FilterPref::Open));
        },
        FilterPref::Done => {
            lemma_filter_partition(ts);
            lemma_filter_of_members(spec_filter(ts, FilterPref::Done));
        },
    }
}

/// Filtering a list whose tasks all pass the selection returns the list
/// unchanged, for either of the two selective preferences.
proof fn lemma_filter_of_members(ts: Seq<TaskView>)
    ensures
        (forall|t: TaskView| ts.contains(t) ==> !t.completed) ==> filter_open(ts) == ts,
        (forall|t: TaskView| ts.contains(t) ==> t.completed) ==> filter_done(ts) == ts,
    decreases ts.len(),
{
    reveal(Seq::filter);
    if ts.len() > 0 {
        let prefix = ts.drop_last();
        lemma_filter_of_members(prefix);
        assert forall|t: TaskView| prefix.contains(t) implies ts.contains(t) by {
            let i = choose|i: int| 0 <= i < prefix.len() && prefix[i] == t;
            assert(ts[i] == t);
        }
        assert(ts.contains(ts.last()));
        if forall|t: TaskView| ts.contains(t) ==> !t.completed {
            assert(forall|t: TaskView| prefix.contains(t) ==> !t.completed);
            assert(!ts.last().completed);
            assert(filter_open(ts) == filter_open(prefix).push(ts.last()));
            assert(filter_open(ts) =~= ts);
        }
        if forall|t: TaskView| ts.contains(t) ==> t.completed {
            assert(forall|t: TaskView| prefix.contains(t) ==> t.completed);
            assert(ts.last().completed);
            assert(filter_done(ts) == filter_done(prefix).push(ts.last()));
            assert(filter_done(ts) =~= ts);
        }
    }
}

} // verus!
