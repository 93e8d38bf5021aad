use todo_core::collection::Collection;
use todo_core::filter::{apply_filter, FilterPref};
use todo_core::task::Task;

fn task(content: &str, completed: bool) -> Task {
    Task::new(completed, content.to_string())
}

fn contents(ts: &[Task]) -> Vec<String> {
    ts.iter().map(|t| t.content.clone()).collect()
}

#[test]
fn new_task_keeps_content_and_flag() {
    let t = Task::new(false, "Milk".to_string());
    assert_eq!(t.content, "Milk");
    assert!(!t.completed);
    assert!(!t.is_completed());
}

#[test]
fn toggle_flips_only_the_flag() {
    let mut t = task("Eggs", false);
    t.toggle();
    assert!(t.completed);
    assert_eq!(t.content, "Eggs");
    t.toggle();
    assert!(!t.completed);
}

#[test]
fn duplicate_preserves_value() {
    let t = task("Bread", true);
    let d = t.duplicate();
    assert_eq!(d.content, "Bread");
    assert!(d.completed);
}

#[test]
fn duplicate_collection_preserves_title_and_tasks() {
    let mut c = Collection::new("Home".to_string());
    c.add_task("Milk".to_string());
    c.add_task("Eggs".to_string());
    let d = c.duplicate();
    assert_eq!(d.title, "Home");
    assert_eq!(contents(&d.tasks), vec!["Milk", "Eggs"]);
}

#[test]
fn filter_all_keeps_every_task_in_order() {
    let ts = vec![task("a", false), task("b", true), task("c", false)];
    let v = apply_filter(&ts, FilterPref::All);
    assert_eq!(contents(&v), vec!["a", "b", "c"]);
}

#[test]
fn filter_open_keeps_unfinished_in_order() {
    let ts = vec![task("a", false), task("b", true), task("c", false)];
    let v = apply_filter(&ts, FilterPref::Open);
    assert_eq!(contents(&v), vec!["a", "c"]);
    assert!(v.iter().all(|t| !t.completed));
}

#[test]
fn filter_done_keeps_completed_in_order() {
    let ts = vec![task("a", false), task("b", true), task("c", true)];
    let v = apply_filter(&ts, FilterPref::Done);
    assert_eq!(contents(&v), vec!["b", "c"]);
    assert!(v.iter().all(|t| t.completed));
}

#[test]
fn filter_is_idempotent() {
    let ts = vec![task("a", false), task("b", true), task("c", false), task("d", true)];
    for pref in [FilterPref::All, FilterPref::Open, FilterPref::Done] {
        let once = apply_filter(&ts, pref);
        let twice = apply_filter(&once, pref);
        assert_eq!(contents(&twice), contents(&once));
        let flags_once: Vec<bool> = once.iter().map(|t| t.completed).collect();
        let flags_twice: Vec<bool> = twice.iter().map(|t| t.completed).collect();
        assert_eq!(flags_twice, flags_once);
    }
}

#[test]
fn open_and_done_partition_the_tasks() {
    let ts = vec![task("a", false), task("b", true), task("c", false), task("d", true)];
    let all = apply_filter(&ts, FilterPref::All);
    let open = apply_filter(&ts, FilterPref::Open);
    let done = apply_filter(&ts, FilterPref::Done);
    assert_eq!(open.len() + done.len(), all.len());
    for t in &ts {
        let in_open = open.iter().any(|o| o.content == t.content);
        let in_done = done.iter().any(|o| o.content == t.content);
        assert!(in_open != in_done);
        assert!(all.iter().any(|o| o.content == t.content));
    }
}

#[test]
fn remove_completed_keeps_open_tasks_in_order() {
    let mut c = Collection::new("Home".to_string());
    c.tasks.push(task("A", false));
    c.tasks.push(task("B", true));
    c.tasks.push(task("C", false));
    c.tasks.push(task("D", true));
    c.remove_completed();
    assert_eq!(contents(&c.tasks), vec!["A", "C"]);
    assert!(c.tasks.iter().all(|t| !t.completed));
}

#[test]
fn remove_completed_twice_is_a_noop() {
    let mut c = Collection::new("Home".to_string());
    c.tasks.push(task("A", false));
    c.tasks.push(task("B", true));
    c.remove_completed();
    let after_once = contents(&c.tasks);
    c.remove_completed();
    assert_eq!(contents(&c.tasks), after_once);
}

#[test]
fn add_task_rejects_exactly_empty_content() {
    let mut c = Collection::new("Home".to_string());
    c.add_task(String::new());
    assert_eq!(c.tasks.len(), 0);
}

#[test]
fn add_task_keeps_whitespace_only_content() {
    let mut c = Collection::new("Home".to_string());
    c.add_task("   ".to_string());
    assert_eq!(c.tasks.len(), 1);
    assert_eq!(c.tasks[0].content, "   ");
    assert!(!c.tasks[0].completed);
}

#[test]
fn add_task_appends_at_the_end() {
    let mut c = Collection::new("Home".to_string());
    c.add_task("first".to_string());
    c.add_task("second".to_string());
    assert_eq!(contents(&c.tasks), vec!["first", "second"]);
    assert!(c.tasks.iter().all(|t| !t.completed));
}

#[test]
fn new_collection_has_title_and_no_tasks() {
    let c = Collection::new("Work".to_string());
    assert_eq!(c.title, "Work");
    assert!(c.tasks.is_empty());
}
