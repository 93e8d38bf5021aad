use todo_core::filter::FilterPref;
use todo_core::state::AppState;

fn contents(s: &AppState, i: usize) -> Vec<String> {
    s.collections[i].tasks.iter().map(|t| t.content.clone()).collect()
}

#[test]
fn startup_with_no_file_yields_no_collection() {
    let s = AppState::startup(None, FilterPref::All).unwrap();
    assert_eq!(s.collections.len(), 0);
    assert!(s.active.is_none());
    assert_eq!(s.filter_pref, FilterPref::All);
}

#[test]
fn startup_with_empty_document_selects_nothing() {
    let s = AppState::startup(Some("[]"), FilterPref::Open).unwrap();
    assert_eq!(s.collections.len(), 0);
    assert!(s.active.is_none());
}

#[test]
fn startup_selects_the_first_collection() {
    let doc = "[{\"title\":\"Home\",\"tasks_data\":[{\"completed\":false,\"content\":\"Milk\"}]},{\"title\":\"Work\",\"tasks_data\":[]}]";
    let s = AppState::startup(Some(doc), FilterPref::All).unwrap();
    assert_eq!(s.collections.len(), 2);
    assert_eq!(s.active, Some(0));
    assert_eq!(s.collections[0].title, "Home");
    assert_eq!(s.collections[1].title, "Work");
    assert_eq!(contents(&s, 0), vec!["Milk"]);
}

#[test]
fn startup_rejects_a_malformed_document() {
    assert!(AppState::startup(Some("not json"), FilterPref::All).is_err());
}

#[test]
fn new_collection_appends_and_becomes_active() {
    let mut s = AppState::new(FilterPref::All);
    s.new_collection(Some("Home".to_string()));
    s.new_collection(Some("Work".to_string()));
    assert_eq!(s.collections.len(), 2);
    assert_eq!(s.collections[0].title, "Home");
    assert_eq!(s.collections[1].title, "Work");
    assert_eq!(s.active, Some(1));
}

#[test]
fn cancelled_prompt_changes_nothing() {
    let mut s = AppState::new(FilterPref::All);
    s.new_collection(None);
    assert_eq!(s.collections.len(), 0);
    assert!(s.active.is_none());
}

#[test]
fn empty_title_is_rejected() {
    let mut s = AppState::new(FilterPref::All);
    s.new_collection(Some(String::new()));
    assert_eq!(s.collections.len(), 0);
    assert!(s.active.is_none());
}

#[test]
fn new_task_rejects_exactly_empty_content() {
    let mut s = AppState::new(FilterPref::All);
    s.new_collection(Some("Home".to_string()));
    s.new_task(String::new());
    assert_eq!(s.collections[0].tasks.len(), 0);
    s.new_task("   ".to_string());
    assert_eq!(contents(&s, 0), vec!["   "]);
}

#[test]
fn actions_touch_only_the_selected_collection() {
    let mut s = AppState::new(FilterPref::All);
    s.new_collection(Some("c1".to_string()));
    s.new_task("one".to_string());
    s.new_collection(Some("c2".to_string()));
    assert_eq!(s.active, Some(1));

    s.new_task("alpha".to_string());
    s.new_task("beta".to_string());
    assert_eq!(contents(&s, 0), vec!["one"]);
    assert_eq!(contents(&s, 1), vec!["alpha", "beta"]);

    s.toggle_task(0);
    assert!(s.collections[1].tasks[0].completed);
    assert!(!s.collections[0].tasks[0].completed);

    s.remove_done_tasks();
    assert_eq!(contents(&s, 0), vec!["one"]);
    assert_eq!(contents(&s, 1), vec!["beta"]);
}

#[test]
fn selecting_another_collection_switches_the_view() {
    let mut s = AppState::new(FilterPref::All);
    s.new_collection(Some("c1".to_string()));
    s.new_task("one".to_string());
    s.new_collection(Some("c2".to_string()));
    s.new_task("two".to_string());

    s.select_collection(0);
    let v: Vec<String> = s.visible_tasks().iter().map(|t| t.content.clone()).collect();
    assert_eq!(v, vec!["one"]);

    s.select_collection(1);
    let v: Vec<String> = s.visible_tasks().iter().map(|t| t.content.clone()).collect();
    assert_eq!(v, vec!["two"]);
}

#[test]
fn the_filter_preference_drives_the_view() {
    let mut s = AppState::new(FilterPref::All);
    s.new_collection(Some("Home".to_string()));
    s.new_task("open1".to_string());
    s.new_task("done1".to_string());
    s.new_task("open2".to_string());
    s.toggle_task(1);

    let all: Vec<String> = s.visible_tasks().iter().map(|t| t.content.clone()).collect();
    assert_eq!(all, vec!["open1", "done1", "open2"]);

    s.set_filter(FilterPref::Open);
    let open: Vec<String> = s.visible_tasks().iter().map(|t| t.content.clone()).collect();
    assert_eq!(open, vec!["open1", "open2"]);

    s.set_filter(FilterPref::Done);
    let done: Vec<String> = s.visible_tasks().iter().map(|t| t.content.clone()).collect();
    assert_eq!(done, vec!["done1"]);
}

#[test]
fn no_selection_shows_an_empty_view() {
    let s = AppState::new(FilterPref::All);
    assert!(s.visible_tasks().is_empty());
}

#[test]
fn toggling_hides_a_task_from_the_open_view() {
    let mut s = AppState::new(FilterPref::Open);
    s.new_collection(Some("Home".to_string()));
    s.new_task("chore".to_string());
    assert_eq!(s.visible_tasks().len(), 1);
    s.toggle_task(0);
    assert!(s.visible_tasks().is_empty());
}

#[test]
fn saving_and_starting_up_restores_the_collections() {
    let mut s = AppState::new(FilterPref::All);
    s.new_collection(Some("Home".to_string()));
    s.new_task("Milk".to_string());
    s.new_task("Eggs".to_string());
    s.toggle_task(1);
    s.new_collection(Some("Work".to_string()));

    let saved = s.save_json();
    let back = AppState::startup(Some(&saved), FilterPref::All).unwrap();
    assert_eq!(back.collections.len(), 2);
    assert_eq!(back.active, Some(0));
    assert_eq!(back.collections[0].title, "Home");
    assert_eq!(contents(&back, 0), vec!["Milk", "Eggs"]);
    assert!(!back.collections[0].tasks[0].completed);
    assert!(back.collections[0].tasks[1].completed);
    assert_eq!(back.collections[1].title, "Work");
    assert_eq!(back.collections[1].tasks.len(), 0);
}
