use todo_core::codec::{from_json, to_json};
use todo_core::collection::Collection;
use todo_core::task::Task;

fn collection(title: &str, tasks: Vec<(&str, bool)>) -> Collection {
    let mut c = Collection::new(title.to_string());
    for (content, completed) in tasks {
        c.tasks.push(Task::new(completed, content.to_string()));
    }
    c
}

fn assert_same(a: &[Collection], b: &[Collection]) {
    assert_eq!(a.len(), b.len());
    for (x, y) in a.iter().zip(b.iter()) {
        assert_eq!(x.title, y.title);
        assert_eq!(x.tasks.len(), y.tasks.len());
        for (s, t) in x.tasks.iter().zip(y.tasks.iter()) {
            assert_eq!(s.content, t.content);
            assert_eq!(s.completed, t.completed);
        }
    }
}

#[test]
fn empty_document() {
    let cs: Vec<Collection> = Vec::new();
    assert_eq!(to_json(&cs), "[]");
    let back = from_json("[]").unwrap();
    assert!(back.is_empty());
}

#[test]
fn example_document_text() {
    let cs = vec![collection("Home", vec![("Milk", false), ("Eggs", true)])];
    let s = to_json(&cs);
    assert_eq!(
        s,
        "[{\"title\":\"Home\",\"tasks_data\":[{\"completed\":false,\"content\":\"Milk\"},{\"completed\":true,\"content\":\"Eggs\"}]}]"
    );
}

#[test]
fn example_document_round_trip() {
    let cs = vec![collection("Home", vec![("Milk", false), ("Eggs", true)])];
    let back = from_json(&to_json(&cs)).unwrap();
    assert_same(&cs, &back);
}

#[test]
fn several_collections_round_trip() {
    let cs = vec![
        collection("Home", vec![("Milk", false)]),
        collection("Work", vec![]),
        collection("Trip", vec![("Pack", true), ("Book", false), ("Go", true)]),
    ];
    let back = from_json(&to_json(&cs)).unwrap();
    assert_same(&cs, &back);
}

#[test]
fn named_escapes_are_written() {
    let cs = vec![collection("t", vec![("\"\\\n\r\t\u{8}\u{c}", false)])];
    let s = to_json(&cs);
    assert_eq!(
        s,
        "[{\"title\":\"t\",\"tasks_data\":[{\"completed\":false,\"content\":\"\\\"\\\\\\n\\r\\t\\b\\f\"}]}]"
    );
    assert_same(&cs, &from_json(&s).unwrap());
}

#[test]
fn other_control_characters_use_hex_escapes() {
    let cs = vec![collection("t", vec![("\u{1}\u{1f}", true)])];
    let s = to_json(&cs);
    assert_eq!(
        s,
        "[{\"title\":\"t\",\"tasks_data\":[{\"completed\":true,\"content\":\"\\u0001\\u001f\"}]}]"
    );
    assert_same(&cs, &from_json(&s).unwrap());
}

#[test]
fn non_ascii_text_passes_through() {
    let cs = vec![collection("liste à faire", vec![("héllo — ⇒ 🙂", false)])];
    let s = to_json(&cs);
    assert!(s.contains("héllo — ⇒ 🙂"));
    assert_same(&cs, &from_json(&s).unwrap());
}

#[test]
fn empty_strings_round_trip() {
    let cs = vec![collection("", vec![("", false)])];
    let back = from_json(&to_json(&cs)).unwrap();
    assert_same(&cs, &back);
}

#[test]
fn malformed_documents_are_rejected() {
    assert!(from_json("").is_err());
    assert!(from_json("{").is_err());
    assert!(from_json("{}").is_err());
    assert!(from_json("[").is_err());
    assert!(from_json("[{]").is_err());
    assert!(from_json("[]x").is_err());
    assert!(from_json("[{\"title\":\"a\"}]").is_err());
    assert!(from_json("[{\"title\":\"a\",\"tasks_data\":[}]").is_err());
    assert!(from_json("[{\"title\":\"a\",\"tasks_data\":[{\"completed\":maybe,\"content\":\"x\"}]}]").is_err());
}

#[test]
fn unterminated_string_is_rejected() {
    assert!(from_json("[{\"title\":\"a").is_err());
}

#[test]
fn documents_with_whitespace_are_rejected() {
    assert!(from_json("[ ]").is_err());
    assert!(from_json(" []").is_err());
    assert!(from_json("[]\n").is_err());
}

#[test]
fn noncanonical_escapes_are_rejected() {
    let doc = "[{\"title\":\"x\",\"tasks_data\":[{\"completed\":false,\"content\":\"\\u000a\"}]}]";
    assert!(from_json(doc).is_err());
}
