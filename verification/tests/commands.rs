use minimal_notes::commands::create_note;
use minimal_notes::commands::holds_query;
use minimal_notes::commands::new_note;
use minimal_notes::commands::note_matches;
use minimal_notes::commands::search_notes;
use minimal_notes::commands::NOTE_ID_LENGTH;
use minimal_notes::note::Note;

fn note(id: &str, title: &str, content: &str) -> Note {
    Note { id: id.to_string(), title: title.to_string(), content: content.to_string() }
}

fn ids(notes: &[Note]) -> Vec<String> {
    notes.iter().map(|n| n.id.clone()).collect()
}

#[test]
fn created_note_is_blank_with_a_fresh_id() {
    let first = create_note();
    let second = create_note();
    assert_eq!(first.title, "New Note");
    assert_eq!(first.content, "");
    assert_eq!(first.id.chars().count(), NOTE_ID_LENGTH);
    assert_eq!(first.id.chars().count(), 36);
    assert_eq!(first.id.chars().filter(|c| *c == '-').count(), 4);
    assert!(first.id.chars().all(|c| c == '-' || c.is_ascii_hexdigit()));
    assert_ne!(first.id, second.id);
}

#[test]
fn new_note_keeps_the_given_id() {
    let n = new_note("abc".to_string());
    assert_eq!(n.id, "abc");
    assert_eq!(n.title, "New Note");
    assert_eq!(n.content, "");
}

#[test]
fn copy_is_equal_field_by_field() {
    let n = note("1", "Title", "Body");
    let c = n.copy();
    assert_eq!((c.id, c.title, c.content), (n.id, n.title, n.content));
}

#[test]
fn empty_query_selects_every_note() {
    let notes = vec![note("1", "Alpha", "x"), note("2", "Beta", "y")];
    assert_eq!(ids(&search_notes(&notes, "")), vec!["1", "2"]);
    assert_eq!(ids(&search_notes(&[], "")), Vec::<String>::new());
}

#[test]
fn query_matches_title_or_content_whatever_the_case() {
    let notes = vec![
        note("1", "Shopping LIST", "milk and eggs"),
        note("2", "Ideas", "a list of Things"),
        note("3", "Travel", "tickets"),
        note("4", "", ""),
    ];
    assert_eq!(ids(&search_notes(&notes, "list")), vec!["1", "2"]);
    assert_eq!(ids(&search_notes(&notes, "LiSt")), vec!["1", "2"]);
    assert_eq!(ids(&search_notes(&notes, "tickets")), vec!["3"]);
    assert_eq!(ids(&search_notes(&notes, "nothing")), Vec::<String>::new());
    assert_eq!(ids(&search_notes(&notes, "\u{c9}GGS")), Vec::<String>::new());
    let accented = vec![note("5", "CAF\u{c9}", "")];
    assert_eq!(ids(&search_notes(&accented, "caf\u{e9}")), vec!["5"]);
}

#[test]
fn note_matches_expects_a_lower_case_query() {
    let n = note("1", "Shopping LIST", "milk");
    assert!(note_matches(&n, "list"));
    assert!(note_matches(&n, "milk"));
    assert!(note_matches(&n, ""));
    assert!(!note_matches(&n, "LIST"));
    assert!(!note_matches(&n, "bread"));
}

#[test]
fn holds_query_looks_in_both_texts() {
    assert!(holds_query("abc", "def", "bc"));
    assert!(holds_query("abc", "def", "de"));
    assert!(holds_query("abc", "def", ""));
    assert!(!holds_query("abc", "def", "cd"));
    assert!(!holds_query("abc", "def", "abcd"));
    assert!(!holds_query("", "", "a"));
}
