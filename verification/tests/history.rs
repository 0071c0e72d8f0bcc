use amber::history::ImportHistory;

fn s(text: &str) -> String {
    text.to_string()
}

#[test]
fn new_history_is_empty() {
    let history = ImportHistory::new();
    assert_eq!(history.len(), 0);
    assert!(history.reaches(&s("a"), &s("a")));
    assert!(!history.reaches(&s("a"), &s("b")));
}

#[test]
fn accepted_import_is_recorded() {
    let mut history = ImportHistory::new();
    assert!(history.add_import(&Some(s("a")), &s("b")));
    assert_eq!(history.len(), 1);
    assert!(history.reaches(&s("a"), &s("b")));
    assert!(!history.reaches(&s("b"), &s("a")));
}

#[test]
fn self_import_is_refused() {
    let mut history = ImportHistory::new();
    assert!(!history.add_import(&Some(s("a")), &s("a")));
    assert_eq!(history.len(), 0);
}

#[test]
fn import_back_is_refused() {
    let mut history = ImportHistory::new();
    assert!(history.add_import(&Some(s("a")), &s("b")));
    assert!(!history.add_import(&Some(s("b")), &s("a")));
    assert_eq!(history.len(), 1);
}

#[test]
fn long_circle_is_refused() {
    let mut history = ImportHistory::new();
    assert!(history.add_import(&Some(s("a")), &s("b")));
    assert!(history.add_import(&Some(s("b")), &s("c")));
    assert!(history.add_import(&Some(s("c")), &s("d")));
    assert!(history.reaches(&s("a"), &s("d")));
    assert!(!history.add_import(&Some(s("d")), &s("a")));
    assert!(!history.add_import(&Some(s("d")), &s("b")));
    assert!(history.add_import(&Some(s("a")), &s("d")));
    assert_eq!(history.len(), 4);
}

#[test]
fn same_file_may_be_imported_twice() {
    let mut history = ImportHistory::new();
    assert!(history.add_import(&Some(s("a")), &s("b")));
    assert!(history.add_import(&Some(s("a")), &s("b")));
    assert!(history.add_import(&Some(s("c")), &s("b")));
    assert_eq!(history.len(), 3);
}

#[test]
fn inline_text_leaves_no_entry() {
    let mut history = ImportHistory::new();
    assert!(history.add_import(&None, &s("b")));
    assert_eq!(history.len(), 0);
}

#[test]
fn reaches_follows_branches() {
    let mut history = ImportHistory::new();
    assert!(history.add_import(&Some(s("a")), &s("b")));
    assert!(history.add_import(&Some(s("a")), &s("c")));
    assert!(history.add_import(&Some(s("c")), &s("d")));
    assert!(history.add_import(&Some(s("b")), &s("d")));
    assert!(history.reaches(&s("a"), &s("d")));
    assert!(history.reaches(&s("b"), &s("d")));
    assert!(!history.reaches(&s("b"), &s("c")));
    assert!(!history.reaches(&s("d"), &s("a")));
}
