use jotun::dashboard::{Action, App, KeyInput, Pane};
use jotun::store::Database;

fn app_with(notes: &[(&str, &[&str])]) -> App {
    let mut db = Database::in_memory().unwrap();
    for (body, tags) in notes {
        let tags: Vec<String> = tags.iter().map(|t| t.to_string()).collect();
        db.create_note(body, None, "test", &tags).unwrap();
    }
    App::new(db).unwrap()
}

#[test]
fn opening_state() {
    let app = app_with(&[("one", &["b", "a"])]);
    assert_eq!(app.tags(), &vec!["All".to_string(), "a".to_string(), "b".to_string()]);
    assert_eq!(app.tag_selected(), Some(0));
    assert_eq!(app.status(), "Welcome to Jotun!");
    assert_eq!(app.active_pane(), Pane::Notes);
    let empty = app_with(&[]);
    assert_eq!(empty.selected(), None);
}

#[test]
fn panes_cycle() {
    let mut app = app_with(&[]);
    app.switch_pane();
    assert_eq!(app.active_pane(), Pane::Content);
    app.switch_pane();
    assert_eq!(app.active_pane(), Pane::Tags);
    app.switch_pane();
    assert_eq!(app.active_pane(), Pane::Notes);
}

#[test]
fn down_then_up_returns() {
    let mut app = app_with(&[("a", &[]), ("b", &[]), ("c", &[])]);
    app.next();
    assert_eq!(app.selected(), Some(1));
    app.previous();
    assert_eq!(app.selected(), Some(0));
    app.previous();
    assert_eq!(app.selected(), Some(2));
}

#[test]
fn tag_pane_selects_notes_of_a_tag() {
    let mut app = app_with(&[("w", &["work"]), ("h", &["home"])]);
    app.switch_pane();
    app.switch_pane();
    assert_eq!(app.active_pane(), Pane::Tags);
    app.next();
    assert_eq!(app.tag_selected(), Some(1));
    assert_eq!(app.notes().len(), 1);
    assert_eq!(app.notes()[0].body, "h");
    app.previous();
    assert_eq!(app.notes().len(), 2);
}

#[test]
fn typing_a_search_filters() {
    let mut app = app_with(&[("Apple", &[]), ("Banana", &[])]);
    assert!(matches!(app.handle_key(KeyInput::Char('/')), Action::Continue));
    assert!(app.editing_search());
    app.handle_key(KeyInput::Char('B'));
    app.handle_key(KeyInput::Char('a'));
    assert_eq!(app.search_query(), "Ba");
    assert_eq!(app.notes().len(), 1);
    assert_eq!(app.status(), "Found 1 results");
    app.handle_key(KeyInput::Char('x'));
    assert_eq!(app.notes().len(), 0);
    assert_eq!(app.selected(), None);
    app.handle_key(KeyInput::Backspace);
    app.handle_key(KeyInput::Backspace);
    app.handle_key(KeyInput::Backspace);
    assert_eq!(app.search_query(), "");
    assert_eq!(app.notes().len(), 2);
    app.handle_key(KeyInput::Enter);
    assert!(!app.editing_search());
    assert!(matches!(app.handle_key(KeyInput::Char('q')), Action::Quit));
}

#[test]
fn keys_ask_for_copy_edit_and_new() {
    let mut app = app_with(&[("only", &[])]);
    match app.handle_key(KeyInput::Char('y')) {
        Action::Copy(n) => assert_eq!(n.body, "only"),
        other => panic!("unexpected {:?}", other),
    }
    assert_eq!(app.status(), "Welcome to Jotun!");
    match app.handle_key(KeyInput::Char('e')) {
        Action::Edit(n) => assert_eq!(n.body, "only"),
        other => panic!("unexpected {:?}", other),
    }
    assert!(matches!(app.handle_key(KeyInput::Char('n')), Action::CreateNew));
    assert!(matches!(app.handle_key(KeyInput::Esc), Action::Quit));
}

#[test]
fn copy_status_only_after_the_copy() {
    let mut app = app_with(&[("only", &[])]);
    let failed: Result<(), String> = Err("no clipboard".to_string());
    assert_eq!(app.copy_current(failed), Err("no clipboard".to_string()));
    assert_eq!(app.status(), "Welcome to Jotun!");
    assert_eq!(app.copy_current(Ok::<(), String>(())), Ok(()));
    assert_eq!(app.status(), "Copied note #1 to clipboard");
    let mut empty = app_with(&[]);
    assert_eq!(empty.copy_current(Ok::<(), String>(())), Ok(()));
    assert_eq!(empty.status(), "Welcome to Jotun!");
}

#[test]
fn delete_key_only_in_the_notes_pane() {
    let mut app = app_with(&[("a", &[]), ("b", &[])]);
    app.switch_pane();
    assert!(matches!(app.handle_key(KeyInput::Char('d')), Action::Continue));
    assert!(!app.confirming_delete());
    assert_eq!(app.notes().len(), 2);
    app.switch_pane();
    app.switch_pane();
    assert!(matches!(app.handle_key(KeyInput::Char('d')), Action::Continue));
    assert!(app.confirming_delete());
    assert_eq!(app.status(), "Delete note #2? (y/N)");
    assert_eq!(app.notes().len(), 2);
    assert!(matches!(app.handle_key(KeyInput::Char('y')), Action::Continue));
    assert!(!app.confirming_delete());
    assert_eq!(app.notes().len(), 1);
    assert_eq!(app.status(), "Deleted note #2");
    assert_eq!(app.selected(), Some(0));
}

#[test]
fn delete_needs_a_yes() {
    let mut app = app_with(&[("a", &[]), ("b", &[])]);
    app.handle_key(KeyInput::Char('d'));
    assert!(matches!(app.handle_key(KeyInput::Char('n')), Action::Continue));
    assert!(!app.confirming_delete());
    assert_eq!(app.status(), "Deletion cancelled");
    assert_eq!(app.notes().len(), 2);
    assert!(app.database().get_note(2).is_ok());
    app.handle_key(KeyInput::Char('d'));
    assert!(matches!(app.handle_key(KeyInput::Char('q')), Action::Continue));
    assert_eq!(app.notes().len(), 2);
    app.handle_key(KeyInput::Char('d'));
    app.handle_key(KeyInput::Char('Y'));
    assert_eq!(app.notes().len(), 1);
    assert!(app.database().get_note(2).is_err());
}

#[test]
fn edits_and_new_notes() {
    let mut app = app_with(&[("draft", &[])]);
    let n = app.selected_note().unwrap();
    app.edit_current(&n, "draft\n").unwrap();
    assert_eq!(app.status(), "Welcome to Jotun!");
    app.edit_current(&n, "final\n").unwrap();
    assert_eq!(app.status(), "Updated note #1");
    assert_eq!(app.notes()[0].body, "final");
    app.create_new("  \n").unwrap();
    assert_eq!(app.notes().len(), 1);
    app.create_new("another\n").unwrap();
    assert_eq!(app.status(), "Created note #2");
    assert_eq!(app.notes().len(), 2);
    assert_eq!(app.database().get_note(2).unwrap().source, "tui");
}
