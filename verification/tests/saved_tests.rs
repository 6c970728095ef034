use jotun::dashboard::App;
use jotun::saved::{next_id_from_saved, note_tag_rows, tag_rows};
use jotun::store::Database;

fn names(v: &[&str]) -> Vec<String> {
    v.iter().map(|s| s.to_string()).collect()
}

#[test]
fn next_id_comes_from_the_counter_or_the_largest_id() {
    assert_eq!(next_id_from_saved(None, None), 1);
    assert_eq!(next_id_from_saved(Some(5), Some(3)), 6);
    assert_eq!(next_id_from_saved(Some(2), Some(9)), 10);
    assert_eq!(next_id_from_saved(None, Some(4)), 5);
    assert_eq!(next_id_from_saved(Some(i64::MAX), None), i64::MAX);
}

#[test]
fn tag_rows_are_numbered_from_one() {
    let rows = tag_rows(&names(&["zeta", "alpha"]));
    assert_eq!(rows, vec![(1, "zeta".to_string()), (2, "alpha".to_string())]);
    assert_eq!(note_tag_rows(&names(&["zeta", "alpha", "mid"]), &names(&["mid", "zeta", "gone"])), vec![3, 1]);
}

#[test]
fn the_saved_counter_reads_back_as_the_next_id() {
    let mut db = Database::in_memory().unwrap();
    assert_eq!(db.saved_counter(), 0);
    db.create_note("a", None, "m", &[]).unwrap();
    db.create_note("b", None, "m", &[]).unwrap();
    db.delete_note(2).unwrap();
    assert_eq!(db.saved_counter(), 2);
    assert_eq!(next_id_from_saved(Some(db.saved_counter()), Some(1)), db.next_id());
}

#[test]
fn notes_made_and_edited_at_a_given_time() {
    let mut db = Database::in_memory().unwrap();
    let id = db.create_note_at("a", None, "m", &names(&["x"]), 1_000).unwrap();
    let n = db.get_note(id).unwrap();
    assert_eq!((n.created, n.updated), (1_000, 1_000));
    db.update_note_at(id, "b", None, &[], 2_000).unwrap();
    let n = db.get_note(id).unwrap();
    assert_eq!((n.created, n.updated, n.body.as_str()), (1_000, 2_000, "b"));
    let older = db.create_note_at("old", None, "m", &[], 500).unwrap();
    let listed: Vec<i64> = db.list_notes().unwrap().iter().map(|n| n.id).collect();
    assert_eq!(listed, vec![id, older]);
}

#[test]
fn dashboard_edits_at_a_given_time() {
    let mut db = Database::in_memory().unwrap();
    db.create_note_at("draft", None, "m", &[], 10).unwrap();
    let mut app = App::new(db).unwrap();
    let n = app.selected_note().unwrap();
    app.edit_current_at(&n, " final ", 20).unwrap();
    assert_eq!(app.notes()[0].updated, 20);
    assert_eq!(app.notes()[0].body, "final");
    app.create_new_at("new one", 5).unwrap();
    assert_eq!(app.notes().len(), 2);
    assert_eq!(app.notes()[1].created, 5);
    assert_eq!(app.status(), "Created note #2");
}
