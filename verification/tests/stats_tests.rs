use jotun::store::Database;

#[test]
fn statistics_count_notes_tags_and_use() {
    let mut db = Database::in_memory().unwrap();
    let t = |names: &[&str]| names.iter().map(|s| s.to_string()).collect::<Vec<String>>();
    db.create_note("héllo", None, "m", &t(&["b", "a"])).unwrap();
    db.create_note("abc", None, "m", &t(&["a"])).unwrap();
    let id = db.create_note("x", None, "m", &t(&["c"])).unwrap();
    db.update_note(id, "x", None, &[]).unwrap();
    let st = db.get_statistics().unwrap();
    assert_eq!(st.total_notes, 3);
    assert_eq!(st.tag_count, 3);
    assert_eq!(st.total_chars, 9);
    assert_eq!(st.top_tags, vec![("a".to_string(), 2), ("b".to_string(), 1)]);
}

#[test]
fn statistics_ties_go_by_name() {
    let mut db = Database::in_memory().unwrap();
    db.create_note("1", None, "m", &["zed".to_string(), "amy".to_string()]).unwrap();
    let st = db.get_statistics().unwrap();
    assert_eq!(st.top_tags, vec![("amy".to_string(), 1), ("zed".to_string(), 1)]);
}
