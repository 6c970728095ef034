use jotun::model::DbError;
use jotun::store::Database;

#[test]
fn test_db_initialization() -> Result<(), DbError> {
    let _db = Database::in_memory()?;
    Ok(())
}

#[test]
fn test_create_and_get_note() -> Result<(), DbError> {
    let mut db = Database::in_memory()?;
    let id = db.create_note("Test body", Some("Title"), "manual", &["work".to_string()])?;
    let note = db.get_note(id)?;
    assert_eq!(note.body, "Test body");
    assert_eq!(note.title, Some("Title".to_string()));
    assert_eq!(note.source, "manual");
    assert_eq!(note.tags, vec!["work".to_string()]);
    Ok(())
}

#[test]
fn test_hierarchical_tag_search() -> Result<(), DbError> {
    let mut db = Database::in_memory()?;
    db.create_note("Body 1", None, "m", &["work/p1".to_string()])?;
    db.create_note("Body 2", None, "m", &["work/p2".to_string()])?;
    db.create_note("Body 3", None, "m", &["personal".to_string()])?;

    let work_notes = db.find_by_tag("work")?;
    assert_eq!(work_notes.len(), 2);

    let p1_notes = db.find_by_tag("work/p1")?;
    assert_eq!(p1_notes.len(), 1);
    Ok(())
}

#[test]
fn test_update_note_with_tags() -> Result<(), DbError> {
    let mut db = Database::in_memory()?;
    let id = db.create_note("Init", None, "m", &["old".to_string()])?;
    db.update_note(id, "New", Some("New Title"), &["new".to_string()])?;

    let note = db.get_note(id)?;
    assert_eq!(note.body, "New");
    assert_eq!(note.title, Some("New Title".to_string()));
    assert_eq!(note.tags, vec!["new".to_string()]);
    Ok(())
}

#[test]
fn test_list_all_tags() -> Result<(), DbError> {
    let mut db = Database::in_memory()?;
    db.create_note("1", None, "m", &["b".to_string(), "a".to_string()])?;
    db.create_note("2", None, "m", &["c".to_string(), "a".to_string()])?;

    let tags = db.list_all_tags()?;
    assert_eq!(tags, vec!["a".to_string(), "b".to_string(), "c".to_string()]);
    Ok(())
}
