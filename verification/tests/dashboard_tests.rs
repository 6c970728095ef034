use jotun::dashboard::App;
use jotun::model::DbError;
use jotun::store::Database;

#[test]
fn test_app_navigation() -> Result<(), DbError> {
    let mut db = Database::in_memory()?;
    db.create_note("Note 1", None, "test", &[])?;
    db.create_note("Note 2", None, "test", &[])?;

    let mut app = App::new(db)?;
    assert_eq!(app.notes().len(), 2);
    assert_eq!(app.selected(), Some(0));

    app.next();
    assert_eq!(app.selected(), Some(1));

    app.next(); // Wrap around
    assert_eq!(app.selected(), Some(0));

    app.previous(); // Wrap around
    assert_eq!(app.selected(), Some(1));

    Ok(())
}

#[test]
fn test_app_search_filtering() -> Result<(), DbError> {
    let mut db = Database::in_memory()?;
    db.create_note("Apple", None, "test", &[])?;
    db.create_note("Banana", None, "test", &[])?;

    let mut app = App::new(db)?;
    app.set_search_query("Apple");
    app.update_notes()?;

    assert_eq!(app.notes().len(), 1);
    assert_eq!(app.notes()[0].body, "Apple");

    Ok(())
}
