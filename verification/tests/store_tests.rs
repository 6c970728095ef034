use jotun::model::{DbError, MAX_NOTE_SIZE};
use jotun::store::{Database, Note};

fn wait_a_moment() {
    let start = chrono::Utc::now().timestamp_micros();
    while chrono::Utc::now().timestamp_micros() < start + 2000 {}
}

fn tags(names: &[&str]) -> Vec<String> {
    names.iter().map(|s| s.to_string()).collect()
}

#[test]
fn read_after_create_gives_what_was_written() {
    let mut db = Database::in_memory().unwrap();
    let id = db.create_note("body text", None, "cli", &tags(&["A"])).unwrap();
    assert_eq!(id, 1);
    let n = db.get_note(id).unwrap();
    assert_eq!(n.id, 1);
    assert_eq!(n.body, "body text");
    assert_eq!(n.title, None);
    assert_eq!(n.source, "cli");
    assert_eq!(n.created, n.updated);
    assert_eq!(n.tags, tags(&["a"]));
}

#[test]
fn ids_count_up_and_are_never_reused() {
    let mut db = Database::in_memory().unwrap();
    let a = db.create_note("one", None, "m", &[]).unwrap();
    let b = db.create_note("two", None, "m", &[]).unwrap();
    db.delete_note(b).unwrap();
    let c = db.create_note("three", None, "m", &[]).unwrap();
    assert_eq!((a, b, c), (1, 2, 3));
    assert_eq!(db.next_id(), 4);
}

#[test]
fn tags_are_trimmed_lowercased_and_kept_once() {
    let mut db = Database::in_memory().unwrap();
    let id = db.create_note("x", None, "m", &tags(&["  Work  ", "   ", "WORK", "Ideas\u{3000}"])).unwrap();
    let n = db.get_note(id).unwrap();
    assert_eq!(n.tags, tags(&["work", "ideas"]));
    assert_eq!(db.list_all_tags().unwrap(), tags(&["ideas", "work"]));
}

#[test]
fn note_tags_follow_the_order_tags_were_made() {
    let mut db = Database::in_memory().unwrap();
    db.create_note("first", None, "m", &tags(&["zeta"])).unwrap();
    let id = db.create_note("second", None, "m", &tags(&["alpha", "zeta"])).unwrap();
    assert_eq!(db.get_note(id).unwrap().tags, tags(&["zeta", "alpha"]));
    assert_eq!(db.tags_in_creation_order(), tags(&["zeta", "alpha"]));
}

#[test]
fn a_body_over_the_limit_is_refused() {
    let mut db = Database::in_memory().unwrap();
    let big = "é".repeat(MAX_NOTE_SIZE / 2 + 1);
    let err = db.create_note(&big, None, "m", &[]).unwrap_err();
    assert_eq!(err, DbError::TooLarge(MAX_NOTE_SIZE + 2));
    assert_eq!(err.message(), format!("Note body exceeds 1MB limit ({} bytes)", MAX_NOTE_SIZE + 2));
    assert!(db.list_notes().unwrap().is_empty());
    let exact = "x".repeat(MAX_NOTE_SIZE);
    assert!(db.create_note(&exact, None, "m", &[]).is_ok());
}

#[test]
fn delete_then_read_is_not_found() {
    let mut db = Database::in_memory().unwrap();
    let id = db.create_note("gone", None, "m", &[]).unwrap();
    db.delete_note(id).unwrap();
    assert_eq!(db.get_note(id).unwrap_err(), DbError::NotFound(id));
    let err = db.delete_note(id).unwrap_err();
    assert_eq!(err, DbError::NotFound(id));
    assert_eq!(err.message(), "Note #1 not found.");
}

#[test]
fn delete_leaves_other_notes() {
    let mut db = Database::in_memory().unwrap();
    let a = db.create_note("a", Some("A"), "m", &tags(&["t"])).unwrap();
    let b = db.create_note("b", None, "m", &[]).unwrap();
    let before = db.get_note(a).unwrap();
    db.delete_note(b).unwrap();
    let after = db.get_note(a).unwrap();
    assert_eq!(before.body, after.body);
    assert_eq!(before.title, after.title);
    assert_eq!(before.tags, after.tags);
}

#[test]
fn update_keeps_source_and_creation_time() {
    let mut db = Database::in_memory().unwrap();
    let id = db.create_note("old", None, "clipboard", &tags(&["x"])).unwrap();
    let before = db.get_note(id).unwrap();
    db.update_note(id, "new", None, &[]).unwrap();
    let after = db.get_note(id).unwrap();
    assert_eq!(after.body, "new");
    assert_eq!(after.source, "clipboard");
    assert_eq!(after.created, before.created);
    assert!(after.tags.is_empty());
    assert_eq!(db.list_all_tags().unwrap(), tags(&["x"]));
}

#[test]
fn update_of_a_missing_note_is_refused() {
    let mut db = Database::in_memory().unwrap();
    assert_eq!(db.update_note(9, "x", None, &[]).unwrap_err(), DbError::NotFound(9));
    let big = "x".repeat(MAX_NOTE_SIZE + 1);
    assert_eq!(db.update_note(9, &big, None, &[]).unwrap_err(), DbError::TooLarge(MAX_NOTE_SIZE + 1));
}

#[test]
fn listing_is_newest_update_first() {
    let mut db = Database::in_memory().unwrap();
    let a = db.create_note("a", None, "m", &[]).unwrap();
    wait_a_moment();
    let b = db.create_note("b", None, "m", &[]).unwrap();
    let ids: Vec<i64> = db.list_notes().unwrap().iter().map(|n| n.id).collect();
    assert_eq!(ids, vec![b, a]);
    wait_a_moment();
    db.update_note(a, "a2", None, &[]).unwrap();
    let listed = db.list_notes().unwrap();
    let ids: Vec<i64> = listed.iter().map(|n| n.id).collect();
    assert_eq!(ids, vec![a, b]);
    assert!(listed[0].updated >= listed[1].updated);
}

#[test]
fn tag_search_lists_a_note_once() {
    let mut db = Database::in_memory().unwrap();
    let id = db.create_note("both", None, "m", &tags(&["work/p1", "work/p2"])).unwrap();
    db.create_note("other", None, "m", &tags(&["home"])).unwrap();
    let found = db.find_by_tag("work").unwrap();
    assert_eq!(found.len(), 1);
    assert_eq!(found[0].id, id);
}

#[test]
fn tag_search_takes_the_tag_and_its_sub_tags_only() {
    let mut db = Database::in_memory().unwrap();
    db.create_note("w", None, "m", &tags(&["work"])).unwrap();
    wait_a_moment();
    db.create_note("shop", None, "m", &tags(&["workshop"])).unwrap();
    wait_a_moment();
    db.create_note("deep", None, "m", &tags(&["work/a/b"])).unwrap();
    let found: Vec<String> = db.find_by_tag("WORK").unwrap().into_iter().map(|n| n.body).collect();
    assert_eq!(found, vec!["deep".to_string(), "w".to_string()]);
    assert_eq!(db.find_by_tag("work/a").unwrap().len(), 1);
    assert_eq!(db.find_by_tag("w_rk").unwrap().len(), 0);
    assert_eq!(db.find_by_tag("%rk").unwrap().len(), 0);
    assert_eq!(db.find_by_tag("wor").unwrap().len(), 0);
    assert_eq!(db.find_by_tag("worker").unwrap().len(), 0);
    assert_eq!(db.find_by_tag("").unwrap().len(), 0);
    assert_eq!(db.find_by_tag(&"a".repeat(60000)).unwrap().len(), 0);
}

#[test]
fn search_matches_words_and_word_prefixes() {
    let mut db = Database::in_memory().unwrap();
    let a = db.create_note("Apple pie recipe", None, "m", &[]).unwrap();
    let b = db.create_note("Banana bread", Some("Baking apples"), "m", &[]).unwrap();
    let found: Vec<i64> = db.search_notes("app").unwrap().iter().map(|n| n.id).collect();
    assert_eq!(found.len(), 2);
    assert!(found.contains(&a) && found.contains(&b));
    let found = db.search_notes("pie recipe").unwrap();
    assert_eq!(found.len(), 1);
    assert_eq!(found[0].id, a);
    assert!(db.search_notes("recipe pie").unwrap().is_empty());
    assert!(db.search_notes("cherry").unwrap().is_empty());
}

#[test]
fn search_follows_updates_and_deletes() {
    let mut db = Database::in_memory().unwrap();
    let a = db.create_note("old words", None, "m", &[]).unwrap();
    db.update_note(a, "fresh words", None, &[]).unwrap();
    assert!(db.search_notes("old").unwrap().is_empty());
    assert_eq!(db.search_notes("fresh").unwrap().len(), 1);
    db.delete_note(a).unwrap();
    assert!(db.search_notes("fresh").unwrap().is_empty());
}

#[test]
fn search_with_quotes_is_one_phrase() {
    let mut db = Database::in_memory().unwrap();
    db.create_note("say \"hello\" world", None, "m", &[]).unwrap();
    assert_eq!(db.search_notes("\"hello\"").unwrap().len(), 1);
}

#[test]
fn restoring_checks_the_saved_rows() {
    assert_eq!(Database::restored(&tags(&["a", "a"]), 1).err(), Some(DbError::Corrupt));
    assert_eq!(Database::restored(&tags(&["a"]), 0).err(), Some(DbError::Corrupt));
    let mut db = Database::restored(&tags(&["work", "home"]), 10).unwrap();
    let note = Note {
        id: 4,
        title: Some("T".to_string()),
        body: "b".to_string(),
        source: "s".to_string(),
        created: 5,
        updated: 7,
        tags: tags(&["home", "missing", "work"]),
    };
    db.restore_note(&note).unwrap();
    let n = db.get_note(4).unwrap();
    assert_eq!(n.tags, tags(&["work", "home"]));
    assert_eq!((n.created, n.updated), (5, 7));
    assert_eq!(db.restore_note(&note).unwrap_err(), DbError::Corrupt);
    let late = Note { id: 10, ..note.clone() };
    assert_eq!(db.restore_note(&late).unwrap_err(), DbError::Corrupt);
    let id = db.create_note("new", None, "m", &[]).unwrap();
    assert_eq!(id, 10);
    assert_eq!(db.search_notes("b").unwrap().len(), 1);
}

#[test]
fn restored_notes_are_listed_newest_first() {
    let mut db = Database::restored(&vec![], 5).unwrap();
    for (id, updated) in [(1, 30), (2, 10), (3, 20)] {
        let n = Note {
            id,
            title: None,
            body: format!("n{}", id),
            source: "m".to_string(),
            created: 0,
            updated,
            tags: vec![],
        };
        db.restore_note(&n).unwrap();
    }
    let ids: Vec<i64> = db.list_notes().unwrap().iter().map(|n| n.id).collect();
    assert_eq!(ids, vec![1, 3, 2]);
}

#[test]
fn error_messages() {
    assert_eq!(DbError::IdsExhausted.message(), "database or disk is full");
    assert_eq!(DbError::Index("boom".to_string()).message(), "boom");
    assert_eq!(DbError::Corrupt.message(), "the saved notes break the store's rules");
}

#[test]
fn create_and_update_leave_other_notes() {
    let mut db = Database::in_memory().unwrap();
    let a = db.create_note("first", Some("A"), "m", &tags(&["x"])).unwrap();
    let before = db.get_note(a).unwrap();
    let b = db.create_note("second", None, "m", &tags(&["y"])).unwrap();
    db.update_note(b, "second, edited", Some("B"), &tags(&["x", "z"])).unwrap();
    let after = db.get_note(a).unwrap();
    assert_eq!(after.body, before.body);
    assert_eq!(after.title, before.title);
    assert_eq!(after.tags, before.tags);
    assert_eq!((after.created, after.updated), (before.created, before.updated));
    assert_eq!(db.get_note(b).unwrap().tags, tags(&["x", "z"]));
}

#[test]
fn restoring_a_store_in_any_order_gives_it_back() {
    let mut db = Database::in_memory().unwrap();
    db.create_note("one", Some("t"), "cli", &tags(&["b", "a"])).unwrap();
    wait_a_moment();
    db.create_note("two", None, "tui", &tags(&["a"])).unwrap();
    wait_a_moment();
    db.create_note("three", None, "cli", &[]).unwrap();
    db.delete_note(2).unwrap();
    let saved = db.list_notes().unwrap();
    let mut back = Database::restored(&db.tags_in_creation_order(), db.next_id()).unwrap();
    for n in saved.iter().rev() {
        back.restore_note(n).unwrap();
    }
    let again = back.list_notes().unwrap();
    assert_eq!(again.len(), saved.len());
    for (x, y) in again.iter().zip(saved.iter()) {
        assert_eq!((x.id, &x.body, &x.title, &x.source, x.created, x.updated, &x.tags),
                   (y.id, &y.body, &y.title, &y.source, y.created, y.updated, &y.tags));
    }
    assert_eq!(back.next_id(), 4);
    assert_eq!(back.list_all_tags().unwrap(), db.list_all_tags().unwrap());
}

#[test]
fn naming_a_tag_twice_counts_once() {
    let mut db = Database::in_memory().unwrap();
    let id = db.create_note("x", None, "m", &tags(&["a", "b", "a", "b"])).unwrap();
    assert_eq!(db.get_note(id).unwrap().tags, tags(&["a", "b"]));
    db.update_note(id, "y", None, &tags(&["c", "c"])).unwrap();
    assert_eq!(db.get_note(id).unwrap().tags, tags(&["c"]));
    assert_eq!(db.tags_in_creation_order(), tags(&["a", "b", "c"]));
}

#[test]
fn tag_search_is_the_same_for_any_ascii_case() {
    let mut db = Database::in_memory().unwrap();
    db.create_note("w", None, "m", &tags(&["Work/Alpha"])).unwrap();
    let lower = db.find_by_tag("work").unwrap();
    let upper = db.find_by_tag("WORK").unwrap();
    assert_eq!(db.find_by_tag("Work/ALPHA").unwrap().len(), 1);
    assert_eq!(lower.len(), 1);
    assert_eq!(upper.len(), 1);
    assert_eq!(lower[0].id, upper[0].id);
}

#[test]
fn a_search_with_a_nul_is_refused_and_others_succeed() {
    let mut db = Database::in_memory().unwrap();
    db.create_note("hello world", None, "m", &[]).unwrap();
    assert!(db.search_notes("a\0b").is_err());
    assert_eq!(db.search_notes("\"").unwrap().len(), 0);
    assert_eq!(db.search_notes("!!!").unwrap().len(), 0);
    assert_eq!(db.search_notes("wor").unwrap().len(), 1);
}
