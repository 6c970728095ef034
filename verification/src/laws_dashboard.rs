//! What holds of the dashboard's keys, refreshes and editor results.
use vstd::prelude::*;
use crate::dashboard::{Action, AppView, KeyInput, Pane};
use crate::fts::{fts_accepts, fts_query_spec};
use crate::laws::{
    law_create_keeps_others, law_delete_keeps_others, law_get_after_create, law_get_after_delete,
    law_get_after_update, law_update_keeps_others,
};
use crate::fts::row_fits;
use crate::model::{add_names, has_id, lemma_select_contains, norm_tags, DbError, NoteView};
use crate::text::{decimal, trimmed};

verus! {

/// Outside search typing and the delete question, `j` does what Down does
/// and `k` what Up does.
pub proof fn law_vim_keys(a: AppView, b: AppView, r: Action)
    requires
        !a.editing_search,
        !a.confirming,
    ensures
        a.key_outcome(KeyInput::Char('j'), b, r) <==> a.key_outcome(KeyInput::Down, b, r),
        a.key_outcome(KeyInput::Char('k'), b, r) <==> a.key_outcome(KeyInput::Up, b, r),
{
}

/// In the notes pane Down selects the next note, from the last back to the
/// first, and Up the note before, from the first round to the last; the
/// shown notes and the store stay.
pub proof fn law_down_up_in_notes(a: AppView, b: AppView, r: Action, i: usize)
    requires
        a.wf(),
        !a.editing_search,
        !a.confirming,
        a.pane == Pane::Notes,
        a.selected == Some(i),
    ensures
        a.key_outcome(KeyInput::Down, b, r) ==> {
            &&& r is Continue
            &&& b.notes == a.notes
            &&& b.store == a.store
            &&& b.selected == (if i + 1 < a.notes.len() { Some((i + 1) as usize) } else { Some(0usize) })
        },
        a.key_outcome(KeyInput::Up, b, r) ==> {
            &&& r is Continue
            &&& b.notes == a.notes
            &&& b.store == a.store
            &&& b.selected == (if i > 0 { Some((i - 1) as usize) } else { Some((a.notes.len() - 1) as usize) })
        },
{
}

/// In the content pane Down and Up change nothing.
pub proof fn law_down_up_in_content(a: AppView, b: AppView, r: Action)
    requires
        !a.editing_search,
        !a.confirming,
        a.pane == Pane::Content,
    ensures
        a.key_outcome(KeyInput::Down, b, r) ==> r is Continue && b == a,
        a.key_outcome(KeyInput::Up, b, r) ==> r is Continue && b == a,
{
}

/// In the tags pane with no search, Up selects the tag entry before (from
/// the first round to the last) and shows its notes: every note for `All`,
/// else the notes under that tag.
pub proof fn law_up_in_tags(a: AppView, b: AppView, r: Action, i: usize)
    requires
        a.wf(),
        !a.editing_search,
        !a.confirming,
        a.pane == Pane::Tags,
        a.tag_selected == Some(i),
        a.search_query.len() == 0,
        a.key_outcome(KeyInput::Up, b, r),
    ensures
        r is Continue,
        b.store == a.store,
        b.tag_selected == (if i > 0 { Some((i - 1) as usize) } else { Some((a.tags.len() - 1) as usize) }),
        ({
            let t = a.tags[b.tag_selected->Some_0 as int];
            b.notes == (if t == "All"@ { a.store.notes } else { a.store.find_by_tag(t) })
        }),
{
}

/// In the tags pane with no search, Down selects the next tag entry (from
/// the last back to the first) and shows its notes: every note for `All`,
/// else the notes under that tag.
pub proof fn law_down_in_tags(a: AppView, b: AppView, r: Action, i: usize)
    requires
        a.wf(),
        !a.editing_search,
        !a.confirming,
        a.pane == Pane::Tags,
        a.tag_selected == Some(i),
        a.search_query.len() == 0,
        a.key_outcome(KeyInput::Down, b, r),
    ensures
        r is Continue,
        b.store == a.store,
        b.tag_selected == (if i + 1 < a.tags.len() { Some((i + 1) as usize) } else { Some(0usize) }),
        ({
            let t = a.tags[b.tag_selected->Some_0 as int];
            b.notes == (if t == "All"@ { a.store.notes } else { a.store.find_by_tag(t) })
        }),
{
}

/// What the other keys do outside search typing and the delete question:
/// `q` and Esc leave, `/` and `s` start typing the query, Tab goes to the
/// next pane, `n` asks for a new note, `y` and `e` hand over the selected
/// note, and `d` in the notes pane asks about deleting it.
pub proof fn law_command_keys(a: AppView, b: AppView, r: Action)
    requires
        !a.editing_search,
        !a.confirming,
    ensures
        a.key_outcome(KeyInput::Char('q'), b, r) ==> r is Quit && b == a,
        a.key_outcome(KeyInput::Esc, b, r) ==> r is Quit && b == a,
        a.key_outcome(KeyInput::Char('/'), b, r) ==> r is Continue && b == (AppView { editing_search: true, ..a }),
        a.key_outcome(KeyInput::Char('s'), b, r) ==> r is Continue && b == (AppView { editing_search: true, ..a }),
        a.key_outcome(KeyInput::Tab, b, r) ==> r is Continue && b == (AppView {
            pane: match a.pane {
                Pane::Tags => Pane::Notes,
                Pane::Notes => Pane::Content,
                Pane::Content => Pane::Tags,
            },
            ..a
        }),
        a.key_outcome(KeyInput::Char('n'), b, r) ==> r is CreateNew && b == a,
        a.key_outcome(KeyInput::Char('y'), b, r) ==> b == a && match a.selected {
            Some(i) => r matches Action::Copy(m) && m@ == a.notes[i as int],
            None => r is Continue,
        },
        a.key_outcome(KeyInput::Char('e'), b, r) ==> b == a && match a.selected {
            Some(i) => r matches Action::Edit(m) && m@ == a.notes[i as int],
            None => r is Continue,
        },
        a.key_outcome(KeyInput::Char('d'), b, r) ==> r is Continue && match a.selected {
            Some(i) => if a.pane == Pane::Notes {
                b == (AppView {
                    confirming: true,
                    status: "Delete note #"@ + decimal(a.notes[i as int].id as int) + "? (y/N)"@,
                    ..a
                })
            } else {
                b == a
            },
            None => b == a,
        },
{
}

/// While the query is typed, a character is added to it and Backspace
/// takes the last one off, the notes being fetched again; Enter and Esc
/// stop typing and change nothing else.
pub proof fn law_search_typing(a: AppView, b: AppView, r: Action, c: char)
    requires
        a.editing_search,
        !a.confirming,
    ensures
        a.key_outcome(KeyInput::Char(c), b, r) ==> {
            &&& r is Continue
            &&& b.search_query == a.search_query.push(c)
            &&& b.editing_search
            &&& b.store == a.store
        },
        a.key_outcome(KeyInput::Backspace, b, r) ==> {
            &&& r is Continue
            &&& b.search_query == (if a.search_query.len() > 0 { a.search_query.drop_last() } else { a.search_query })
            &&& b.editing_search
        },
        a.key_outcome(KeyInput::Enter, b, r) ==> r is Continue && b == (AppView { editing_search: false, ..a }),
        a.key_outcome(KeyInput::Esc, b, r) ==> r is Continue && b == (AppView { editing_search: false, ..a }),
{
}

/// Fetching the notes again: a query the index reads shows the search
/// result and says how many notes it found (also when none); one it
/// refuses shows nothing and says fetching failed; with no query, the
/// `All` entry shows every note and another tag its notes, the status
/// kept. The selection stays if it still points at a note, moves to the
/// last note if it is past it, and is the first note if there was none.
pub proof fn law_refresh(a: AppView, b: AppView)
    requires
        a.refreshed(b),
    ensures
        b.store == a.store,
        b.search_query == a.search_query,
        b.tags == a.tags,
        b.tag_selected == a.tag_selected,
        b.pane == a.pane,
        b.editing_search == a.editing_search,
        b.confirming == a.confirming,
        a.search_query.len() > 0 && fts_accepts(fts_query_spec(a.search_query)) ==> {
            &&& b.notes == a.store.search(a.search_query)
            &&& b.status == "Found "@ + decimal(b.notes.len() as int) + " results"@
        },
        a.search_query.len() > 0 && !fts_accepts(fts_query_spec(a.search_query)) ==> {
            &&& b.notes.len() == 0
            &&& b.selected is None
            &&& b.status == "\u{274c} Error fetching notes"@
        },
        a.search_query.len() == 0 && a.tag_selected is Some ==> {
            let t = a.tags[a.tag_selected->Some_0 as int];
            &&& b.notes == (if t == "All"@ { a.store.notes } else { a.store.find_by_tag(t) })
            &&& b.status == a.status
        },
        b.notes.len() == 0 ==> b.selected is None,
        b.notes.len() > 0 ==> b.selected == Some(match a.selected {
            Some(i) => if i < b.notes.len() { i } else { (b.notes.len() - 1) as usize },
            None => 0usize,
        }),
{
}

/// Answering the delete question: `y` or `Y` deletes the selected note
/// from the store (its id then reads nothing) and says so when no search
/// is shown; any other key keeps the store and the shown notes and says
/// the deletion was cancelled.
pub proof fn law_delete_answer(a: AppView, b: AppView, r: Action, key: KeyInput, i: usize)
    requires
        a.wf(),
        a.confirming,
        a.pane == Pane::Notes,
        a.selected == Some(i),
        a.key_outcome(key, b, r),
    ensures
        !b.confirming,
        r is Continue,
        key == KeyInput::Char('y') || key == KeyInput::Char('Y') ==> {
            let id = a.notes[i as int].id;
            &&& a.store.get(id) is Ok
            &&& b.store.get(id) == Err::<NoteView, DbError>(DbError::NotFound(id))
            &&& b.store.notes.len() == a.store.notes.len() - 1
            &&& forall|o: i64| o != id ==> #[trigger] b.store.get(o) == a.store.get(o)
            &&& a.search_query.len() == 0 ==> b.status == "Deleted note #"@ + decimal(id as int)
        },
        key != KeyInput::Char('y') && key != KeyInput::Char('Y') ==> {
            &&& b.store == a.store
            &&& b.notes == a.notes
            &&& b.status == "Deletion cancelled"@
        },
{
    let id = a.notes[i as int].id;
    assert(a.store.get(id) == Ok::<NoteView, DbError>(a.notes[i as int]));
    assert(has_id(a.store.notes, id));
    if key == KeyInput::Char('y') || key == KeyInput::Char('Y') {
        let c = AppView { confirming: false, ..a };
        let res = choose|res: Result<(), DbError>| #[trigger] c.delete_outcome(b, res) && match res {
            Ok(()) => r is Continue,
            Err(e) => r == Action::Failed(e),
        };
        assert(c.current() == Some(a.notes[i as int]));
        assert(a.store.delete(id) is Ok);
        law_get_after_delete(a.store, id);
        assert forall|o: i64| o != id implies #[trigger] b.store.get(o) == a.store.get(o) by {
            law_delete_keeps_others(a.store, id, o);
        }
    }
}

/// The note the dashboard makes of what the user wrote: nothing for text
/// that is blank once trimmed; else, once made, a note under the store's
/// next id whose body is the text trimmed, with no title, no tags, the
/// source `tui` and the time it was made, every other note kept. It is
/// made whenever the store takes the trimmed text.
pub proof fn law_new_note_from_editor(a: AppView, content: Seq<char>, now: i64, b: AppView, r: Result<(), DbError>)
    requires
        a.wf(),
        a.new_note_outcome_at(content, now, b, r),
    ensures
        trimmed(content).len() == 0 ==> r is Ok && b == a,
        trimmed(content).len() > 0 && a.store.create_error(trimmed(content)) is None && row_fits(trimmed(content), None) ==> r is Ok,
        trimmed(content).len() > 0 && r is Ok ==> {
            let id = a.store.next_id;
            &&& b.store.get(id) is Ok
            &&& b.store.get(id)->Ok_0.body == trimmed(content)
            &&& b.store.get(id)->Ok_0.title is None
            &&& b.store.get(id)->Ok_0.source == "tui"@
            &&& b.store.get(id)->Ok_0.created == now
            &&& b.store.get(id)->Ok_0.updated == now
            &&& b.store.get(id)->Ok_0.tags.len() == 0
            &&& b.store.next_id == id + 1
            &&& forall|o: i64| o != id ==> #[trigger] b.store.get(o) == a.store.get(o)
            &&& a.search_query.len() == 0 ==> b.status == "Created note #"@ + decimal(id as int)
        },
{
    let body = trimmed(content);
    if body.len() > 0 && r is Ok {
        law_get_after_create(a.store, body, None, "tui"@, Seq::empty(), now);
        assert forall|o: i64| o != a.store.next_id implies #[trigger] b.store.get(o) == a.store.get(o) by {
            law_create_keeps_others(a.store, body, None, "tui"@, Seq::empty(), now, o);
        }
        let n = a.store.new_note(body, None, "tui"@, Seq::empty(), now);
        let t2 = add_names(a.store.tags, norm_tags(Seq::<Seq<char>>::empty()));
        lemma_select_contains(t2, norm_tags(Seq::<Seq<char>>::empty()).to_set());
        if n.tags.len() > 0 {
            assert(n.tags.contains(n.tags[0]));
            assert(norm_tags(Seq::<Seq<char>>::empty()).to_set().contains(n.tags[0]));
        }
    }
}

/// What the dashboard makes of an edit of `note`: nothing when the trimmed
/// text is the body already; else, once saved, the note reads back with
/// the trimmed text as its body, its title, the time of the edit, every
/// other note kept. It is saved whenever the store takes the trimmed text.
pub proof fn law_edit_from_editor(
    a: AppView,
    note: NoteView,
    edited: Seq<char>,
    now: i64,
    b: AppView,
    r: Result<(), DbError>,
)
    requires
        a.wf(),
        a.edit_outcome_at(note, edited, now, b, r),
    ensures
        trimmed(edited) == note.body ==> r is Ok && b == a,
        trimmed(edited) != note.body && a.store.update_error(note.id, trimmed(edited)) is None && row_fits(trimmed(edited), note.title) ==> r is Ok,
        trimmed(edited) != note.body && r is Ok ==> {
            &&& b.store.get(note.id) is Ok
            &&& b.store.get(note.id)->Ok_0.body == trimmed(edited)
            &&& b.store.get(note.id)->Ok_0.title == note.title
            &&& b.store.get(note.id)->Ok_0.updated == now
            &&& b.store.get(note.id)->Ok_0.created == a.store.get(note.id)->Ok_0.created
            &&& b.store.get(note.id)->Ok_0.source == a.store.get(note.id)->Ok_0.source
            &&& forall|o: i64| o != note.id ==> #[trigger] b.store.get(o) == a.store.get(o)
            &&& a.search_query.len() == 0 ==> b.status == "Updated note #"@ + decimal(note.id as int)
        },
{
    let body = trimmed(edited);
    if body != note.body && r is Ok {
        law_get_after_update(a.store, note.id, body, note.title, note.tags, now);
        assert forall|o: i64| o != note.id implies #[trigger] b.store.get(o) == a.store.get(o) by {
            law_update_keeps_others(a.store, note.id, body, note.title, note.tags, now, o);
        }
    }
}

} // verus!
