//! The state of the interactive dashboard and its decisions: which notes it
//! shows, which one is selected, and what each key asks for.
use vstd::prelude::*;
use crate::model::{lemma_get_member, lemma_matching_within, lemma_under_tag, DbError, NoteView, StoreView};
use crate::fts::{fts_accepts, fts_query_spec, opt_str_view, row_fits};
use crate::store::{notes_view, now_micros, Database, Note};
use crate::text::{lowercase, copy_text, i64_text, push_str, text_eq, texts_view, trim, usize_text, decimal, trimmed};

verus! {

/// The dashboard's three panes.
#[derive(Debug, Clone, Copy, PartialEq, Eq, Structural)]
pub enum Pane {
    Tags,
    Notes,
    Content,
}

/// A key press, as the dashboard tells keys apart.
#[derive(Debug, Clone, Copy, PartialEq, Eq, Structural)]
pub enum KeyInput {
    Char(char),
    Enter,
    Esc,
    Tab,
    Up,
    Down,
    Backspace,
    Other,
}

/// What the dashboard asks of its caller after a key.
#[derive(Debug)]
pub enum Action {
    /// Nothing more; draw again.
    Continue,
    /// Leave the dashboard.
    Quit,
    /// Put this note's body on the clipboard, then call `copy_current` with
    /// how that went.
    Copy(Note),
    /// Let the user edit this note's body, then call `edit_current`.
    Edit(Note),
    /// Let the user write a new note, then call `create_new`.
    CreateNew,
    /// Leave the dashboard with this error.
    Failed(DbError),
}

/// The dashboard as the model sees it.
pub struct AppView {
    pub store: StoreView,
    pub notes: Seq<NoteView>,
    pub tags: Seq<Seq<char>>,
    pub selected: Option<usize>,
    pub tag_selected: Option<usize>,
    pub search_query: Seq<char>,
    pub status: Seq<char>,
    pub editing_search: bool,
    pub pane: Pane,
    /// Whether the dashboard waits for the answer to "delete this note?".
    pub confirming: bool,
}

/// The tag entry that stands for every note.
pub open spec fn all_label() -> Seq<char> {
    "All"@
}

/// The status after a search finds `n` notes.
pub open spec fn found_message(n: int) -> Seq<char> {
    "Found "@ + decimal(n) + " results"@
}

/// The status after fetching notes failed.
pub open spec fn fetch_error_message() -> Seq<char> {
    "\u{274c} Error fetching notes"@
}

/// The status after a note is deleted.
pub open spec fn deleted_message(id: i64) -> Seq<char> {
    "Deleted note #"@ + decimal(id as int)
}

/// The status while the dashboard asks whether to delete a note.
pub open spec fn confirm_message(id: i64) -> Seq<char> {
    "Delete note #"@ + decimal(id as int) + "? (y/N)"@
}

/// The status after the user declined to delete a note.
pub open spec fn cancelled_message() -> Seq<char> {
    "Deletion cancelled"@
}

/// The status after a note is copied.
pub open spec fn copied_message(id: i64) -> Seq<char> {
    "Copied note #"@ + decimal(id as int) + " to clipboard"@
}

/// The status after a note is edited.
pub open spec fn updated_message(id: i64) -> Seq<char> {
    "Updated note #"@ + decimal(id as int)
}

/// The status after a note is created.
pub open spec fn created_message(id: i64) -> Seq<char> {
    "Created note #"@ + decimal(id as int)
}

/// The selection after the list changes to `len` notes: the old one, or
/// the first, moved back to the last note when it is past it.
pub open spec fn clamp_selection(sel: Option<usize>, len: nat) -> Option<usize> {
    if len == 0 {
        None
    } else {
        let i = match sel {
            Some(i) => i,
            None => 0,
        };
        Some(if i < len { i } else { (len - 1) as usize })
    }
}

/// The entry after the selected one, wrapping from the last to the first.
pub open spec fn next_selection(sel: Option<usize>, len: nat) -> Option<usize> {
    match sel {
        Some(i) => if i >= len - 1 { Some(0) } else { Some((i + 1) as usize) },
        None => Some(0),
    }
}

/// The entry before the selected one, wrapping from the first to the last.
pub open spec fn previous_selection(sel: Option<usize>, len: nat) -> Option<usize> {
    match sel {
        Some(i) => if i == 0 { Some((len - 1) as usize) } else { Some((i - 1) as usize) },
        None => Some(0),
    }
}

/// The pane after `p` in the cycle tags, notes, content.
pub open spec fn next_pane(p: Pane) -> Pane {
    match p {
        Pane::Tags => Pane::Notes,
        Pane::Notes => Pane::Content,
        Pane::Content => Pane::Tags,
    }
}

impl AppView {
    /// The dashboard's rules: a selection exactly when there are notes, and
    /// within them; a selected tag within the tags.
    pub open spec fn wf(self) -> bool {
        &&& self.ready()
        &&& self.shows_store_notes()
    }

    /// The dashboard's rules but the last: what holds while the store has
    /// just changed and the shown notes are not fetched again yet.
    pub open spec fn ready(self) -> bool {
        &&& self.store.wf()
        &&& (self.selected is None <==> self.notes.len() == 0)
        &&& (self.selected matches Some(i) ==> i < self.notes.len())
        &&& self.tag_selected matches Some(i) && i < self.tags.len()
        &&& self.notes.len() <= usize::MAX
    }

    /// Every shown note is a note of the store, as its id reads it back.
    pub open spec fn shows_store_notes(self) -> bool {
        forall|k: int| 0 <= k < self.notes.len() ==> self.store.get(#[trigger] self.notes[k].id) == Ok::<NoteView, DbError>(self.notes[k])
    }

    /// The notes the dashboard asks the store for, `None` when the store
    /// refuses: a search while the query is not empty (refused when the
    /// index cannot read the quoted query), else the notes of the selected
    /// tag, or all of them for the `All` entry.
    pub open spec fn requested(self) -> Option<Seq<NoteView>> {
        if self.search_query.len() > 0 {
            if fts_accepts(fts_query_spec(self.search_query)) {
                Some(self.store.search(self.search_query))
            } else {
                None
            }
        } else {
            match self.tag_selected {
                Some(i) => if self.tags[i as int] == all_label() {
                    Some(self.store.notes)
                } else {
                    Some(self.store.find_by_tag(self.tags[i as int]))
                },
                None => Some(self.store.notes),
            }
        }
    }

    /// The dashboard showing `ns`.
    pub open spec fn showing(self, ns: Seq<NoteView>) -> AppView {
        AppView {
            notes: ns,
            status: if self.search_query.len() > 0 { found_message(ns.len() as int) } else { self.status },
            selected: clamp_selection(self.selected, ns.len()),
            ..self
        }
    }

    /// The dashboard after fetching notes failed: no notes, and the error
    /// status.
    pub open spec fn cleared(self) -> AppView {
        AppView { notes: Seq::empty(), status: fetch_error_message(), selected: None, ..self }
    }

    /// The dashboard after moving the selection down: in the notes pane the
    /// next note (wrapping), in the tags pane the next tag (wrapping) and
    /// its notes fetched; nothing in the content pane or with no entries.
    pub open spec fn moved_down(self, after: AppView) -> bool {
        match self.pane {
            Pane::Notes => if self.notes.len() == 0 {
                after == self
            } else {
                after == (AppView { selected: next_selection(self.selected, self.notes.len()), ..self })
            },
            Pane::Tags => (AppView { tag_selected: next_selection(self.tag_selected, self.tags.len()), ..self }).refreshed(after),
            Pane::Content => after == self,
        }
    }

    /// The dashboard after moving the selection up, as `moved_down` but
    /// toward the first entry, wrapping to the last.
    pub open spec fn moved_up(self, after: AppView) -> bool {
        match self.pane {
            Pane::Notes => if self.notes.len() == 0 {
                after == self
            } else {
                after == (AppView { selected: previous_selection(self.selected, self.notes.len()), ..self })
            },
            Pane::Tags => (AppView { tag_selected: previous_selection(self.tag_selected, self.tags.len()), ..self }).refreshed(after),
            Pane::Content => after == self,
        }
    }

    /// The selected note, if there is one.
    pub open spec fn current(self) -> Option<NoteView> {
        match self.selected {
            Some(i) => Some(self.notes[i as int]),
            None => None,
        }
    }

    /// The dashboard after deleting the selected note, with result `r`:
    /// only in the notes pane and with a note selected; on success the
    /// status says so and the notes are fetched again.
    pub open spec fn delete_outcome(self, after: AppView, r: Result<(), DbError>) -> bool {
        if self.pane != Pane::Notes || self.selected is None {
            r is Ok && after == self
        } else {
            let id = self.current()->Some_0.id;
            match self.store.delete(id) {
                Ok(s2) => r is Ok && (AppView { store: s2, status: deleted_message(id), ..self }).refreshed(after),
                Err(e) => r == Err::<(), DbError>(e) && after == self,
            }
        }
    }

    /// The dashboard after the user edited `note`'s body into `edited`, at
    /// some time.
    pub open spec fn edit_outcome(self, note: NoteView, edited: Seq<char>, after: AppView, r: Result<(), DbError>) -> bool {
        exists|t: i64| #[trigger] self.edit_outcome_at(note, edited, t, after, r)
    }

    /// The dashboard after the user edited `note`'s body into `edited` at
    /// time `now`, with result `r`: the trimmed text replaces the body when
    /// it differs, the status says so and the notes are fetched again.
    pub open spec fn edit_outcome_at(
        self,
        note: NoteView,
        edited: Seq<char>,
        now: i64,
        after: AppView,
        r: Result<(), DbError>,
    ) -> bool {
        let body = trimmed(edited);
        if body == note.body {
            r is Ok && after == self
        } else {
            match r {
                Ok(()) => {
                    &&& self.store.update_error(note.id, body) is None
                    &&& (AppView {
                        store: self.store.update(note.id, body, note.title, note.tags, now),
                        status: updated_message(note.id),
                        ..self
                    }).refreshed(after)
                },
                Err(DbError::Index(_)) => {
                    &&& self.store.update_error(note.id, body) is None
                    &&& !row_fits(body, note.title)
                    &&& after == self
                },
                Err(e) => self.store.update_error(note.id, body) == Some(e) && after == self,
            }
        }
    }

    /// The dashboard after the user wrote `content` for a new note, at some
    /// time.
    pub open spec fn new_note_outcome(self, content: Seq<char>, after: AppView, r: Result<(), DbError>) -> bool {
        exists|t: i64| #[trigger] self.new_note_outcome_at(content, t, after, r)
    }

    /// The dashboard after the user wrote `content` for a new note at time
    /// `now`, with result `r`: unless it is empty once trimmed, it becomes a
    /// note from the dashboard without title or tags, the status says so and
    /// the notes are fetched again.
    pub open spec fn new_note_outcome_at(self, content: Seq<char>, now: i64, after: AppView, r: Result<(), DbError>) -> bool {
        let body = trimmed(content);
        if body.len() == 0 {
            r is Ok && after == self
        } else {
            match r {
                Ok(()) => {
                    &&& self.store.create_error(body) is None
                    &&& ({
                        let (s2, id) = self.store.create(body, None, "tui"@, Seq::empty(), now);
                        (AppView { store: s2, status: created_message(id), ..self }).refreshed(after)
                    })
                },
                Err(DbError::Index(_)) => {
                    &&& self.store.create_error(body) is None
                    &&& !row_fits(body, None)
                    &&& after == self
                },
                Err(e) => self.store.create_error(body) == Some(e) && after == self,
            }
        }
    }

    /// What a key does. While a deletion waits for its answer: `y` or `Y`
    /// delete the selected note, any other key declines. While the search
    /// query is being typed: Enter or Esc stop typing, a character is added
    /// to the query and Backspace removes the last one, each refetching the
    /// notes. Otherwise: `q` or Esc quit, `s` or `/` start typing the query,
    /// Tab switches pane, Down or `j` and Up or `k` move the selection, `y`
    /// and `e` ask to copy or edit the selected note, `d` asks whether to
    /// delete it (in the notes pane), `n` asks for a new note.
    pub open spec fn key_outcome(self, key: KeyInput, after: AppView, r: Action) -> bool {
        if self.confirming {
            match key {
                KeyInput::Char('y') | KeyInput::Char('Y') => exists|res: Result<(), DbError>| #[trigger] (AppView {
                    confirming: false,
                    ..self
                }).delete_outcome(after, res) && match res {
                    Ok(()) => r is Continue,
                    Err(e) => r == Action::Failed(e),
                },
                _ => r is Continue && after == (AppView { confirming: false, status: cancelled_message(), ..self }),
            }
        } else if self.editing_search {
            &&& r is Continue
            &&& match key {
                KeyInput::Enter | KeyInput::Esc => after == (AppView { editing_search: false, ..self }),
                KeyInput::Char(c) => (AppView { search_query: self.search_query.push(c), ..self }).refreshed(after),
                KeyInput::Backspace => (AppView {
                    search_query: if self.search_query.len() > 0 { self.search_query.drop_last() } else { self.search_query },
                    ..self
                }).refreshed(after),
                _ => after == self,
            }
        } else {
            match key {
                KeyInput::Char('q') | KeyInput::Esc => r is Quit && after == self,
                KeyInput::Char('s') | KeyInput::Char('/') => r is Continue && after == (AppView { editing_search: true, ..self }),
                KeyInput::Tab => r is Continue && after == (AppView { pane: next_pane(self.pane), ..self }),
                KeyInput::Down | KeyInput::Char('j') => r is Continue && self.moved_down(after),
                KeyInput::Up | KeyInput::Char('k') => r is Continue && self.moved_up(after),
                KeyInput::Char('y') => after == self && match self.current() {
                    Some(n) => r matches Action::Copy(m) && m@ == n,
                    None => r is Continue,
                },
                KeyInput::Char('e') => after == self && match self.current() {
                    Some(n) => r matches Action::Edit(m) && m@ == n,
                    None => r is Continue,
                },
                KeyInput::Char('d') => r is Continue && match self.current() {
                    Some(n) => if self.pane == Pane::Notes {
                        after == (AppView { confirming: true, status: confirm_message(n.id), ..self })
                    } else {
                        after == self
                    },
                    None => after == self,
                },
                KeyInput::Char('n') => r is CreateNew && after == self,
                _ => r is Continue && after == self,
            }
        }
    }

    /// The dashboard after fetching the notes it asks for: showing them, or
    /// cleared when the store refuses.
    pub open spec fn refreshed(self, after: AppView) -> bool {
        match self.requested() {
            Some(ns) => after == self.showing(ns),
            None => after == self.cleared(),
        }
    }
}

/// The dashboard.
pub struct App {
    db: Database,
    notes: Vec<Note>,
    tags: Vec<String>,
    selected: Option<usize>,
    tag_selected: Option<usize>,
    search_query: String,
    status_msg: String,
    editing_search: bool,
    active_pane: Pane,
    confirming_delete: bool,
}

impl View for App {
    type V = AppView;

    closed spec fn view(&self) -> AppView {
        AppView {
            store: self.db@,
            notes: notes_view(self.notes@),
            tags: texts_view(self.tags@),
            selected: self.selected,
            tag_selected: self.tag_selected,
            search_query: self.search_query@,
            status: self.status_msg@,
            editing_search: self.editing_search,
            pane: self.active_pane,
            confirming: self.confirming_delete,
        }
    }
}

impl App {
    /// The dashboard's rules, and a store that keeps its own.
    pub closed spec fn wf(&self) -> bool {
        &&& self.db.wf()
        &&& self@.wf()
    }

    /// The dashboard's rules but that the shown notes are the store's (see
    /// `AppView::ready`).
    pub closed spec fn ready(&self) -> bool {
        &&& self.db.wf()
        &&& self@.ready()
    }

    /// A dashboard that keeps its rules is ready to fetch its notes.
    pub proof fn lemma_wf_ready(&self)
        requires
            self.wf(),
        ensures
            self.ready(),
    {
    }

    /// A dashboard that keeps its rules keeps the model's.
    pub proof fn lemma_view_wf(&self)
        requires
            self.wf(),
        ensures
            self@.wf(),
    {
    }

    /// Opens the dashboard on a store: every note, newest first, the first
    /// selected; the tag list is `All` and then every tag in order, `All`
    /// selected.
    pub fn new(db: Database) -> (r: Result<App, DbError>)
        requires
            db.wf(),
        ensures
            r is Ok,
            r matches Ok(app) ==> {
                &&& app.wf()
                &&& app@.store == db@
                &&& app@.notes == db@.notes
                &&& app@.tags == seq![all_label()] + db@.all_tags()
                &&& app@.selected == (if db@.notes.len() > 0 { Some(0usize) } else { None })
                &&& app@.tag_selected == Some(0usize)
                &&& app@.search_query.len() == 0
                &&& app@.status == "Welcome to Jotun!"@
                &&& !app@.editing_search
                &&& !app@.confirming
                &&& app@.pane == Pane::Notes
            },
    {
        proof {
            db.lemma_view_wf();
        }
        let notes = db.list_notes()?;
        let mut tags: Vec<String> = Vec::new();
        tags.push(copy_text("All"));
        let listed = db.list_all_tags()?;
        let mut k: usize = 0;
        while k < listed.len()
            invariant
                k <= listed.len(),
                tags.len() == k + 1,
                tags@[0]@ == all_label(),
                forall|j: int| 0 <= j < k ==> tags@[j + 1]@ == listed@[j]@,
            decreases listed.len() - k,
        {
            tags.push(listed[k].clone());
            k = k + 1;
        }
        assert(texts_view(tags@) =~= seq![all_label()] + texts_view(listed@));
        let selected = if notes.len() > 0 {
            Some(0usize)
        } else {
            None
        };
        let app = App {
            db,
            notes,
            tags,
            selected,
            tag_selected: Some(0),
            search_query: String::new(),
            status_msg: copy_text("Welcome to Jotun!"),
            editing_search: false,
            active_pane: Pane::Notes,
            confirming_delete: false,
        };
        Ok(app)
    }

    /// Fetches the notes the dashboard asks for (see `AppView::requested`)
    /// and keeps the selection within them. A failed fetch leaves the list
    /// empty with an error status; nothing else fails.
    pub fn update_notes(&mut self) -> (r: Result<(), DbError>)
        requires
            old(self).ready(),
        ensures
            final(self).wf(),
            r is Ok,
            old(self)@.refreshed(final(self)@),
    {
        let fetched: Result<Vec<Note>, DbError> = if !self.search_query.as_str().is_empty() {
            self.db.search_notes(self.search_query.as_str())
        } else {
            match self.tag_selected {
                Some(i) => {
                    if text_eq(self.tags[i].as_str(), "All") {
                        self.db.list_notes()
                    } else {
                        self.db.find_by_tag(self.tags[i].as_str())
                    }
                },
                None => self.db.list_notes(),
            }
        };
        let ghost before = self@;
        proof {
            self.db.lemma_view_wf();
        }
        match fetched {
            Ok(notes) => {
                let n = notes.len();
                self.notes = notes;
                if !self.search_query.as_str().is_empty() {
                    let mut msg = copy_text("Found ");
                    push_str(&mut msg, usize_text(n).as_str());
                    push_str(&mut msg, " results");
                    self.status_msg = msg;
                }
                if n == 0 {
                    self.selected = None;
                } else {
                    let i = match self.selected {
                        Some(i) => i,
                        None => 0,
                    };
                    self.selected = Some(if i < n { i } else { n - 1 });
                }
                assert(self@ == before.showing(notes_view(self.notes@)));
                proof {
                    let ns = notes_view(self.notes@);
                    let st = before.store;
                    lemma_matching_within(st.notes, fts_query_spec(before.search_query));
                    let i = before.tag_selected->Some_0;
                    lemma_under_tag(st.notes, lowercase(before.tags[i as int]));
                    assert(before.requested() == Some(ns));
                    assert forall|k: int| 0 <= k < ns.len() implies st.get(#[trigger] ns[k].id) == Ok::<NoteView, DbError>(ns[k]) by {
                        assert(ns.contains(ns[k]));
                        assert(st.notes.contains(ns[k]));
                        lemma_get_member(st, ns[k]);
                    }
                }
            },
            Err(_) => {
                self.notes = Vec::new();
                self.status_msg = copy_text("\u{274c} Error fetching notes");
                self.selected = None;
                assert(notes_view(self.notes@) =~= Seq::<NoteView>::empty());
                assert(self@ == before.cleared());
            },
        }
        Ok(())
    }

    /// Moves the selection down in the notes or tags pane, wrapping to the
    /// first entry; choosing another tag fetches its notes.
    pub fn next(&mut self)
        requires
            old(self).wf(),
        ensures
            final(self).wf(),
            old(self)@.moved_down(final(self)@),
    {
        match self.active_pane {
            Pane::Notes => {
                if self.notes.len() == 0 {
                    return;
                }
                let i = match self.selected {
                    Some(i) => if i >= self.notes.len() - 1 {
                        0
                    } else {
                        i + 1
                    },
                    None => 0,
                };
                self.selected = Some(i);
            },
            Pane::Tags => {
                if self.tags.len() == 0 {
                    return;
                }
                let i = match self.tag_selected {
                    Some(i) => if i >= self.tags.len() - 1 {
                        0
                    } else {
                        i + 1
                    },
                    None => 0,
                };
                self.tag_selected = Some(i);
                let _ = self.update_notes();
            },
            Pane::Content => {},
        }
    }

    /// Moves the selection up in the notes or tags pane, wrapping to the
    /// last entry; choosing another tag fetches its notes.
    pub fn previous(&mut self)
        requires
            old(self).wf(),
        ensures
            final(self).wf(),
            old(self)@.moved_up(final(self)@),
    {
        match self.active_pane {
            Pane::Notes => {
                if self.notes.len() == 0 {
                    return;
                }
                let i = match self.selected {
                    Some(i) => if i == 0 {
                        self.notes.len() - 1
                    } else {
                        i - 1
                    },
                    None => 0,
                };
                self.selected = Some(i);
            },
            Pane::Tags => {
                if self.tags.len() == 0 {
                    return;
                }
                let i = match self.tag_selected {
                    Some(i) => if i == 0 {
                        self.tags.len() - 1
                    } else {
                        i - 1
                    },
                    None => 0,
                };
                self.tag_selected = Some(i);
                let _ = self.update_notes();
            },
            Pane::Content => {},
        }
    }

    /// Deletes the selected note when the notes pane is active (see
    /// `AppView::delete_outcome`).
    pub fn delete_current(&mut self) -> (r: Result<(), DbError>)
        requires
            old(self).wf(),
        ensures
            final(self).wf(),
            old(self)@.delete_outcome(final(self)@, r),
    {
        if self.active_pane != Pane::Notes {
            return Ok(());
        }
        match self.selected {
            Some(i) => {
                let id = self.notes[i].id;
                self.db.delete_note(id)?;
                proof {
                    self.db.lemma_view_wf();
                }
                let mut msg = copy_text("Deleted note #");
                push_str(&mut msg, i64_text(id).as_str());
                self.status_msg = msg;
                self.update_notes()?;
            },
            None => {},
        }
        Ok(())
    }

    /// A copy of the selected note, if there is one.
    pub fn selected_note(&self) -> (r: Option<Note>)
        requires
            self.wf(),
        ensures
            match r {
                Some(n) => self@.current() == Some(n@),
                None => self@.current() is None,
            },
    {
        match self.selected {
            Some(i) => Some(self.notes[i].duplicate()),
            None => None,
        }
    }

    /// Takes how putting the selected note on the clipboard went: after a
    /// copy the status says so; a failed copy is handed back with nothing
    /// changed. With no note selected nothing was to be copied.
    pub fn copy_current<E>(&mut self, copied: Result<(), E>) -> (r: Result<(), E>)
        requires
            old(self).wf(),
        ensures
            final(self).wf(),
            match old(self)@.current() {
                Some(n) => match copied {
                    Ok(()) => {
                        &&& r is Ok
                        &&& final(self)@ == (AppView { status: copied_message(n.id), ..old(self)@ })
                        &&& final(self)@.status == "Copied note #"@ + decimal(n.id as int) + " to clipboard"@
                    },
                    Err(e) => r == Err::<(), E>(e) && final(self)@ == old(self)@,
                },
                None => r is Ok && final(self)@ == old(self)@,
            },
    {
        match self.selected {
            Some(i) => {
                copied?;
                let id = self.notes[i].id;
                let mut msg = copy_text("Copied note #");
                push_str(&mut msg, i64_text(id).as_str());
                push_str(&mut msg, " to clipboard");
                self.status_msg = msg;
                Ok(())
            },
            None => Ok(()),
        }
    }

    /// Saves what the user made of `note`'s body in the editor, now (see
    /// `AppView::edit_outcome`).
    pub fn edit_current(&mut self, note: &Note, edited: &str) -> (r: Result<(), DbError>)
        requires
            old(self).wf(),
        ensures
            final(self).wf(),
            old(self)@.edit_outcome(note@, edited@, final(self)@, r),
    {
        let now = now_micros();
        let r = self.edit_current_at(note, edited, now);
        assert(old(self)@.edit_outcome_at(note@, edited@, now, self@, r));
        r
    }

    /// Saves what the user made of `note`'s body in the editor at time
    /// `now` (see `AppView::edit_outcome_at`).
    pub fn edit_current_at(&mut self, note: &Note, edited: &str, now: i64) -> (r: Result<(), DbError>)
        requires
            old(self).wf(),
        ensures
            final(self).wf(),
            old(self)@.edit_outcome_at(note@, edited@, now, final(self)@, r),
    {
        let cut = trim(edited);
        let body = cut.as_str();
        if text_eq(body, note.body.as_str()) {
            return Ok(());
        }
        let title = match &note.title {
            Some(t) => Some(t.as_str()),
            None => None,
        };
        assert(opt_str_view(title) == note@.title);
        let ghost before = self@;
        self.db.update_note_at(note.id, body, title, note.tags.as_slice(), now)?;
        let mut msg = copy_text("Updated note #");
        push_str(&mut msg, i64_text(note.id).as_str());
        self.status_msg = msg;
        proof {
            self.db.lemma_view_wf();
            assert(self@ == (AppView {
                store: before.store.update(note.id, body@, note@.title, note@.tags, now),
                status: updated_message(note.id),
                ..before
            }));
        }
        self.update_notes()?;
        Ok(())
    }

    /// Saves what the user wrote in the editor as a new note, made now (see
    /// `AppView::new_note_outcome`).
    pub fn create_new(&mut self, content: &str) -> (r: Result<(), DbError>)
        requires
            old(self).wf(),
        ensures
            final(self).wf(),
            old(self)@.new_note_outcome(content@, final(self)@, r),
    {
        let now = now_micros();
        let r = self.create_new_at(content, now);
        assert(old(self)@.new_note_outcome_at(content@, now, self@, r));
        r
    }

    /// Saves what the user wrote in the editor as a new note made at time
    /// `now` (see `AppView::new_note_outcome_at`).
    pub fn create_new_at(&mut self, content: &str, now: i64) -> (r: Result<(), DbError>)
        requires
            old(self).wf(),
        ensures
            final(self).wf(),
            old(self)@.new_note_outcome_at(content@, now, final(self)@, r),
    {
        let cut = trim(content);
        let body = cut.as_str();
        if body.is_empty() {
            return Ok(());
        }
        let no_tags: Vec<String> = Vec::new();
        assert(texts_view(no_tags@) =~= Seq::<Seq<char>>::empty());
        let ghost before = self@;
        let id = self.db.create_note_at(body, None, "tui", no_tags.as_slice(), now)?;
        let mut msg = copy_text("Created note #");
        push_str(&mut msg, i64_text(id).as_str());
        self.status_msg = msg;
        proof {
            self.db.lemma_view_wf();
            assert(self@ == (AppView { store: self.db@, status: created_message(id), ..before }));
        }
        self.update_notes()?;
        Ok(())
    }

    /// Acts on a key (see `AppView::key_outcome`).
    pub fn handle_key(&mut self, key: KeyInput) -> (r: Action)
        requires
            old(self).wf(),
        ensures
            final(self).wf(),
            old(self)@.key_outcome(key, final(self)@, r),
    {
        if self.confirming_delete {
            self.confirming_delete = false;
            match key {
                KeyInput::Char('y') | KeyInput::Char('Y') => {
                    let res = self.delete_current();
                    return match res {
                        Ok(()) => Action::Continue,
                        Err(e) => Action::Failed(e),
                    };
                },
                _ => {
                    self.status_msg = copy_text("Deletion cancelled");
                    return Action::Continue;
                },
            }
        }
        if self.editing_search {
            match key {
                KeyInput::Enter | KeyInput::Esc => {
                    self.editing_search = false;
                },
                KeyInput::Char(c) => {
                    self.search_query.push(c);
                    let _ = self.update_notes();
                },
                KeyInput::Backspace => {
                    self.search_query.pop();
                    let _ = self.update_notes();
                },
                _ => {},
            }
            return Action::Continue;
        }
        match key {
            KeyInput::Char('q') | KeyInput::Esc => Action::Quit,
            KeyInput::Char('s') | KeyInput::Char('/') => {
                self.editing_search = true;
                Action::Continue
            },
            KeyInput::Tab => {
                self.switch_pane();
                Action::Continue
            },
            KeyInput::Down | KeyInput::Char('j') => {
                self.next();
                Action::Continue
            },
            KeyInput::Up | KeyInput::Char('k') => {
                self.previous();
                Action::Continue
            },
            KeyInput::Char('y') => match self.selected_note() {
                Some(n) => Action::Copy(n),
                None => Action::Continue,
            },
            KeyInput::Char('e') => match self.selected_note() {
                Some(n) => Action::Edit(n),
                None => Action::Continue,
            },
            KeyInput::Char('d') => {
                if self.active_pane == Pane::Notes {
                    match self.selected {
                        Some(i) => {
                            let id = self.notes[i].id;
                            let mut msg = copy_text("Delete note #");
                            push_str(&mut msg, i64_text(id).as_str());
                            push_str(&mut msg, "? (y/N)");
                            self.status_msg = msg;
                            self.confirming_delete = true;
                        },
                        None => {},
                    }
                }
                Action::Continue
            },
            KeyInput::Char('n') => Action::CreateNew,
            _ => Action::Continue,
        }
    }

    /// The notes shown, in order.
    pub fn notes(&self) -> (r: &Vec<Note>)
        ensures
            notes_view(r@) == self@.notes,
    {
        &self.notes
    }

    /// The tag entries: `All`, then every tag.
    pub fn tags(&self) -> (r: &Vec<String>)
        ensures
            texts_view(r@) == self@.tags,
    {
        &self.tags
    }

    /// The position of the selected note.
    pub fn selected(&self) -> (r: Option<usize>)
        ensures
            r == self@.selected,
    {
        self.selected
    }

    /// The position of the selected tag entry.
    pub fn tag_selected(&self) -> (r: Option<usize>)
        ensures
            r == self@.tag_selected,
    {
        self.tag_selected
    }

    /// The search query.
    pub fn search_query(&self) -> (r: &String)
        ensures
            r@ == self@.search_query,
    {
        &self.search_query
    }

    /// The status line.
    pub fn status(&self) -> (r: &String)
        ensures
            r@ == self@.status,
    {
        &self.status_msg
    }

    /// Whether a deletion waits for the user's answer.
    pub fn confirming_delete(&self) -> (r: bool)
        ensures
            r == self@.confirming,
    {
        self.confirming_delete
    }

    /// Whether the search query is being typed.
    pub fn editing_search(&self) -> (r: bool)
        ensures
            r == self@.editing_search,
    {
        self.editing_search
    }

    /// The active pane.
    pub fn active_pane(&self) -> (r: Pane)
        ensures
            r == self@.pane,
    {
        self.active_pane
    }

    /// The store behind the dashboard.
    pub fn database(&self) -> (r: &Database)
        requires
            self.wf(),
        ensures
            r@ == self@.store,
            r.wf(),
    {
        &self.db
    }

    /// Replaces the search query; the notes are fetched on the next
    /// `update_notes`.
    pub fn set_search_query(&mut self, query: &str)
        ensures
            final(self)@ == (AppView { search_query: query@, ..old(self)@ }),
            old(self).wf() ==> final(self).wf(),
    {
        self.search_query = copy_text(query);
    }

    /// Moves to the next pane: tags, notes, content, and round again.
    pub fn switch_pane(&mut self)
        ensures
            final(self)@ == (AppView { pane: next_pane(old(self)@.pane), ..old(self)@ }),
            old(self).wf() ==> final(self).wf(),
    {
        self.active_pane = match self.active_pane {
            Pane::Tags => Pane::Notes,
            Pane::Notes => Pane::Content,
            Pane::Content => Pane::Tags,
        };
    }
}

/// Moving the selection down and then up returns to the same entry, and up
/// then down too, in a list of `len` entries.
pub proof fn law_down_up_inverse(i: usize, len: nat)
    requires
        i < len <= usize::MAX,
    ensures
        previous_selection(next_selection(Some(i), len), len) == Some(i),
        next_selection(previous_selection(Some(i), len), len) == Some(i),
{
}

/// Moving down from the last entry wraps to the first, and moving up from
/// the first wraps to the last.
pub proof fn law_selection_wraps(len: nat)
    requires
        0 < len,
        len - 1 <= usize::MAX,
    ensures
        next_selection(Some((len - 1) as usize), len) == Some(0usize),
        previous_selection(Some(0usize), len) == Some((len - 1) as usize),
{
}

/// Switching pane three times comes back to the same pane.
pub proof fn law_pane_cycle(p: Pane)
    ensures
        next_pane(next_pane(next_pane(p))) == p,
        next_pane(p) != p,
{
}

/// In the notes pane, a key down then a key up leave the dashboard as it
/// was.
pub proof fn law_down_up_restores(a: AppView, b: AppView, c: AppView)
    requires
        a.wf(),
        a.pane == Pane::Notes,
        a.moved_down(b),
        b.moved_up(c),
    ensures
        c == a,
{
    if a.notes.len() > 0 {
        let i = a.selected->Some_0;
        law_down_up_inverse(i, a.notes.len());
    }
}

} // verus!
