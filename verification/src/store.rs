//! The note store: notes with their tags, kept newest first, with a
//! full-text index over their bodies and titles.
use vstd::prelude::*;
use crate::fts::{
    fts_accepts, fts_query, fts_query_spec, fts_ready, fts_rows, index_create, index_insert, index_open, index_remove,
    index_search, index_update, opt_str_view, row_fits,
};
use crate::model::{
    before, under_tag, tag_under, has_tag_under, unique_ids, sorted_notes, has_id, index_of, lemma_create_keeps_wf, lemma_delete_keeps_wf,
    lemma_insert_sorted_at, lemma_update_keeps_wf, matching, normalize_tag, norm_tags, add_names, select,
    lemma_remove_keeps_order, lemma_restore_keeps_wf, DbError, NoteView, StoreView, MAX_NOTE_SIZE,
};
use crate::order::sorted_texts;
use crate::text::{
    ascii_lower, byte_len, chars_of, lemma_trimmed_ascii, lowercase, trimmed, contains_text, copy_opt, copy_text, copy_texts, opt_view, texts_view, to_lowercase, trim,
};

verus! {

/// A note.
#[derive(Clone, Debug)]
pub struct Note {
    pub id: i64,
    pub title: Option<String>,
    pub body: String,
    pub source: String,
    /// Microseconds since the Unix epoch, UTC.
    pub created: i64,
    /// Microseconds since the Unix epoch, UTC.
    pub updated: i64,
    /// The note's tags, in the order the store made them.
    pub tags: Vec<String>,
}

impl View for Note {
    type V = NoteView;

    open spec fn view(&self) -> NoteView {
        NoteView {
            id: self.id,
            title: opt_view(self.title),
            body: self.body@,
            source: self.source@,
            created: self.created,
            updated: self.updated,
            tags: texts_view(self.tags@),
        }
    }
}

/// The views of a list of notes.
pub open spec fn notes_view(v: Seq<Note>) -> Seq<NoteView> {
    v.map_values(|n: Note| n@)
}

impl Note {
    /// A copy of the note.
    pub fn duplicate(&self) -> (r: Note)
        ensures
            r@ == self@,
    {
        Note {
            id: self.id,
            title: copy_opt(&self.title),
            body: self.body.clone(),
            source: self.source.clone(),
            created: self.created,
            updated: self.updated,
            tags: copy_texts(&self.tags),
        }
    }
}

/// `chrono::DateTime::<Utc>::from(SystemTime::now()).timestamp_micros()`:
/// the current time in microseconds since the Unix epoch, negative for a
/// clock set before it (chrono's conversion counts back from the epoch
/// there, where `Utc::now` would stop the program). The conversion stops
/// the program only for a clock beyond chrono's range of some 262,000
/// years around the epoch. It is read from the clock, so nothing is stated
/// of it.
#[verifier::external_body]
pub(crate) fn now_micros() -> i64 {
    chrono::DateTime::<chrono::Utc>::from(std::time::SystemTime::now()).timestamp_micros()
}

/// The index holds exactly one row per note, with the note's body and
/// title.
pub open spec fn index_agrees(rows: Map<i64, (Seq<char>, Option<Seq<char>>)>, s: Seq<NoteView>) -> bool {
    &&& forall|k: int| #![trigger s[k]] 0 <= k < s.len() ==> rows.contains_key(s[k].id) && rows[s[k].id] == (s[k].body, s[k].title)
    &&& forall|id: i64| #[trigger] rows.contains_key(id) ==> has_id(s, id)
}

/// The tag `t` trimmed and lowercased, as the store keeps tags.
pub fn normalize_tag_text(t: &str) -> (r: String)
    ensures
        r@ == normalize_tag(t@),
        vstd::utf8::is_ascii_chars(t@) ==> r@ == ascii_lower(trimmed(t@)),
{
    let cut = trim(t);
    let u = cut.as_str();
    proof {
        if vstd::utf8::is_ascii_chars(t@) {
            lemma_trimmed_ascii(t@);
        }
    }
    to_lowercase(u)
}

/// The normal form of each ASCII tag of `tags` is the tag trimmed, with its
/// capitals made small.
pub open spec fn ascii_tags_known(tags: Seq<Seq<char>>) -> bool {
    forall|i: int| 0 <= i < tags.len() && vstd::utf8::is_ascii_chars(#[trigger] tags[i]) ==> normalize_tag(tags[i]) == ascii_lower(trimmed(tags[i]))
}

/// Adds to `store_tags` the normalized `input` tags it lacks, and returns
/// the normalized tags.
fn add_tags(store_tags: &mut Vec<String>, input: &[String]) -> (names: Vec<String>)
    ensures
        texts_view(final(store_tags)@) == add_names(texts_view(old(store_tags)@), norm_tags(texts_view(input@))),
        texts_view(names@) == norm_tags(texts_view(input@)),
        ascii_tags_known(texts_view(input@)),
{
    let ghost start = texts_view(store_tags@);
    let mut names: Vec<String> = Vec::new();
    let mut i: usize = 0;
    while i < input.len()
        invariant
            i <= input.len(),
            texts_view(store_tags@) == add_names(start, norm_tags(texts_view(input@).take(i as int))),
            texts_view(names@) == norm_tags(texts_view(input@).take(i as int)),
            forall|j: int| 0 <= j < i && vstd::utf8::is_ascii_chars(#[trigger] texts_view(input@)[j])
                ==> normalize_tag(texts_view(input@)[j]) == ascii_lower(trimmed(texts_view(input@)[j])),
        decreases input.len() - i,
    {
        let n = normalize_tag_text(input[i].as_str());
        let ghost prefix = texts_view(input@).take(i as int);
        let ghost next = texts_view(input@).take(i + 1);
        proof {
            assert(next.drop_last() =~= prefix);
            assert(next.last() == input@[i as int]@);
        }
        if !n.as_str().is_empty() {
            let ghost names0 = texts_view(names@);
            if !contains_text(store_tags, &n) {
                store_tags.push(n.clone());
            }
            names.push(n);
            proof {
                assert(texts_view(names@) =~= names0.push(n@));
                assert(names0.push(n@).drop_last() =~= names0);
                assert(texts_view(store_tags@) =~= add_names(start, names0.push(n@)));
            }
        }
        i = i + 1;
    }
    assert(texts_view(input@).take(input.len() as int) =~= texts_view(input@));
    names
}

/// The tags of `store_tags` that are among `names`, in store order.
fn tags_in_order(store_tags: &Vec<String>, names: &Vec<String>) -> (r: Vec<String>)
    ensures
        texts_view(r@) == select(texts_view(store_tags@), texts_view(names@).to_set()),
{
    let ghost set = texts_view(names@).to_set();
    let mut r: Vec<String> = Vec::new();
    let mut k: usize = 0;
    while k < store_tags.len()
        invariant
            k <= store_tags.len(),
            set == texts_view(names@).to_set(),
            texts_view(r@) == select(texts_view(store_tags@).take(k as int), set),
        decreases store_tags.len() - k,
    {
        let ghost t = texts_view(store_tags@).take(k + 1);
        proof {
            assert(t.drop_last() =~= texts_view(store_tags@).take(k as int));
            assert(t.last() == store_tags@[k as int]@);
        }
        if contains_text(names, &store_tags[k]) {
            let ghost r0 = texts_view(r@);
            r.push(store_tags[k].clone());
            assert(texts_view(r@) =~= r0.push(store_tags@[k as int]@));
        }
        k = k + 1;
    }
    assert(texts_view(store_tags@).take(store_tags.len() as int) =~= texts_view(store_tags@));
    r
}

/// Whether note `a` is listed before note `b`.
fn listed_before(a: &Note, b: &Note) -> (r: bool)
    ensures
        r == before(a@, b@),
{
    a.updated > b.updated || (a.updated == b.updated && a.id < b.id)
}

/// After a note's index row is replaced and the note moved, the index still
/// agrees with the notes.
proof fn lemma_index_replace(rows: Map<i64, (Seq<char>, Option<Seq<char>>)>, s: Seq<NoteView>, pos: int, n: NoteView, p: int)
    requires
        sorted_notes(s),
        unique_ids(s),
        0 <= pos < s.len(),
        s[pos].id == n.id,
        0 <= p <= s.len() - 1,
        rows.contains_key(n.id),
        rows[n.id] == (n.body, n.title),
        forall|k: int| #![trigger s[k]] 0 <= k < s.len() && k != pos ==> rows.contains_key(s[k].id) && rows[s[k].id] == (s[k].body, s[k].title),
        forall|id: i64| #[trigger] rows.contains_key(id) ==> has_id(s, id),
    ensures
        index_agrees(rows, s.remove(pos).insert(p, n)),
{
    let rest = s.remove(pos);
    let t = rest.insert(p, n);
    lemma_remove_keeps_order(s, pos);
    assert forall|k: int| #![trigger t[k]] 0 <= k < t.len() implies rows.contains_key(t[k].id) && rows[t[k].id] == (t[k].body, t[k].title) by {
        if k != p {
            let j = if k < p { k } else { k - 1 };
            let i = if j < pos { j } else { j + 1 };
            assert(t[k] == rest[j]);
            assert(rest[j] == s[i]);
        }
    }
    assert forall|i: i64| #[trigger] rows.contains_key(i) implies has_id(t, i) by {
        if i == n.id {
            assert(t[p].id == i);
        } else {
            assert(has_id(rest, i));
            let j = choose|j: int| 0 <= j < rest.len() && rest[j].id == i;
            if j < p {
                assert(t[j] == rest[j]);
            } else {
                assert(t[j + 1] == rest[j]);
            }
        }
    }
}

/// Whether `id` is among `ids`.
fn contains_id(ids: &Vec<i64>, id: i64) -> (b: bool)
    ensures
        b == ids@.contains(id),
{
    let mut i: usize = 0;
    while i < ids.len()
        invariant
            i <= ids.len(),
            forall|k: int| 0 <= k < i ==> ids@[k] != id,
        decreases ids.len() - i,
    {
        if ids[i] == id {
            return true;
        }
        i = i + 1;
    }
    false
}

/// Whether the tag `t` is the tag `q` or one of its sub-tags.
fn tag_is_under(t: &str, q: &Vec<char>) -> (b: bool)
    ensures
        b == tag_under(t@, q@),
{
    let tc = chars_of(t);
    let n = q.len();
    if tc.len() < n {
        return false;
    }
    let mut i: usize = 0;
    while i < n
        invariant
            i <= n,
            n == q.len(),
            n <= tc.len(),
            tc@ == t@,
            forall|j: int| 0 <= j < i ==> tc@[j] == q@[j],
        decreases n - i,
    {
        if tc[i] != q[i] {
            proof {
                assert(t@[i as int] != q@[i as int]);
                if t@.len() > q@.len() {
                    assert(t@.take(n + 1)[i as int] != q@.push('/')[i as int]);
                }
            }
            return false;
        }
        i = i + 1;
    }
    if tc.len() == n {
        assert(tc@ =~= q@);
        return true;
    }
    let slash = tc[n] == '/';
    proof {
        if slash {
            assert(t@.take(n + 1) =~= q@.push('/'));
        } else {
            assert(t@.take(n + 1)[n as int] != q@.push('/')[n as int]);
        }
    }
    slash
}

/// Whether one of the note's tags is `q` or one of its sub-tags.
fn note_is_under(note: &Note, q: &Vec<char>) -> (b: bool)
    ensures
        b == has_tag_under(note@, q@),
{
    let mut k: usize = 0;
    while k < note.tags.len()
        invariant
            k <= note.tags.len(),
            forall|j: int| 0 <= j < k ==> !tag_under(#[trigger] note@.tags[j], q@),
        decreases note.tags.len() - k,
    {
        if tag_is_under(note.tags[k].as_str(), q) {
            assert(note@.tags[k as int] == note.tags@[k as int]@);
            return true;
        }
        assert(note@.tags[k as int] == note.tags@[k as int]@);
        k = k + 1;
    }
    false
}

/// The notes of the store.
pub struct Database {
    notes: Vec<Note>,
    tags: Vec<String>,
    next_id: i64,
    index: rusqlite::Connection,
}

impl View for Database {
    type V = StoreView;

    closed spec fn view(&self) -> StoreView {
        StoreView { notes: notes_view(self.notes@), tags: texts_view(self.tags@), next_id: self.next_id }
    }
}

impl Database {
    /// The store's rules, and an index that agrees with the notes.
    pub closed spec fn wf(&self) -> bool {
        &&& self@.wf()
        &&& fts_ready(self.index)
        &&& index_agrees(fts_rows(self.index), self@.notes)
    }

    /// A store that keeps its rules keeps the model's.
    pub proof fn lemma_view_wf(&self)
        requires
            self.wf(),
        ensures
            self@.wf(),
    {
    }

    /// A new, empty store.
    pub fn in_memory() -> (r: Result<Database, DbError>)
        ensures
            r matches Ok(db) && db.wf() && db@ == StoreView::empty(),
    {
        let mut conn = match index_open() {
            Ok(c) => c,
            Err(e) => return Err(DbError::Index(e)),
        };
        match index_create(&mut conn) {
            Ok(()) => {},
            Err(e) => return Err(DbError::Index(e)),
        }
        let db = Database { notes: Vec::new(), tags: Vec::new(), next_id: 1, index: conn };
        assert(db@.notes =~= Seq::<NoteView>::empty());
        assert(db@.tags =~= Seq::<Seq<char>>::empty());
        Ok(db)
    }

    /// Saves a new note with its normalized tags, made now, and returns its
    /// id.
    pub fn create_note(&mut self, body: &str, title: Option<&str>, source: &str, tags: &[String]) -> (r: Result<i64, DbError>)
        requires
            old(self).wf(),
        ensures
            final(self).wf(),
            r is Ok ==> ascii_tags_known(texts_view(tags@)),
            match r {
                Ok(id) => {
                    &&& old(self)@.create_error(body@) is None
                    &&& exists|t: i64| #[trigger] old(self)@.create(body@, opt_str_view(title), source@, texts_view(tags@), t) == (final(self)@, id)
                },
                Err(DbError::Index(_)) => {
                    &&& old(self)@.create_error(body@) is None
                    &&& !row_fits(body@, opt_str_view(title))
                    &&& final(self)@ == old(self)@
                },
                Err(e) => old(self)@.create_error(body@) == Some(e) && final(self)@ == old(self)@,
            },
    {
        let now = now_micros();
        self.create_note_at(body, title, source, tags, now)
    }

    /// Saves a new note with its normalized tags, made and updated at
    /// `now`, and returns its id.
    pub fn create_note_at(&mut self, body: &str, title: Option<&str>, source: &str, tags: &[String], now: i64) -> (r: Result<i64, DbError>)
        requires
            old(self).wf(),
        ensures
            final(self).wf(),
            r is Ok ==> ascii_tags_known(texts_view(tags@)),
            match r {
                Ok(id) => {
                    &&& old(self)@.create_error(body@) is None
                    &&& old(self)@.create(body@, opt_str_view(title), source@, texts_view(tags@), now) == (final(self)@, id)
                },
                Err(DbError::Index(_)) => {
                    &&& old(self)@.create_error(body@) is None
                    &&& !row_fits(body@, opt_str_view(title))
                    &&& final(self)@ == old(self)@
                },
                Err(e) => old(self)@.create_error(body@) == Some(e) && final(self)@ == old(self)@,
            },
    {
        let len = body.len();
        if len > MAX_NOTE_SIZE {
            return Err(DbError::TooLarge(len));
        }
        if self.next_id == i64::MAX {
            return Err(DbError::IdsExhausted);
        }
        let id = self.next_id;
        proof {
            if fts_rows(self.index).contains_key(id) {
                assert(has_id(self@.notes, id));
                let k = choose|k: int| 0 <= k < self@.notes.len() && self@.notes[k].id == id;
                assert(self@.notes[k].id < self.next_id);
            }
        }
        match index_insert(&mut self.index, id, body, title) {
            Ok(()) => {},
            Err(e) => return Err(DbError::Index(e)),
        }
        let ghost v = self@;
        let names = add_tags(&mut self.tags, tags);
        let note_tags = tags_in_order(&self.tags, &names);
        let note = Note {
            id,
            title: match title {
                Some(t) => Some(copy_text(t)),
                None => None,
            },
            body: copy_text(body),
            source: copy_text(source),
            created: now,
            updated: now,
            tags: note_tags,
        };
        assert(note@ == v.new_note(body@, opt_str_view(title), source@, texts_view(tags@), now));
        let p = self.insert_position(&note);
        proof {
            lemma_insert_sorted_at(v.notes, note@, p as int);
            lemma_create_keeps_wf(v, body@, opt_str_view(title), source@, texts_view(tags@), now);
        }
        self.notes.insert(p, note);
        self.next_id = id + 1;
        proof {
            let v2 = v.create(body@, opt_str_view(title), source@, texts_view(tags@), now).0;
            assert(self@.notes =~= v.notes.insert(p as int, note@));
            assert(self@ == v2);
            let rows = fts_rows(self.index);
            assert forall|k: int| #![trigger self@.notes[k]] 0 <= k < self@.notes.len() implies rows.contains_key(
                self@.notes[k].id,
            ) && rows[self@.notes[k].id] == (self@.notes[k].body, self@.notes[k].title) by {
                if k < p {
                    assert(self@.notes[k] == v.notes[k]);
                } else if k > p {
                    assert(self@.notes[k] == v.notes[k - 1]);
                }
            }
            assert forall|i: i64| #[trigger] rows.contains_key(i) implies has_id(self@.notes, i) by {
                if i == id {
                    assert(self@.notes[p as int].id == id);
                } else {
                    let k = choose|k: int| 0 <= k < v.notes.len() && v.notes[k].id == i;
                    if k < p {
                        assert(self@.notes[k] == v.notes[k]);
                    } else {
                        assert(self@.notes[k + 1] == v.notes[k]);
                    }
                }
            }
        }
        Ok(id)
    }

    /// The note with the id.
    pub fn get_note(&self, id: i64) -> (r: Result<Note, DbError>)
        requires
            self.wf(),
        ensures
            match r {
                Ok(n) => self@.get(id) == Ok::<NoteView, DbError>(n@),
                Err(e) => self@.get(id) == Err::<NoteView, DbError>(e),
            },
    {
        match self.position(id) {
            Some(k) => Ok(self.notes[k].duplicate()),
            None => Err(DbError::NotFound(id)),
        }
    }

    /// Every note, newest update first.
    pub fn list_notes(&self) -> (r: Result<Vec<Note>, DbError>)
        ensures
            r matches Ok(v) && notes_view(v@) == self@.notes,
    {
        let mut out: Vec<Note> = Vec::new();
        let mut k: usize = 0;
        while k < self.notes.len()
            invariant
                k <= self.notes.len(),
                out.len() == k,
                forall|j: int| 0 <= j < k ==> out@[j]@ == self.notes@[j]@,
            decreases self.notes.len() - k,
        {
            out.push(self.notes[k].duplicate());
            k = k + 1;
        }
        assert(notes_view(out@) =~= self@.notes);
        Ok(out)
    }

    /// Deletes the note with the id.
    pub fn delete_note(&mut self, id: i64) -> (r: Result<(), DbError>)
        requires
            old(self).wf(),
        ensures
            final(self).wf(),
            match r {
                Ok(()) => old(self)@.delete(id) == Ok::<StoreView, DbError>(final(self)@),
                Err(e) => old(self)@.delete(id) == Err::<StoreView, DbError>(e) && final(self)@ == old(self)@,
            },
    {
        let pos = match self.position(id) {
            Some(p) => p,
            None => return Err(DbError::NotFound(id)),
        };
        match index_remove(&mut self.index, id) {
            Ok(()) => {},
            Err(e) => return Err(DbError::Index(e)),
        }
        let ghost v = self@;
        proof {
            lemma_delete_keeps_wf(v, id);
            lemma_remove_keeps_order(v.notes, pos as int);
        }
        self.notes.remove(pos);
        proof {
            assert(self@.notes =~= v.notes.remove(pos as int));
            let rows = fts_rows(self.index);
            assert forall|k: int| #![trigger self@.notes[k]] 0 <= k < self@.notes.len() implies rows.contains_key(
                self@.notes[k].id,
            ) && rows[self@.notes[k].id] == (self@.notes[k].body, self@.notes[k].title) by {
                if k < pos {
                    assert(self@.notes[k] == v.notes[k]);
                } else {
                    assert(self@.notes[k] == v.notes[k + 1]);
                    assert(v.notes[k + 1].id != v.notes[pos as int].id);
                }
            }
        }
        Ok(())
    }

    /// Replaces the body, title and tags of the note with the id, and marks
    /// it updated now.
    pub fn update_note(&mut self, id: i64, body: &str, title: Option<&str>, tags: &[String]) -> (r: Result<(), DbError>)
        requires
            old(self).wf(),
        ensures
            final(self).wf(),
            r is Ok ==> ascii_tags_known(texts_view(tags@)),
            match r {
                Ok(()) => {
                    &&& old(self)@.update_error(id, body@) is None
                    &&& exists|t: i64| #[trigger] old(self)@.update(id, body@, opt_str_view(title), texts_view(tags@), t) == final(self)@
                },
                Err(DbError::Index(_)) => {
                    &&& old(self)@.update_error(id, body@) is None
                    &&& !row_fits(body@, opt_str_view(title))
                    &&& final(self)@ == old(self)@
                },
                Err(e) => old(self)@.update_error(id, body@) == Some(e) && final(self)@ == old(self)@,
            },
    {
        let now = now_micros();
        self.update_note_at(id, body, title, tags, now)
    }

    /// Replaces the body, title and tags of the note with the id, and marks
    /// it updated at `now`.
    pub fn update_note_at(&mut self, id: i64, body: &str, title: Option<&str>, tags: &[String], now: i64) -> (r: Result<(), DbError>)
        requires
            old(self).wf(),
        ensures
            final(self).wf(),
            r is Ok ==> ascii_tags_known(texts_view(tags@)),
            match r {
                Ok(()) => {
                    &&& old(self)@.update_error(id, body@) is None
                    &&& old(self)@.update(id, body@, opt_str_view(title), texts_view(tags@), now) == final(self)@
                },
                Err(DbError::Index(_)) => {
                    &&& old(self)@.update_error(id, body@) is None
                    &&& !row_fits(body@, opt_str_view(title))
                    &&& final(self)@ == old(self)@
                },
                Err(e) => old(self)@.update_error(id, body@) == Some(e) && final(self)@ == old(self)@,
            },
    {
        let len = body.len();
        if len > MAX_NOTE_SIZE {
            return Err(DbError::TooLarge(len));
        }
        let pos = match self.position(id) {
            Some(p) => p,
            None => return Err(DbError::NotFound(id)),
        };
        assert(self@.notes[pos as int].id == id);
        match index_update(&mut self.index, id, body, title) {
            Ok(()) => {},
            Err(e) => return Err(DbError::Index(e)),
        }
        let ghost v = self@;
        let names = add_tags(&mut self.tags, tags);
        let note_tags = tags_in_order(&self.tags, &names);
        let old_note = self.notes.remove(pos);
        let note = Note {
            id,
            title: match title {
                Some(t) => Some(copy_text(t)),
                None => None,
            },
            body: copy_text(body),
            source: old_note.source,
            created: old_note.created,
            updated: now,
            tags: note_tags,
        };
        assert(note@ == v.updated_note(id, body@, opt_str_view(title), texts_view(tags@), now));
        let ghost rest = v.notes.remove(pos as int);
        assert(self@.notes =~= rest);
        let p = self.insert_position(&note);
        proof {
            lemma_insert_sorted_at(rest, note@, p as int);
            lemma_update_keeps_wf(v, id, body@, opt_str_view(title), texts_view(tags@), now);
            lemma_remove_keeps_order(v.notes, pos as int);
        }
        self.notes.insert(p, note);
        proof {
            let v2 = v.update(id, body@, opt_str_view(title), texts_view(tags@), now);
            assert(self@.notes =~= rest.insert(p as int, note@));
            assert(self@ == v2);
            lemma_index_replace(fts_rows(self.index), v.notes, pos as int, note@, p as int);
        }
        Ok(())
    }

    /// The notes whose body or title the full-text index matches to the
    /// query taken as one phrase whose last word may be a prefix, newest
    /// first. The index refuses a query only when FTS5 cannot read the
    /// quoted phrase, which happens only for a query holding a NUL
    /// character or one near SQLite's length limit.
    pub fn search_notes(&self, query: &str) -> (r: Result<Vec<Note>, DbError>)
        requires
            self.wf(),
        ensures
            match r {
                Ok(v) => fts_accepts(fts_query_spec(query@)) && notes_view(v@) == self@.search(query@),
                Err(e) => !fts_accepts(fts_query_spec(query@)) && e is Index,
            },
            !query@.contains('\0') && byte_len(fts_query_spec(query@)) <= 900_000_000 ==> r is Ok,
    {
        let q = fts_query(query);
        proof {
            if !query@.contains('\0') && byte_len(fts_query_spec(query@)) <= 900_000_000 {
                assert(crate::fts::phrase_prefix_query(q@));
            }
        }
        let hits = match index_search(&self.index, q.as_str()) {
            Ok(h) => h,
            Err(e) => return Err(DbError::Index(e)),
        };
        let ghost qs = q@;
        let mut out: Vec<Note> = Vec::new();
        let mut k: usize = 0;
        while k < self.notes.len()
            invariant
                k <= self.notes.len(),
                self.wf(),
                qs == fts_query_spec(query@),
                forall|id: i64| #[trigger] hits@.contains(id) <==> {
                    &&& fts_rows(self.index).contains_key(id)
                    &&& crate::fts::fts_match(qs, fts_rows(self.index)[id].0, fts_rows(self.index)[id].1)
                },
                notes_view(out@) == matching(self@.notes.take(k as int), qs),
            decreases self.notes.len() - k,
        {
            let ghost t = self@.notes.take(k + 1);
            let ghost n = self@.notes[k as int];
            proof {
                assert(t.drop_last() =~= self@.notes.take(k as int));
                assert(t.last() == n);
                assert(fts_rows(self.index).contains_key(n.id));
            }
            if contains_id(&hits, self.notes[k].id) {
                let ghost o = notes_view(out@);
                out.push(self.notes[k].duplicate());
                assert(notes_view(out@) =~= o.push(n));
            }
            k = k + 1;
        }
        assert(self@.notes.take(self.notes.len() as int) =~= self@.notes);
        Ok(out)
    }

    /// The notes with the tag `tag_name` (lowercased) or one of its
    /// sub-tags: `work` finds notes tagged `work` or `work/p1`, not
    /// `workshop`. Newest first, each note once.
    pub fn find_by_tag(&self, tag_name: &str) -> (r: Result<Vec<Note>, DbError>)
        ensures
            r matches Ok(v) && notes_view(v@) == self@.find_by_tag(tag_name@),
            vstd::utf8::is_ascii_chars(tag_name@) ==> lowercase(tag_name@) == ascii_lower(tag_name@),
    {
        let lowered = to_lowercase(tag_name);
        let q = chars_of(lowered.as_str());
        let mut out: Vec<Note> = Vec::new();
        let mut k: usize = 0;
        while k < self.notes.len()
            invariant
                k <= self.notes.len(),
                q@ == lowercase(tag_name@),
                notes_view(out@) == under_tag(self@.notes.take(k as int), q@),
            decreases self.notes.len() - k,
        {
            let ghost t = self@.notes.take(k + 1);
            let ghost n = self@.notes[k as int];
            proof {
                assert(t.drop_last() =~= self@.notes.take(k as int));
                assert(t.last() == n);
            }
            if note_is_under(&self.notes[k], &q) {
                let ghost o = notes_view(out@);
                out.push(self.notes[k].duplicate());
                assert(notes_view(out@) =~= o.push(n));
            }
            k = k + 1;
        }
        assert(self@.notes.take(self.notes.len() as int) =~= self@.notes);
        Ok(out)
    }

    /// Every tag, in ascending order.
    pub fn list_all_tags(&self) -> (r: Result<Vec<String>, DbError>)
        ensures
            r matches Ok(v) && texts_view(v@) == self@.all_tags(),
    {
        Ok(sorted_texts(&self.tags))
    }

    /// A store with these tags (in the order they were made) and no note
    /// yet, whose next new note gets `next_id`: the start of loading a saved
    /// store.
    pub fn restored(tags: &Vec<String>, next_id: i64) -> (r: Result<Database, DbError>)
        ensures
            r matches Ok(db) ==> {
                &&& db.wf()
                &&& StoreView::restore_error(texts_view(tags@), next_id) is None
                &&& db@ == StoreView { notes: Seq::empty(), tags: texts_view(tags@), next_id }
            },
            r matches Err(e) ==> StoreView::restore_error(texts_view(tags@), next_id) == Some(e),
    {
        if next_id < 1 {
            return Err(DbError::Corrupt);
        }
        let mut kept: Vec<String> = Vec::new();
        let mut i: usize = 0;
        while i < tags.len()
            invariant
                i <= tags.len(),
                texts_view(kept@) == texts_view(tags@).take(i as int),
                texts_view(kept@).no_duplicates(),
            decreases tags.len() - i,
        {
            if contains_text(&kept, &tags[i]) {
                proof {
                    let j = choose|j: int| 0 <= j < kept@.len() && texts_view(kept@)[j] == tags@[i as int]@;
                    assert(texts_view(tags@)[j] == texts_view(tags@)[i as int]);
                }
                return Err(DbError::Corrupt);
            }
            let ghost k0 = texts_view(kept@);
            kept.push(tags[i].clone());
            assert(texts_view(kept@) =~= k0.push(tags@[i as int]@));
            i = i + 1;
            assert(texts_view(kept@) =~= texts_view(tags@).take(i as int));
        }
        assert(texts_view(tags@).take(tags.len() as int) =~= texts_view(tags@));
        let mut db = Database::in_memory()?;
        db.tags = kept;
        db.next_id = next_id;
        assert(db@.notes =~= Seq::<NoteView>::empty());
        Ok(db)
    }

    /// Adds a saved note to the store as it was saved, keeping of its tags
    /// those the store knows, in the store's order.
    pub fn restore_note(&mut self, note: &Note) -> (r: Result<(), DbError>)
        requires
            old(self).wf(),
        ensures
            final(self).wf(),
            match r {
                Ok(()) => old(self)@.restore_note_error(note@) is None && final(self)@ == old(self)@.restore_note(note@),
                Err(DbError::Index(_)) => {
                    &&& old(self)@.restore_note_error(note@) is None
                    &&& !row_fits(note@.body, note@.title)
                    &&& final(self)@ == old(self)@
                },
                Err(e) => old(self)@.restore_note_error(note@) == Some(e) && final(self)@ == old(self)@,
            },
    {
        let id = note.id;
        if id < 1 || id >= self.next_id {
            return Err(DbError::Corrupt);
        }
        if self.position(id).is_some() {
            return Err(DbError::Corrupt);
        }
        let title = match &note.title {
            Some(t) => Some(t.as_str()),
            None => None,
        };
        match index_insert(&mut self.index, id, note.body.as_str(), title) {
            Ok(()) => {},
            Err(e) => return Err(DbError::Index(e)),
        }
        let ghost v = self@;
        let kept = tags_in_order(&self.tags, &note.tags);
        let record = Note {
            id,
            title: copy_opt(&note.title),
            body: note.body.clone(),
            source: note.source.clone(),
            created: note.created,
            updated: note.updated,
            tags: kept,
        };
        assert(record@ == v.canonical(note@));
        let p = self.insert_position(&record);
        proof {
            lemma_insert_sorted_at(v.notes, record@, p as int);
            lemma_restore_keeps_wf(v, note@);
        }
        self.notes.insert(p, record);
        proof {
            assert(self@.notes =~= v.notes.insert(p as int, record@));
            assert(self@ == v.restore_note(note@));
            let rows = fts_rows(self.index);
            assert forall|k: int| #![trigger self@.notes[k]] 0 <= k < self@.notes.len() implies rows.contains_key(
                self@.notes[k].id,
            ) && rows[self@.notes[k].id] == (self@.notes[k].body, self@.notes[k].title) by {
                if k < p {
                    assert(self@.notes[k] == v.notes[k]);
                } else if k > p {
                    assert(self@.notes[k] == v.notes[k - 1]);
                }
            }
            assert forall|i: i64| #[trigger] rows.contains_key(i) implies has_id(self@.notes, i) by {
                if i == id {
                    assert(self@.notes[p as int].id == id);
                } else {
                    let k = choose|k: int| 0 <= k < v.notes.len() && v.notes[k].id == i;
                    if k < p {
                        assert(self@.notes[k] == v.notes[k]);
                    } else {
                        assert(self@.notes[k + 1] == v.notes[k]);
                    }
                }
            }
        }
        Ok(())
    }

    /// Every tag, in the order the store made them.
    pub fn tags_in_creation_order(&self) -> (r: Vec<String>)
        ensures
            texts_view(r@) == self@.tags,
    {
        copy_texts(&self.tags)
    }

    /// The notes, newest first.
    pub(crate) fn list_notes_ref(&self) -> (r: &Vec<Note>)
        ensures
            notes_view(r@) == self@.notes,
    {
        &self.notes
    }

    /// The tags, in the order the store made them.
    pub(crate) fn tags_ref(&self) -> (r: &Vec<String>)
        ensures
            texts_view(r@) == self@.tags,
    {
        &self.tags
    }

    /// The id counter a saved store keeps: the last id given out, 0 when
    /// none was.
    pub fn saved_counter(&self) -> (r: i64)
        requires
            self.wf(),
        ensures
            r == self@.next_id - 1,
    {
        proof {
            self.lemma_view_wf();
        }
        self.next_id - 1
    }

    /// The id the next new note gets.
    pub fn next_id(&self) -> (r: i64)
        ensures
            r == self@.next_id,
    {
        self.next_id
    }

    /// Where the note with the id stands.
    fn position(&self, id: i64) -> (r: Option<usize>)
        requires
            self.wf(),
        ensures
            match r {
                Some(k) => k < self@.notes.len() && has_id(self@.notes, id) && k == index_of(self@.notes, id),
                None => !has_id(self@.notes, id),
            },
    {
        let mut k: usize = 0;
        while k < self.notes.len()
            invariant
                k <= self.notes.len(),
                self.wf(),
                forall|j: int| 0 <= j < k ==> self@.notes[j].id != id,
            decreases self.notes.len() - k,
        {
            if self.notes[k].id == id {
                assert(self@.notes[k as int].id == id);
                let ghost c = index_of(self@.notes, id);
                assert(self@.notes[c].id == id);
                assert(unique_ids(self@.notes));
                assert(c == k);
                return Some(k);
            }
            k = k + 1;
        }
        None
    }

    /// Where a note goes so that the notes stay newest first.
    fn insert_position(&self, n: &Note) -> (p: usize)
        ensures
            p <= self@.notes.len(),
            forall|k: int| 0 <= k < p ==> before(self@.notes[k], n@),
            p == self@.notes.len() || !before(self@.notes[p as int], n@),
    {
        let mut p: usize = 0;
        while p < self.notes.len() && listed_before(&self.notes[p], n)
            invariant
                p <= self.notes.len(),
                forall|k: int| 0 <= k < p ==> before(self@.notes[k], n@),
            decreases self.notes.len() - p,
        {
            p = p + 1;
        }
        p
    }
}

} // verus!
