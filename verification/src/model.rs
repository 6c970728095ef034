//! The mathematical model of the note store: what a note is, what the store
//! holds, and what each operation makes of it.
use vstd::prelude::*;
use crate::fts::{fts_match, fts_query_spec};
use crate::order::sort_lex;
use crate::text::{byte_len, decimal, i64_text, lowercase, push_str, trimmed, usize_text};

verus! {

/// The largest note body the store takes, in bytes.
pub const MAX_NOTE_SIZE: usize = 1048576;

/// Why a store operation failed.
#[derive(Debug, Clone, PartialEq, Eq)]
pub enum DbError {
    /// The body has this many bytes, more than `MAX_NOTE_SIZE`.
    TooLarge(usize),
    /// No note has this id.
    NotFound(i64),
    /// Every id a note can have has been given out.
    IdsExhausted,
    /// The full-text index failed, with this message.
    Index(String),
    /// Stored rows that break the store's rules.
    Corrupt,
}

/// The message a failure is reported with.
pub open spec fn error_message(e: DbError) -> Seq<char> {
    match e {
        DbError::TooLarge(n) => "Note body exceeds 1MB limit ("@ + decimal(n as int) + " bytes)"@,
        DbError::NotFound(id) => "Note #"@ + decimal(id as int) + " not found."@,
        DbError::IdsExhausted => "database or disk is full"@,
        DbError::Index(m) => m@,
        DbError::Corrupt => "the saved notes break the store's rules"@,
    }
}

impl DbError {
    /// The message the failure is reported with.
    pub fn message(&self) -> (r: String)
        ensures
            r@ == error_message(*self),
    {
        let mut r = String::new();
        match self {
            DbError::TooLarge(n) => {
                push_str(&mut r, "Note body exceeds 1MB limit (");
                push_str(&mut r, usize_text(*n).as_str());
                push_str(&mut r, " bytes)");
            },
            DbError::NotFound(id) => {
                push_str(&mut r, "Note #");
                push_str(&mut r, i64_text(*id).as_str());
                push_str(&mut r, " not found.");
            },
            DbError::IdsExhausted => push_str(&mut r, "database or disk is full"),
            DbError::Index(m) => push_str(&mut r, m.as_str()),
            DbError::Corrupt => push_str(&mut r, "the saved notes break the store's rules"),
        }
        r
    }
}

/// A note as the model sees it.
pub struct NoteView {
    pub id: i64,
    pub title: Option<Seq<char>>,
    pub body: Seq<char>,
    pub source: Seq<char>,
    /// Microseconds since the Unix epoch, UTC.
    pub created: i64,
    /// Microseconds since the Unix epoch, UTC.
    pub updated: i64,
    /// The note's tags, in the order the store made them.
    pub tags: Seq<Seq<char>>,
}

/// The whole store as the model sees it.
pub struct StoreView {
    /// Every note, newest update first.
    pub notes: Seq<NoteView>,
    /// Every tag ever made, in the order made; none is ever removed.
    pub tags: Seq<Seq<char>>,
    /// The id the next new note gets.
    pub next_id: i64,
}

/// Whether `a` is listed before `b`: newer update first, then lower id.
pub open spec fn before(a: NoteView, b: NoteView) -> bool {
    a.updated > b.updated || (a.updated == b.updated && a.id < b.id)
}

/// `n` put into `s` before the first note that is not listed before it.
pub open spec fn insert_sorted(s: Seq<NoteView>, n: NoteView) -> Seq<NoteView>
    decreases s.len(),
{
    if s.len() == 0 {
        seq![n]
    } else if before(s[0], n) {
        seq![s[0]] + insert_sorted(s.drop_first(), n)
    } else {
        seq![n] + s
    }
}

/// Whether some note of `s` has the id.
pub open spec fn has_id(s: Seq<NoteView>, id: i64) -> bool {
    exists|k: int| 0 <= k < s.len() && s[k].id == id
}

/// The position of a note of `s` with the id.
pub open spec fn index_of(s: Seq<NoteView>, id: i64) -> int {
    choose|k: int| 0 <= k < s.len() && s[k].id == id
}

/// Each note listed before every later one.
pub open spec fn sorted_notes(s: Seq<NoteView>) -> bool {
    forall|i: int, j: int| 0 <= i < j < s.len() ==> before(s[i], s[j])
}

/// No two notes with one id.
pub open spec fn unique_ids(s: Seq<NoteView>) -> bool {
    forall|i: int, j: int| 0 <= i < s.len() && 0 <= j < s.len() && i != j ==> s[i].id != s[j].id
}

/// A tag as the store keeps it: trimmed, then lowercased.
pub open spec fn normalize_tag(t: Seq<char>) -> Seq<char> {
    lowercase(trimmed(t))
}

/// The normalized tags of `ts`, in order, leaving out those that come out
/// empty.
pub open spec fn norm_tags(ts: Seq<Seq<char>>) -> Seq<Seq<char>>
    decreases ts.len(),
{
    if ts.len() == 0 {
        Seq::empty()
    } else {
        let r = norm_tags(ts.drop_last());
        let n = normalize_tag(ts.last());
        if n.len() == 0 {
            r
        } else {
            r.push(n)
        }
    }
}

/// `tags` with each name of `names` that it lacks added at the end, in
/// order.
pub open spec fn add_names(tags: Seq<Seq<char>>, names: Seq<Seq<char>>) -> Seq<Seq<char>>
    decreases names.len(),
{
    if names.len() == 0 {
        tags
    } else {
        let t = add_names(tags, names.drop_last());
        if t.contains(names.last()) {
            t
        } else {
            t.push(names.last())
        }
    }
}

/// The elements of `tags` that are in `set`, in the order of `tags`.
pub open spec fn select(tags: Seq<Seq<char>>, set: Set<Seq<char>>) -> Seq<Seq<char>>
    decreases tags.len(),
{
    if tags.len() == 0 {
        Seq::empty()
    } else {
        let r = select(tags.drop_last(), set);
        if set.contains(tags.last()) {
            r.push(tags.last())
        } else {
            r
        }
    }
}

/// The notes of `s` that the FTS5 expression `q` matches, in order.
pub open spec fn matching(s: Seq<NoteView>, q: Seq<char>) -> Seq<NoteView>
    decreases s.len(),
{
    if s.len() == 0 {
        s
    } else {
        let r = matching(s.drop_last(), q);
        if fts_match(q, s.last().body, s.last().title) {
            r.push(s.last())
        } else {
            r
        }
    }
}

/// Whether the tag `t` is the tag `q` or one of its sub-tags: `q`
/// itself, or `q`, a `/` and more.
pub open spec fn tag_under(t: Seq<char>, q: Seq<char>) -> bool {
    t == q || (t.len() > q.len() && t.take(q.len() + 1int) == q.push('/'))
}

/// Whether one of the note's tags is `q` or one of its sub-tags.
pub open spec fn has_tag_under(n: NoteView, q: Seq<char>) -> bool {
    exists|k: int| 0 <= k < n.tags.len() && tag_under(#[trigger] n.tags[k], q)
}

/// The notes of `s` with a tag that is `q` or one of its sub-tags, in
/// order.
pub open spec fn under_tag(s: Seq<NoteView>, q: Seq<char>) -> Seq<NoteView>
    decreases s.len(),
{
    if s.len() == 0 {
        s
    } else {
        let r = under_tag(s.drop_last(), q);
        if has_tag_under(s.last(), q) {
            r.push(s.last())
        } else {
            r
        }
    }
}

/// What `str::len` reports of a text: its UTF-8 length as a `usize`.
pub open spec fn str_len(s: Seq<char>) -> usize {
    byte_len(s) as usize
}

impl StoreView {
    /// An empty store.
    pub open spec fn empty() -> StoreView {
        StoreView { notes: Seq::empty(), tags: Seq::empty(), next_id: 1 }
    }

    /// The store's rules: notes newest first with distinct ids below
    /// `next_id`, tags distinct, each note's tags in the store's order.
    pub open spec fn wf(self) -> bool {
        &&& sorted_notes(self.notes)
        &&& unique_ids(self.notes)
        &&& 1 <= self.next_id
        &&& forall|k: int| 0 <= k < self.notes.len() ==> 1 <= #[trigger] self.notes[k].id < self.next_id
        &&& self.tags.no_duplicates()
        &&& forall|k: int| 0 <= k < self.notes.len() ==> #[trigger] self.notes[k].tags == select(
            self.tags,
            self.notes[k].tags.to_set(),
        )
    }

    /// The note with the id.
    pub open spec fn get(self, id: i64) -> Result<NoteView, DbError> {
        if has_id(self.notes, id) {
            Ok(self.notes[index_of(self.notes, id)])
        } else {
            Err(DbError::NotFound(id))
        }
    }

    /// Why a new note with this body is refused, if it is.
    pub open spec fn create_error(self, body: Seq<char>) -> Option<DbError> {
        if str_len(body) > MAX_NOTE_SIZE {
            Some(DbError::TooLarge(str_len(body)))
        } else if self.next_id == i64::MAX {
            Some(DbError::IdsExhausted)
        } else {
            None
        }
    }

    /// The note a creation at time `now` adds.
    pub open spec fn new_note(
        self,
        body: Seq<char>,
        title: Option<Seq<char>>,
        source: Seq<char>,
        tags: Seq<Seq<char>>,
        now: i64,
    ) -> NoteView {
        let names = norm_tags(tags);
        NoteView {
            id: self.next_id,
            title,
            body,
            source,
            created: now,
            updated: now,
            tags: select(add_names(self.tags, names), names.to_set()),
        }
    }

    /// The store after creating a note at time `now`, with the new id.
    pub open spec fn create(
        self,
        body: Seq<char>,
        title: Option<Seq<char>>,
        source: Seq<char>,
        tags: Seq<Seq<char>>,
        now: i64,
    ) -> (StoreView, i64) {
        (
            StoreView {
                notes: insert_sorted(self.notes, self.new_note(body, title, source, tags, now)),
                tags: add_names(self.tags, norm_tags(tags)),
                next_id: (self.next_id + 1) as i64,
            },
            self.next_id,
        )
    }

    /// Why an update of the note with the id to this body is refused, if
    /// it is.
    pub open spec fn update_error(self, id: i64, body: Seq<char>) -> Option<DbError> {
        if str_len(body) > MAX_NOTE_SIZE {
            Some(DbError::TooLarge(str_len(body)))
        } else if !has_id(self.notes, id) {
            Some(DbError::NotFound(id))
        } else {
            None
        }
    }

    /// The note with the id after an update at time `now`: new body, title
    /// and tags, the old source and creation time.
    pub open spec fn updated_note(
        self,
        id: i64,
        body: Seq<char>,
        title: Option<Seq<char>>,
        tags: Seq<Seq<char>>,
        now: i64,
    ) -> NoteView {
        let old = self.notes[index_of(self.notes, id)];
        let names = norm_tags(tags);
        NoteView {
            id,
            title,
            body,
            source: old.source,
            created: old.created,
            updated: now,
            tags: select(add_names(self.tags, names), names.to_set()),
        }
    }

    /// The store after updating the note with the id at time `now`.
    pub open spec fn update(
        self,
        id: i64,
        body: Seq<char>,
        title: Option<Seq<char>>,
        tags: Seq<Seq<char>>,
        now: i64,
    ) -> StoreView {
        StoreView {
            notes: insert_sorted(
                self.notes.remove(index_of(self.notes, id)),
                self.updated_note(id, body, title, tags, now),
            ),
            tags: add_names(self.tags, norm_tags(tags)),
            next_id: self.next_id,
        }
    }

    /// The store after deleting the note with the id.
    pub open spec fn delete(self, id: i64) -> Result<StoreView, DbError> {
        if has_id(self.notes, id) {
            Ok(StoreView { notes: self.notes.remove(index_of(self.notes, id)), ..self })
        } else {
            Err(DbError::NotFound(id))
        }
    }

    /// The notes a search for `q` finds, newest first.
    pub open spec fn search(self, q: Seq<char>) -> Seq<NoteView> {
        matching(self.notes, fts_query_spec(q))
    }

    /// The notes a tag search for `name` finds: those with the lowercased
    /// name as a tag, or a tag under it, newest first.
    pub open spec fn find_by_tag(self, name: Seq<char>) -> Seq<NoteView> {
        under_tag(self.notes, lowercase(name))
    }

    /// Why stored tags and a next id cannot start a store, if they cannot.
    pub open spec fn restore_error(tags: Seq<Seq<char>>, next_id: i64) -> Option<DbError> {
        if next_id < 1 || !tags.no_duplicates() {
            Some(DbError::Corrupt)
        } else {
            None
        }
    }

    /// Why a stored note cannot join the store, if it cannot: an id out of
    /// range or already present.
    pub open spec fn restore_note_error(self, n: NoteView) -> Option<DbError> {
        if !(1 <= n.id < self.next_id) || has_id(self.notes, n.id) {
            Some(DbError::Corrupt)
        } else {
            None
        }
    }

    /// A stored note as the store keeps it: its tags that the store knows,
    /// in the store's order.
    pub open spec fn canonical(self, n: NoteView) -> NoteView {
        NoteView { tags: select(self.tags, n.tags.to_set()), ..n }
    }

    /// The store after a stored note joins it.
    pub open spec fn restore_note(self, n: NoteView) -> StoreView {
        StoreView { notes: insert_sorted(self.notes, self.canonical(n)), ..self }
    }

    /// Every tag, in ascending order.
    pub open spec fn all_tags(self) -> Seq<Seq<char>> {
        sort_lex(self.tags)
    }
}

/// An element is in `select(t, s)` exactly when it is in `t` and in `s`.
pub proof fn lemma_select_contains(t: Seq<Seq<char>>, s: Set<Seq<char>>)
    ensures
        forall|x: Seq<char>| #[trigger] select(t, s).contains(x) <==> t.contains(x) && s.contains(x),
    decreases t.len(),
{
    if t.len() > 0 {
        lemma_select_contains(t.drop_last(), s);
        let r = select(t.drop_last(), s);
        let d = t.drop_last();
        assert forall|x: Seq<char>| #[trigger] select(t, s).contains(x) <==> t.contains(x) && s.contains(x) by {
            if t.contains(x) && s.contains(x) {
                let k = choose|k: int| 0 <= k < t.len() && t[k] == x;
                if k < t.len() - 1 {
                    assert(d[k] == x);
                    assert(d.contains(x));
                    assert(r.contains(x));
                    let j = choose|j: int| 0 <= j < r.len() && r[j] == x;
                    if s.contains(t.last()) {
                        assert(r.push(t.last())[j] == x);
                    }
                } else {
                    assert(r.push(t.last())[r.len() as int] == x);
                }
            }
            if select(t, s).contains(x) {
                let j = choose|j: int| 0 <= j < select(t, s).len() && select(t, s)[j] == x;
                if s.contains(t.last()) && j == r.len() {
                    assert(t[t.len() - 1] == x);
                } else {
                    assert(r[j] == x);
                    assert(r.contains(x));
                    assert(d.contains(x));
                    let k = choose|k: int| 0 <= k < d.len() && d[k] == x;
                    assert(t[k] == x);
                }
            }
        }
    }
}

/// `select(t, s)` depends only on which elements of `t` are in `s`.
pub proof fn lemma_select_congruent(t: Seq<Seq<char>>, s1: Set<Seq<char>>, s2: Set<Seq<char>>)
    requires
        forall|x: Seq<char>| t.contains(x) ==> (s1.contains(x) == s2.contains(x)),
    ensures
        select(t, s1) == select(t, s2),
    decreases t.len(),
{
    if t.len() > 0 {
        assert forall|x: Seq<char>| t.drop_last().contains(x) implies (s1.contains(x) == s2.contains(x)) by {
            let k = choose|k: int| 0 <= k < t.drop_last().len() && t.drop_last()[k] == x;
            assert(t[k] == x);
        }
        lemma_select_congruent(t.drop_last(), s1, s2);
        assert(t.contains(t.last())) by {
            assert(t[t.len() - 1] == t.last());
        }
    }
}

/// Elements outside `s` added at the end of `t` change nothing that
/// `select` keeps.
pub proof fn lemma_select_append_absent(t: Seq<Seq<char>>, u: Seq<Seq<char>>, s: Set<Seq<char>>)
    requires
        forall|k: int| 0 <= k < u.len() ==> !s.contains(#[trigger] u[k]),
    ensures
        select(t + u, s) == select(t, s),
    decreases u.len(),
{
    if u.len() == 0 {
        assert(t + u =~= t);
    } else {
        let v = u.drop_last();
        assert forall|k: int| 0 <= k < v.len() implies !s.contains(#[trigger] v[k]) by {
            assert(v[k] == u[k]);
        }
        lemma_select_append_absent(t, v, s);
        assert((t + u).drop_last() =~= t + v);
        assert((t + u).last() == u[u.len() - 1]);
    }
}

/// What `add_names` keeps and adds.
pub proof fn lemma_add_names(t: Seq<Seq<char>>, names: Seq<Seq<char>>)
    ensures
        add_names(t, names).len() >= t.len(),
        add_names(t, names) == t + add_names(t, names).skip(t.len() as int),
        forall|k: int| t.len() <= k < add_names(t, names).len() ==> !t.contains(#[trigger] add_names(t, names)[k]),
        forall|x: Seq<char>| #[trigger] add_names(t, names).contains(x) <==> t.contains(x) || names.contains(x),
        t.no_duplicates() ==> add_names(t, names).no_duplicates(),
    decreases names.len(),
{
    if names.len() == 0 {
        assert(t + t.skip(t.len() as int) =~= t);
    } else {
        let m = names.drop_last();
        lemma_add_names(t, m);
        let a = add_names(t, m);
        let x = names.last();
        assert forall|y: Seq<char>| names.contains(y) <==> m.contains(y) || y == x by {
            if names.contains(y) {
                let k = choose|k: int| 0 <= k < names.len() && names[k] == y;
                if k < names.len() - 1 {
                    assert(m[k] == y);
                }
            }
            if m.contains(y) {
                let k = choose|k: int| 0 <= k < m.len() && m[k] == y;
                assert(names[k] == y);
            }
            if y == x {
                assert(names[names.len() - 1] == y);
            }
        }
        if !a.contains(x) {
            let r = a.push(x);
            assert(r =~= t + r.skip(t.len() as int));
            assert forall|y: Seq<char>| #[trigger] r.contains(y) <==> a.contains(y) || y == x by {
                if r.contains(y) {
                    let k = choose|k: int| 0 <= k < r.len() && r[k] == y;
                    if k < a.len() {
                        assert(a[k] == y);
                    }
                }
                if a.contains(y) {
                    let k = choose|k: int| 0 <= k < a.len() && a[k] == y;
                    assert(r[k] == y);
                }
                if y == x {
                    assert(r[a.len() as int] == y);
                }
            }
            assert forall|k: int| t.len() <= k < r.len() implies !t.contains(#[trigger] r[k]) by {
                if k < a.len() {
                    assert(r[k] == a[k]);
                } else {
                    assert(r[k] == x);
                }
            }
        }
    }
}

/// The tags of notes already in the store keep their order when new tags
/// are made.
pub proof fn lemma_tags_grow(t: Seq<Seq<char>>, names: Seq<Seq<char>>, s: Set<Seq<char>>)
    requires
        forall|x: Seq<char>| s.contains(x) ==> t.contains(x),
    ensures
        select(add_names(t, names), s) == select(t, s),
{
    lemma_add_names(t, names);
    let a = add_names(t, names);
    let u = a.skip(t.len() as int);
    assert forall|k: int| 0 <= k < u.len() implies !s.contains(#[trigger] u[k]) by {
        assert(u[k] == a[t.len() + k]);
    }
    lemma_select_append_absent(t, u, s);
}

/// The tags `select` gives are in the form the store keeps a note's tags.
pub proof fn lemma_select_canonical(t: Seq<Seq<char>>, s: Set<Seq<char>>)
    ensures
        select(t, s) == select(t, select(t, s).to_set()),
{
    lemma_select_contains(t, s);
    let r = select(t, s);
    assert forall|x: Seq<char>| t.contains(x) implies (s.contains(x) == r.to_set().contains(x)) by {
    }
    lemma_select_congruent(t, s, r.to_set());
}

/// `insert_sorted` inserts at the first position whose note is not listed
/// before the new one.
pub proof fn lemma_insert_sorted_at(s: Seq<NoteView>, n: NoteView, p: int)
    requires
        0 <= p <= s.len(),
        forall|k: int| 0 <= k < p ==> before(s[k], n),
        p == s.len() || !before(s[p], n),
    ensures
        insert_sorted(s, n) == s.insert(p, n),
    decreases p,
{
    if p == 0 {
        if s.len() == 0 {
            assert(s.insert(0, n) =~= seq![n]);
        } else {
            assert(s.insert(0, n) =~= seq![n] + s);
        }
    } else {
        let t = s.drop_first();
        assert forall|k: int| 0 <= k < p - 1 implies before(t[k], n) by {
            assert(t[k] == s[k + 1]);
        }
        if p < s.len() {
            assert(t[p - 1] == s[p]);
        }
        lemma_insert_sorted_at(t, n, p - 1);
        assert(seq![s[0]] + t.insert(p - 1, n) =~= s.insert(p, n));
    }
}

/// Inserting a note with a new id where `insert_sorted` puts it keeps the
/// notes ordered and their ids distinct.
pub proof fn lemma_insert_keeps_order(s: Seq<NoteView>, n: NoteView, p: int)
    requires
        sorted_notes(s),
        unique_ids(s),
        !has_id(s, n.id),
        0 <= p <= s.len(),
        forall|k: int| 0 <= k < p ==> before(s[k], n),
        p == s.len() || !before(s[p], n),
    ensures
        sorted_notes(s.insert(p, n)),
        unique_ids(s.insert(p, n)),
{
    let r = s.insert(p, n);
    assert forall|k: int| p <= k < s.len() implies before(n, s[k]) by {
        assert(s[k].id != n.id);
        assert(s[p].id != n.id);
        if k > p {
            assert(before(s[p], s[k]));
        }
    }
    assert forall|i: int, j: int| 0 <= i < j < r.len() implies before(r[i], r[j]) by {
        if j < p {
            assert(r[i] == s[i] && r[j] == s[j]);
        } else if j == p {
            assert(r[i] == s[i]);
        } else if i < p {
            assert(r[i] == s[i] && r[j] == s[j - 1]);
            assert(before(s[i], n));
        } else if i == p {
            assert(r[j] == s[j - 1]);
        } else {
            assert(r[i] == s[i - 1] && r[j] == s[j - 1]);
        }
    }
    assert forall|i: int, j: int| 0 <= i < r.len() && 0 <= j < r.len() && i != j implies r[i].id != r[j].id by {
        if i != p && j != p {
            let a = if i < p { i } else { i - 1 };
            let b = if j < p { j } else { j - 1 };
            assert(r[i] == s[a] && r[j] == s[b]);
        } else if i == p {
            let b = if j < p { j } else { j - 1 };
            assert(r[j] == s[b]);
        } else {
            let a = if i < p { i } else { i - 1 };
            assert(r[i] == s[a]);
        }
    }
}

/// Removing a note keeps the others ordered and their ids distinct.
pub proof fn lemma_remove_keeps_order(s: Seq<NoteView>, p: int)
    requires
        sorted_notes(s),
        unique_ids(s),
        0 <= p < s.len(),
    ensures
        sorted_notes(s.remove(p)),
        unique_ids(s.remove(p)),
        !has_id(s.remove(p), s[p].id),
        forall|id: i64| id != s[p].id ==> (has_id(s.remove(p), id) <==> has_id(s, id)),
{
    let r = s.remove(p);
    assert forall|i: int, j: int| 0 <= i < j < r.len() implies before(r[i], r[j]) by {
        let a = if i < p { i } else { i + 1 };
        let b = if j < p { j } else { j + 1 };
        assert(r[i] == s[a] && r[j] == s[b]);
    }
    assert forall|i: int, j: int| 0 <= i < r.len() && 0 <= j < r.len() && i != j implies r[i].id != r[j].id by {
        let a = if i < p { i } else { i + 1 };
        let b = if j < p { j } else { j + 1 };
        assert(r[i] == s[a] && r[j] == s[b]);
    }
    if has_id(r, s[p].id) {
        let k = choose|k: int| 0 <= k < r.len() && r[k].id == s[p].id;
        let a = if k < p { k } else { k + 1 };
        assert(r[k] == s[a]);
    }
    assert forall|id: i64| id != s[p].id implies (has_id(r, id) <==> has_id(s, id)) by {
        if has_id(r, id) {
            let k = choose|k: int| 0 <= k < r.len() && r[k].id == id;
            let a = if k < p { k } else { k + 1 };
            assert(r[k] == s[a]);
        }
        if has_id(s, id) {
            let k = choose|k: int| 0 <= k < s.len() && s[k].id == id;
            assert(k != p);
            let a = if k < p { k } else { k - 1 };
            assert(r[a] == s[k]);
        }
    }
}

/// A position where `insert_sorted` puts `n`.
pub proof fn lemma_insert_pos(s: Seq<NoteView>, n: NoteView) -> (p: int)
    ensures
        0 <= p <= s.len(),
        forall|k: int| 0 <= k < p ==> before(s[k], n),
        p == s.len() || !before(s[p], n),
    decreases s.len(),
{
    if s.len() == 0 || !before(s[0], n) {
        0
    } else {
        let t = s.drop_first();
        let q = lemma_insert_pos(t, n);
        assert forall|k: int| 0 <= k < q + 1 implies before(s[k], n) by {
            if k > 0 {
                assert(s[k] == t[k - 1]);
            }
        }
        if q < t.len() {
            assert(s[q + 1] == t[q]);
        }
        q + 1
    }
}

/// The tags of every note of `s` are in the store's form for `tags`, and
/// so stay when more tags are made.
pub proof fn lemma_notes_tags_grow(s: Seq<NoteView>, tags: Seq<Seq<char>>, names: Seq<Seq<char>>)
    requires
        forall|k: int| 0 <= k < s.len() ==> #[trigger] s[k].tags == select(tags, s[k].tags.to_set()),
    ensures
        forall|k: int| 0 <= k < s.len() ==> #[trigger] s[k].tags == select(add_names(tags, names), s[k].tags.to_set()),
{
    assert forall|k: int| 0 <= k < s.len() implies #[trigger] s[k].tags == select(add_names(tags, names), s[k].tags.to_set()) by {
        let set = s[k].tags.to_set();
        lemma_select_contains(tags, set);
        assert forall|x: Seq<char>| set.contains(x) implies tags.contains(x) by {
            assert(s[k].tags.contains(x));
            assert(select(tags, set).contains(x));
        }
        lemma_tags_grow(tags, names, set);
    }
}

/// Putting a note with a fresh id and tags in the store's form into a
/// store that keeps its rules gives one that keeps them.
pub proof fn lemma_insert_note_keeps_wf(v: StoreView, s: Seq<NoteView>, n: NoteView, tags2: Seq<Seq<char>>)
    requires
        sorted_notes(s),
        unique_ids(s),
        !has_id(s, n.id),
        1 <= n.id < v.next_id,
        1 <= v.next_id,
        forall|k: int| 0 <= k < s.len() ==> 1 <= #[trigger] s[k].id < v.next_id,
        forall|k: int| 0 <= k < s.len() ==> #[trigger] s[k].tags == select(tags2, s[k].tags.to_set()),
        n.tags == select(tags2, n.tags.to_set()),
        tags2.no_duplicates(),
    ensures
        (StoreView { notes: insert_sorted(s, n), tags: tags2, next_id: v.next_id }).wf(),
{
    let p = lemma_insert_pos(s, n);
    lemma_insert_sorted_at(s, n, p);
    lemma_insert_keeps_order(s, n, p);
    let r = s.insert(p, n);
    assert forall|k: int| 0 <= k < r.len() implies 1 <= #[trigger] r[k].id < v.next_id && r[k].tags
        == select(tags2, r[k].tags.to_set()) by {
        if k < p {
            assert(r[k] == s[k]);
        } else if k > p {
            assert(r[k] == s[k - 1]);
        }
    }
}

/// Creating a note keeps the store's rules.
pub proof fn lemma_create_keeps_wf(
    v: StoreView,
    body: Seq<char>,
    title: Option<Seq<char>>,
    source: Seq<char>,
    tags: Seq<Seq<char>>,
    now: i64,
)
    requires
        v.wf(),
        v.create_error(body) is None,
    ensures
        v.create(body, title, source, tags, now).0.wf(),
{
    let names = norm_tags(tags);
    let t2 = add_names(v.tags, names);
    let n = v.new_note(body, title, source, tags, now);
    lemma_add_names(v.tags, names);
    lemma_notes_tags_grow(v.notes, v.tags, names);
    lemma_select_canonical(t2, names.to_set());
    if has_id(v.notes, n.id) {
        let k = choose|k: int| 0 <= k < v.notes.len() && v.notes[k].id == n.id;
        assert(v.notes[k].id < v.next_id);
    }
    let v2 = StoreView { next_id: (v.next_id + 1) as i64, ..v };
    lemma_insert_note_keeps_wf(v2, v.notes, n, t2);
}

/// Updating a note keeps the store's rules.
pub proof fn lemma_update_keeps_wf(
    v: StoreView,
    id: i64,
    body: Seq<char>,
    title: Option<Seq<char>>,
    tags: Seq<Seq<char>>,
    now: i64,
)
    requires
        v.wf(),
        v.update_error(id, body) is None,
    ensures
        v.update(id, body, title, tags, now).wf(),
{
    let names = norm_tags(tags);
    let t2 = add_names(v.tags, names);
    let q = index_of(v.notes, id);
    let s = v.notes.remove(q);
    let n = v.updated_note(id, body, title, tags, now);
    lemma_add_names(v.tags, names);
    lemma_remove_keeps_order(v.notes, q);
    assert forall|k: int| 0 <= k < s.len() implies 1 <= #[trigger] s[k].id < v.next_id && s[k].tags
        == select(v.tags, s[k].tags.to_set()) by {
        if k < q {
            assert(s[k] == v.notes[k]);
        } else {
            assert(s[k] == v.notes[k + 1]);
        }
    }
    lemma_notes_tags_grow(s, v.tags, names);
    lemma_select_canonical(t2, names.to_set());
    assert(v.notes[q].id == id);
    lemma_insert_note_keeps_wf(v, s, n, t2);
}

/// Deleting a note keeps the store's rules.
pub proof fn lemma_delete_keeps_wf(v: StoreView, id: i64)
    requires
        v.wf(),
        v.delete(id) is Ok,
    ensures
        v.delete(id)->Ok_0.wf(),
{
    let q = index_of(v.notes, id);
    let s = v.notes.remove(q);
    lemma_remove_keeps_order(v.notes, q);
    assert forall|k: int| 0 <= k < s.len() implies 1 <= #[trigger] s[k].id < v.next_id && s[k].tags
        == select(v.tags, s[k].tags.to_set()) by {
        if k < q {
            assert(s[k] == v.notes[k]);
        } else {
            assert(s[k] == v.notes[k + 1]);
        }
    }
}

/// A stored note joining the store keeps the store's rules.
pub proof fn lemma_restore_keeps_wf(v: StoreView, n: NoteView)
    requires
        v.wf(),
        v.restore_note_error(n) is None,
    ensures
        v.restore_note(n).wf(),
{
    lemma_select_canonical(v.tags, n.tags.to_set());
    lemma_insert_note_keeps_wf(v, v.notes, v.canonical(n), v.tags);
}

/// The notes `under_tag` gives are those of `s` with a tag under `q`, in
/// the order of `s`, each once.
pub proof fn lemma_under_tag(s: Seq<NoteView>, q: Seq<char>)
    requires
        sorted_notes(s),
        unique_ids(s),
    ensures
        sorted_notes(under_tag(s, q)),
        unique_ids(under_tag(s, q)),
        forall|x: NoteView| #[trigger] under_tag(s, q).contains(x) <==> s.contains(x) && has_tag_under(x, q),
    decreases s.len(),
{
    if s.len() > 0 {
        let d = s.drop_last();
        assert(sorted_notes(d)) by {
            assert forall|i: int, j: int| 0 <= i < j < d.len() implies before(d[i], d[j]) by {
                assert(d[i] == s[i] && d[j] == s[j]);
            }
        }
        assert(unique_ids(d)) by {
            assert forall|i: int, j: int| 0 <= i < d.len() && 0 <= j < d.len() && i != j implies d[i].id != d[j].id by {
                assert(d[i] == s[i] && d[j] == s[j]);
            }
        }
        lemma_under_tag(d, q);
        let r = under_tag(d, q);
        let l = s.last();
        assert forall|x: NoteView| #[trigger] s.contains(x) <==> d.contains(x) || x == l by {
            if s.contains(x) {
                let k = choose|k: int| 0 <= k < s.len() && s[k] == x;
                if k < s.len() - 1 {
                    assert(d[k] == x);
                }
            }
            if d.contains(x) {
                let k = choose|k: int| 0 <= k < d.len() && d[k] == x;
                assert(s[k] == x);
            }
            if x == l {
                assert(s[s.len() - 1] == x);
            }
        }
        if has_tag_under(l, q) {
            let t = r.push(l);
            assert forall|i: int| 0 <= i < r.len() implies before(#[trigger] r[i], l) && r[i].id != l.id by {
                assert(r.contains(r[i]));
                let k = choose|k: int| 0 <= k < d.len() && d[k] == r[i];
                assert(s[k] == r[i]);
            }
            assert forall|i: int, j: int| 0 <= i < j < t.len() implies before(t[i], t[j]) by {
                if j < r.len() {
                    assert(t[i] == r[i] && t[j] == r[j]);
                } else {
                    assert(t[i] == r[i]);
                }
            }
            assert forall|i: int, j: int| 0 <= i < t.len() && 0 <= j < t.len() && i != j implies t[i].id != t[j].id by {
                if i < r.len() && j < r.len() {
                    assert(t[i] == r[i] && t[j] == r[j]);
                } else if i < r.len() {
                    assert(t[i] == r[i]);
                } else {
                    assert(t[j] == r[j]);
                }
            }
            assert forall|x: NoteView| #[trigger] t.contains(x) <==> r.contains(x) || x == l by {
                if t.contains(x) {
                    let k = choose|k: int| 0 <= k < t.len() && t[k] == x;
                    if k < r.len() {
                        assert(r[k] == x);
                    }
                }
                if r.contains(x) {
                    let k = choose|k: int| 0 <= k < r.len() && r[k] == x;
                    assert(t[k] == x);
                }
                if x == l {
                    assert(t[r.len() as int] == x);
                }
            }
        }
    }
}

/// The notes a search for the expression `q` gives are those of `s` that
/// it matches, in the order of `s`, each once.
pub proof fn lemma_matching(s: Seq<NoteView>, q: Seq<char>)
    requires
        sorted_notes(s),
        unique_ids(s),
    ensures
        sorted_notes(matching(s, q)),
        unique_ids(matching(s, q)),
        forall|x: NoteView| #[trigger] matching(s, q).contains(x) <==> s.contains(x) && fts_match(q, x.body, x.title),
    decreases s.len(),
{
    if s.len() > 0 {
        let d = s.drop_last();
        assert(sorted_notes(d)) by {
            assert forall|i: int, j: int| 0 <= i < j < d.len() implies before(d[i], d[j]) by {
                assert(d[i] == s[i] && d[j] == s[j]);
            }
        }
        assert(unique_ids(d)) by {
            assert forall|i: int, j: int| 0 <= i < d.len() && 0 <= j < d.len() && i != j implies d[i].id != d[j].id by {
                assert(d[i] == s[i] && d[j] == s[j]);
            }
        }
        lemma_matching(d, q);
        let r = matching(d, q);
        let l = s.last();
        assert forall|x: NoteView| #[trigger] s.contains(x) <==> d.contains(x) || x == l by {
            if s.contains(x) {
                let k = choose|k: int| 0 <= k < s.len() && s[k] == x;
                if k < s.len() - 1 {
                    assert(d[k] == x);
                }
            }
            if d.contains(x) {
                let k = choose|k: int| 0 <= k < d.len() && d[k] == x;
                assert(s[k] == x);
            }
            if x == l {
                assert(s[s.len() - 1] == x);
            }
        }
        if fts_match(q, l.body, l.title) {
            let t = r.push(l);
            assert forall|i: int| 0 <= i < r.len() implies before(#[trigger] r[i], l) && r[i].id != l.id by {
                assert(r.contains(r[i]));
                let k = choose|k: int| 0 <= k < d.len() && d[k] == r[i];
                assert(s[k] == r[i]);
            }
            assert forall|i: int, j: int| 0 <= i < j < t.len() implies before(t[i], t[j]) by {
                if j < r.len() {
                    assert(t[i] == r[i] && t[j] == r[j]);
                } else {
                    assert(t[i] == r[i]);
                }
            }
            assert forall|i: int, j: int| 0 <= i < t.len() && 0 <= j < t.len() && i != j implies t[i].id != t[j].id by {
                if i < r.len() && j < r.len() {
                    assert(t[i] == r[i] && t[j] == r[j]);
                } else if i < r.len() {
                    assert(t[i] == r[i]);
                } else {
                    assert(t[j] == r[j]);
                }
            }
            assert forall|x: NoteView| #[trigger] t.contains(x) <==> r.contains(x) || x == l by {
                if t.contains(x) {
                    let k = choose|k: int| 0 <= k < t.len() && t[k] == x;
                    if k < r.len() {
                        assert(r[k] == x);
                    }
                }
                if r.contains(x) {
                    let k = choose|k: int| 0 <= k < r.len() && r[k] == x;
                    assert(t[k] == x);
                }
                if x == l {
                    assert(t[r.len() as int] == x);
                }
            }
        }
    }
}

/// The notes a search gives are notes of `s`.
pub proof fn lemma_matching_within(s: Seq<NoteView>, q: Seq<char>)
    ensures
        forall|x: NoteView| #[trigger] matching(s, q).contains(x) ==> s.contains(x),
    decreases s.len(),
{
    if s.len() > 0 {
        let d = s.drop_last();
        lemma_matching_within(d, q);
        let r = matching(d, q);
        assert forall|x: NoteView| #[trigger] matching(s, q).contains(x) implies s.contains(x) by {
            let m = matching(s, q);
            let k = choose|k: int| 0 <= k < m.len() && m[k] == x;
            if k < r.len() {
                assert(r[k] == x);
                assert(r.contains(x));
                let j = choose|j: int| 0 <= j < d.len() && d[j] == x;
                assert(s[j] == x);
            } else {
                assert(x == s.last());
                assert(s[s.len() - 1] == x);
            }
        }
    }
}

/// A note of a well-formed store is the one its id reads back.
pub proof fn lemma_get_member(v: StoreView, n: NoteView)
    requires
        v.wf(),
        v.notes.contains(n),
    ensures
        v.get(n.id) == Ok::<NoteView, DbError>(n),
{
    let k = choose|k: int| 0 <= k < v.notes.len() && v.notes[k] == n;
    assert(has_id(v.notes, n.id));
    let c = index_of(v.notes, n.id);
    assert(v.notes[c].id == n.id);
}

} // verus!
