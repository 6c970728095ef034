//! What holds of the note store across its operations.
use vstd::prelude::*;
use crate::fts::{escape_quotes, fts_match, fts_query_spec};
use crate::model::{
    matching, tag_under, under_tag,
    lemma_matching,
    lemma_delete_keeps_wf,
    has_tag_under, lemma_under_tag,
    before, select, sorted_notes, lemma_insert_keeps_order, add_names, has_id, index_of, lemma_add_names, lemma_create_keeps_wf,
    lemma_insert_pos, lemma_insert_sorted_at, lemma_remove_keeps_order,
    lemma_select_contains, lemma_update_keeps_wf, norm_tags, normalize_tag, unique_ids, DbError,
    NoteView, StoreView,
};
use crate::order::{lemma_sort_lex, sort_lex, strictly_ascending};
use crate::text::lowercase;

verus! {

/// Finding notes by id after inserting one.
proof fn lemma_lookup_insert(s: Seq<NoteView>, n: NoteView, p: int, id: i64)
    requires
        0 <= p <= s.len(),
        unique_ids(s),
        unique_ids(s.insert(p, n)),
    ensures
        id == n.id ==> has_id(s.insert(p, n), id) && s.insert(p, n)[index_of(s.insert(p, n), id)] == n,
        id != n.id ==> (has_id(s.insert(p, n), id) <==> has_id(s, id)),
        id != n.id && has_id(s, id) ==> s.insert(p, n)[index_of(s.insert(p, n), id)] == s[index_of(s, id)],
{
    let t = s.insert(p, n);
    if id == n.id {
        assert(t[p].id == id);
        let k = index_of(t, id);
        assert(t[k].id == id);
    } else {
        if has_id(t, id) {
            let k = index_of(t, id);
            assert(t[k].id == id);
            let j = if k < p { k } else { k - 1 };
            assert(t[k] == s[j]);
            let c = index_of(s, id);
            assert(s[c].id == id);
        }
        if has_id(s, id) {
            let c = index_of(s, id);
            assert(s[c].id == id);
            let k = if c < p { c } else { c + 1 };
            assert(t[k] == s[c]);
        }
    }
}

/// Finding notes by id after removing one.
proof fn lemma_lookup_remove(s: Seq<NoteView>, q: int, id: i64)
    requires
        0 <= q < s.len(),
        unique_ids(s),
        id != s[q].id,
    ensures
        has_id(s.remove(q), id) <==> has_id(s, id),
        has_id(s, id) ==> s.remove(q)[index_of(s.remove(q), id)] == s[index_of(s, id)],
{
    let r = s.remove(q);
    if has_id(s, id) {
        let c = index_of(s, id);
        assert(s[c].id == id);
        let k = if c < q { c } else { c - 1 };
        assert(r[k] == s[c]);
        let k2 = index_of(r, id);
        assert(r[k2].id == id);
        let j = if k2 < q { k2 } else { k2 + 1 };
        assert(r[k2] == s[j]);
    }
    if has_id(r, id) {
        let k = index_of(r, id);
        assert(r[k].id == id);
        let j = if k < q { k } else { k + 1 };
        assert(r[k] == s[j]);
    }
}

/// Reading a note back after creating it gives what was written: the
/// body, title and source given, the creation time as both its creation
/// and update time, and its normalized tags in the store's order.
pub proof fn law_get_after_create(
    v: StoreView,
    body: Seq<char>,
    title: Option<Seq<char>>,
    source: Seq<char>,
    tags: Seq<Seq<char>>,
    now: i64,
)
    requires
        v.wf(),
        v.create_error(body) is None,
    ensures
        ({
            let (v2, id) = v.create(body, title, source, tags, now);
            &&& v2.get(id) == Ok::<NoteView, DbError>(v.new_note(body, title, source, tags, now))
            &&& v2.get(id)->Ok_0.body == body
            &&& v2.get(id)->Ok_0.title == title
            &&& v2.get(id)->Ok_0.source == source
            &&& v2.get(id)->Ok_0.created == now
            &&& v2.get(id)->Ok_0.updated == now
        }),
{
    let n = v.new_note(body, title, source, tags, now);
    let p = lemma_insert_pos(v.notes, n);
    lemma_insert_sorted_at(v.notes, n, p);
    lemma_create_keeps_wf(v, body, title, source, tags, now);
    lemma_lookup_insert(v.notes, n, p, n.id);
}

/// Creating a note leaves every other note as it was.
pub proof fn law_create_keeps_others(
    v: StoreView,
    body: Seq<char>,
    title: Option<Seq<char>>,
    source: Seq<char>,
    tags: Seq<Seq<char>>,
    now: i64,
    other: i64,
)
    requires
        v.wf(),
        v.create_error(body) is None,
        other != v.next_id,
    ensures
        v.create(body, title, source, tags, now).0.get(other) == v.get(other),
{
    let n = v.new_note(body, title, source, tags, now);
    let p = lemma_insert_pos(v.notes, n);
    lemma_insert_sorted_at(v.notes, n, p);
    lemma_create_keeps_wf(v, body, title, source, tags, now);
    lemma_lookup_insert(v.notes, n, p, other);
}

/// After a note is deleted, reading it is refused as not found, and a
/// second delete is refused the same way.
pub proof fn law_get_after_delete(v: StoreView, id: i64)
    requires
        v.wf(),
        v.delete(id) is Ok,
    ensures
        v.delete(id)->Ok_0.get(id) == Err::<NoteView, DbError>(DbError::NotFound(id)),
        v.delete(id)->Ok_0.delete(id) == Err::<StoreView, DbError>(DbError::NotFound(id)),
{
    let q = index_of(v.notes, id);
    assert(v.notes[q].id == id);
    lemma_remove_keeps_order(v.notes, q);
}

/// Deleting a note leaves every other note as it was.
pub proof fn law_delete_keeps_others(v: StoreView, id: i64, other: i64)
    requires
        v.wf(),
        v.delete(id) is Ok,
        other != id,
    ensures
        v.delete(id)->Ok_0.get(other) == v.get(other),
{
    let q = index_of(v.notes, id);
    assert(v.notes[q].id == id);
    lemma_lookup_remove(v.notes, q, other);
}

/// A note can be read exactly when it can be deleted.
pub proof fn law_get_iff_delete(v: StoreView, id: i64)
    ensures
        v.get(id) is Ok <==> v.delete(id) is Ok,
        v.get(id) is Err ==> v.get(id) == Err::<NoteView, DbError>(DbError::NotFound(id)),
{
}

/// Reading a note back after updating it gives the new body, title and
/// tags, the update time, and the source and creation time it had.
pub proof fn law_get_after_update(
    v: StoreView,
    id: i64,
    body: Seq<char>,
    title: Option<Seq<char>>,
    tags: Seq<Seq<char>>,
    now: i64,
)
    requires
        v.wf(),
        v.update_error(id, body) is None,
    ensures
        ({
            let v2 = v.update(id, body, title, tags, now);
            let before = v.get(id)->Ok_0;
            &&& v2.get(id) == Ok::<NoteView, DbError>(v.updated_note(id, body, title, tags, now))
            &&& v2.get(id)->Ok_0.body == body
            &&& v2.get(id)->Ok_0.title == title
            &&& v2.get(id)->Ok_0.updated == now
            &&& v2.get(id)->Ok_0.source == before.source
            &&& v2.get(id)->Ok_0.created == before.created
        }),
{
    let q = index_of(v.notes, id);
    assert(v.notes[q].id == id);
    let s = v.notes.remove(q);
    lemma_remove_keeps_order(v.notes, q);
    let n = v.updated_note(id, body, title, tags, now);
    let p = lemma_insert_pos(s, n);
    lemma_insert_sorted_at(s, n, p);
    lemma_update_keeps_wf(v, id, body, title, tags, now);
    lemma_lookup_insert(s, n, p, id);
}

/// Updating a note leaves every other note as it was.
pub proof fn law_update_keeps_others(
    v: StoreView,
    id: i64,
    body: Seq<char>,
    title: Option<Seq<char>>,
    tags: Seq<Seq<char>>,
    now: i64,
    other: i64,
)
    requires
        v.wf(),
        v.update_error(id, body) is None,
        other != id,
    ensures
        v.update(id, body, title, tags, now).get(other) == v.get(other),
{
    let q = index_of(v.notes, id);
    assert(v.notes[q].id == id);
    let s = v.notes.remove(q);
    lemma_remove_keeps_order(v.notes, q);
    lemma_lookup_remove(v.notes, q, other);
    let n = v.updated_note(id, body, title, tags, now);
    let p = lemma_insert_pos(s, n);
    lemma_insert_sorted_at(s, n, p);
    lemma_update_keeps_wf(v, id, body, title, tags, now);
    lemma_lookup_insert(s, n, p, other);
}

/// The listing goes from the most recently updated note to the least.
pub proof fn law_list_newest_first(v: StoreView)
    requires
        v.wf(),
    ensures
        forall|i: int, j: int| 0 <= i < j < v.notes.len() ==> v.notes[i].updated >= v.notes[j].updated,
{
    assert forall|i: int, j: int| 0 <= i < j < v.notes.len() implies v.notes[i].updated >= v.notes[j].updated by {
        assert(crate::model::before(v.notes[i], v.notes[j]));
    }
}

/// The tag listing holds every tag once, in strictly ascending order.
pub proof fn law_all_tags_ascending(v: StoreView)
    requires
        v.wf(),
    ensures
        strictly_ascending(v.all_tags()),
        v.all_tags().len() == v.tags.len(),
        forall|t: Seq<char>| #[trigger] v.all_tags().contains(t) <==> v.tags.contains(t),
{
    lemma_sort_lex(v.tags);
}

/// After a note is created, each of its tags, normalized, is among the
/// note's tags and in the tag listing; tags made before stay listed.
pub proof fn law_created_tags_listed(
    v: StoreView,
    body: Seq<char>,
    title: Option<Seq<char>>,
    source: Seq<char>,
    tags: Seq<Seq<char>>,
    now: i64,
)
    requires
        v.wf(),
        v.create_error(body) is None,
    ensures
        ({
            let v2 = v.create(body, title, source, tags, now).0;
            &&& forall|t: Seq<char>| #[trigger] norm_tags(tags).contains(t) ==> v2.all_tags().contains(t)
                && v.new_note(body, title, source, tags, now).tags.contains(t)
            &&& forall|t: Seq<char>| #[trigger] v.all_tags().contains(t) ==> v2.all_tags().contains(t)
        }),
{
    let names = norm_tags(tags);
    let t2 = add_names(v.tags, names);
    lemma_create_keeps_wf(v, body, title, source, tags, now);
    lemma_add_names(v.tags, names);
    lemma_sort_lex(v.tags);
    lemma_sort_lex(t2);
    lemma_select_contains(t2, names.to_set());
    assert forall|t: Seq<char>| #[trigger] names.contains(t) implies sort_lex(t2).contains(t)
        && v.new_note(body, title, source, tags, now).tags.contains(t) by {
        assert(t2.contains(t));
        assert(names.to_set().contains(t));
    }
}

/// `norm_tags` of two lists one after the other is theirs one after the
/// other.
proof fn lemma_norm_tags_append(a: Seq<Seq<char>>, b: Seq<Seq<char>>)
    ensures
        norm_tags(a + b) == norm_tags(a) + norm_tags(b),
    decreases b.len(),
{
    if b.len() == 0 {
        assert(a + b =~= a);
        assert(norm_tags(a) + norm_tags(b) =~= norm_tags(a));
    } else {
        lemma_norm_tags_append(a, b.drop_last());
        assert((a + b).drop_last() =~= a + b.drop_last());
        assert((a + b).last() == b.last());
        let n = normalize_tag(b.last());
        if n.len() > 0 {
            assert(norm_tags(a) + norm_tags(b.drop_last()).push(n) =~= (norm_tags(a) + norm_tags(b.drop_last())).push(n));
        }
    }
}

/// Adding two lists of names is adding the first, then the second.
proof fn lemma_add_names_append(t: Seq<Seq<char>>, a: Seq<Seq<char>>, b: Seq<Seq<char>>)
    ensures
        add_names(t, a + b) == add_names(add_names(t, a), b),
    decreases b.len(),
{
    if b.len() == 0 {
        assert(a + b =~= a);
    } else {
        lemma_add_names_append(t, a, b.drop_last());
        assert((a + b).drop_last() =~= a + b.drop_last());
        assert((a + b).last() == b.last());
    }
}

/// Adding names that are all there already changes nothing.
proof fn lemma_add_names_present(t: Seq<Seq<char>>, b: Seq<Seq<char>>)
    requires
        forall|x: Seq<char>| #[trigger] b.contains(x) ==> t.contains(x),
    ensures
        add_names(t, b) == t,
    decreases b.len(),
{
    if b.len() > 0 {
        let d = b.drop_last();
        assert forall|x: Seq<char>| #[trigger] d.contains(x) implies t.contains(x) by {
            let k = choose|k: int| 0 <= k < d.len() && d[k] == x;
            assert(b[k] == x);
            assert(b.contains(x));
        }
        lemma_add_names_present(t, d);
        assert(b.contains(b[b.len() - 1]));
    }
}

/// Naming the same tags twice when creating or updating a note comes to
/// the same as naming them once: the store, the note and its id alike.
pub proof fn law_repeated_tags_count_once(
    v: StoreView,
    id: i64,
    body: Seq<char>,
    title: Option<Seq<char>>,
    source: Seq<char>,
    tags: Seq<Seq<char>>,
    now: i64,
)
    ensures
        v.create(body, title, source, tags + tags, now) == v.create(body, title, source, tags, now),
        v.update(id, body, title, tags + tags, now) == v.update(id, body, title, tags, now),
{
    let ns = norm_tags(tags);
    lemma_norm_tags_append(tags, tags);
    lemma_add_names_append(v.tags, ns, ns);
    lemma_add_names(v.tags, ns);
    let t2 = add_names(v.tags, ns);
    assert forall|x: Seq<char>| #[trigger] ns.contains(x) implies t2.contains(x) by {
    }
    lemma_add_names_present(t2, ns);
    assert forall|x: Seq<char>| (ns + ns).to_set().contains(x) <==> ns.to_set().contains(x) by {
        if (ns + ns).contains(x) {
            let k = choose|k: int| 0 <= k < (ns + ns).len() && (ns + ns)[k] == x;
            if k < ns.len() {
                assert(ns[k] == x);
            } else {
                assert(ns[k - ns.len()] == x);
            }
        }
        if ns.contains(x) {
            let k = choose|k: int| 0 <= k < ns.len() && ns[k] == x;
            assert((ns + ns)[k] == x);
        }
    }
    assert((ns + ns).to_set() =~= ns.to_set());
}

/// A new note gets the store's next id, which no note of the store has and
/// which is above every id there; afterwards the next id is above it.
pub proof fn law_new_id_is_fresh(
    v: StoreView,
    body: Seq<char>,
    title: Option<Seq<char>>,
    source: Seq<char>,
    tags: Seq<Seq<char>>,
    now: i64,
)
    requires
        v.wf(),
        v.create_error(body) is None,
    ensures
        ({
            let (v2, id) = v.create(body, title, source, tags, now);
            &&& id == v.next_id
            &&& !has_id(v.notes, id)
            &&& forall|k: int| 0 <= k < v.notes.len() ==> #[trigger] v.notes[k].id < id
            &&& v2.next_id == id + 1
        }),
{
    if has_id(v.notes, v.next_id) {
        let k = choose|k: int| 0 <= k < v.notes.len() && v.notes[k].id == v.next_id;
        assert(v.notes[k].id < v.next_id);
    }
}

/// Updating or deleting a note leaves the next id as it was, so an id once
/// given is never given again.
pub proof fn law_next_id_kept(
    v: StoreView,
    id: i64,
    body: Seq<char>,
    title: Option<Seq<char>>,
    tags: Seq<Seq<char>>,
    now: i64,
)
    ensures
        v.update(id, body, title, tags, now).next_id == v.next_id,
        v.delete(id) matches Ok(v2) ==> v2.next_id == v.next_id,
{
}

/// Every tag of the store is not empty and is what normalizing (trimming,
/// then lowercasing) some given tag made of it.
pub open spec fn tags_normal(tags: Seq<Seq<char>>) -> bool {
    forall|t: Seq<char>| #[trigger] tags.contains(t) ==> t.len() > 0 && exists|x: Seq<char>| #[trigger] normalize_tag(x) == t
}

/// The tags `norm_tags` gives are normal.
proof fn lemma_norm_tags_normal(ts: Seq<Seq<char>>)
    ensures
        tags_normal(norm_tags(ts)),
    decreases ts.len(),
{
    if ts.len() > 0 {
        lemma_norm_tags_normal(ts.drop_last());
        let r = norm_tags(ts.drop_last());
        let n = normalize_tag(ts.last());
        if n.len() > 0 {
            assert forall|t: Seq<char>| #[trigger] r.push(n).contains(t) implies t.len() > 0 && exists|x: Seq<char>| #[trigger] normalize_tag(x) == t by {
                let k = choose|k: int| 0 <= k < r.push(n).len() && r.push(n)[k] == t;
                if k < r.len() {
                    assert(r[k] == t);
                    assert(r.contains(t));
                    let x = choose|x: Seq<char>| #[trigger] normalize_tag(x) == t;
                    assert(normalize_tag(x) == t);
                } else {
                    assert(normalize_tag(ts.last()) == t);
                }
            }
        }
    }
}

/// The store's tags stay normal: so they are in an empty store, and
/// creating, updating or deleting a note keeps them so; the tag listing
/// then gives normal tags only.
pub proof fn law_tags_stay_normal(
    v: StoreView,
    id: i64,
    body: Seq<char>,
    title: Option<Seq<char>>,
    source: Seq<char>,
    tags: Seq<Seq<char>>,
    now: i64,
)
    requires
        v.wf(),
        tags_normal(v.tags),
    ensures
        tags_normal(StoreView::empty().tags),
        tags_normal(v.create(body, title, source, tags, now).0.tags),
        tags_normal(v.update(id, body, title, tags, now).tags),
        v.delete(id) matches Ok(v2) ==> tags_normal(v2.tags),
        tags_normal(v.all_tags()),
{
    let ns = norm_tags(tags);
    lemma_norm_tags_normal(tags);
    lemma_add_names(v.tags, ns);
    let t2 = add_names(v.tags, ns);
    assert forall|t: Seq<char>| #[trigger] t2.contains(t) implies t.len() > 0 && exists|x: Seq<char>| #[trigger] normalize_tag(x) == t by {
        assert(v.tags.contains(t) || ns.contains(t));
        if v.tags.contains(t) {
            let x = choose|x: Seq<char>| #[trigger] normalize_tag(x) == t;
            assert(normalize_tag(x) == t);
        } else {
            assert(ns.contains(t));
            let x = choose|x: Seq<char>| #[trigger] normalize_tag(x) == t;
            assert(normalize_tag(x) == t);
        }
    }
    lemma_sort_lex(v.tags);
    assert forall|t: Seq<char>| #[trigger] v.all_tags().contains(t) implies t.len() > 0 && exists|x: Seq<char>| #[trigger] normalize_tag(x) == t by {
        assert(v.tags.contains(t));
    }
}

/// The store after restoring the notes `ns` one by one, first to last;
/// `None` when one is refused.
pub open spec fn restore_all(s: StoreView, ns: Seq<NoteView>) -> Option<StoreView>
    decreases ns.len(),
{
    if ns.len() == 0 {
        Some(s)
    } else if s.restore_note_error(ns[0]) is Some {
        None
    } else {
        restore_all(s.restore_note(ns[0]), ns.drop_first())
    }
}

/// A note is never listed before itself, and of two notes at most one is
/// listed before the other.
proof fn lemma_before_strict(a: NoteView, b: NoteView)
    ensures
        !before(a, a),
        !(before(a, b) && before(b, a)),
{
}

/// Two lists in the store's order that hold the same notes are the same
/// list.
proof fn lemma_sorted_same_notes(a: Seq<NoteView>, b: Seq<NoteView>)
    requires
        sorted_notes(a),
        sorted_notes(b),
        forall|x: NoteView| #![trigger a.contains(x)] #![trigger b.contains(x)] a.contains(x) <==> b.contains(x),
    ensures
        a == b,
    decreases a.len(),
{
    if a.len() == 0 {
        if b.len() > 0 {
            assert(b.contains(b[0]));
            assert(a.contains(b[0]));
        }
        assert(a =~= b);
    } else {
        assert(a.contains(a[0]));
        assert(b.len() > 0);
        let j = choose|j: int| 0 <= j < b.len() && b[j] == a[0];
        assert(b.contains(b[0]));
        assert(a.contains(b[0]));
        let i = choose|i: int| 0 <= i < a.len() && a[i] == b[0];
        if j > 0 {
            assert(before(b[0], b[j]));
            if i > 0 {
                assert(before(a[0], a[i]));
                lemma_before_strict(a[0], a[i]);
            } else {
                lemma_before_strict(a[0], a[0]);
            }
        }
        assert(a[0] == b[0]);
        let a1 = a.drop_first();
        let b1 = b.drop_first();
        assert forall|x: NoteView| #[trigger] a1.contains(x) implies b1.contains(x) by {
            let k = choose|k: int| 0 <= k < a1.len() && a1[k] == x;
            assert(a[k + 1] == x);
            assert(before(a[0], a[k + 1]));
            lemma_before_strict(x, x);
            assert(a.contains(x));
            let m = choose|m: int| 0 <= m < b.len() && b[m] == x;
            assert(m != 0);
            assert(b1[m - 1] == x);
        }
        assert forall|x: NoteView| #[trigger] b1.contains(x) implies a1.contains(x) by {
            let k = choose|k: int| 0 <= k < b1.len() && b1[k] == x;
            assert(b[k + 1] == x);
            assert(before(b[0], b[k + 1]));
            lemma_before_strict(x, x);
            assert(b.contains(x));
            let m = choose|m: int| 0 <= m < a.len() && a[m] == x;
            assert(m != 0);
            assert(a1[m - 1] == x);
        }
        assert(sorted_notes(a1)) by {
            assert forall|p: int, q: int| 0 <= p < q < a1.len() implies before(a1[p], a1[q]) by {
                assert(a1[p] == a[p + 1] && a1[q] == a[q + 1]);
            }
        }
        assert(sorted_notes(b1)) by {
            assert forall|p: int, q: int| 0 <= p < q < b1.len() implies before(b1[p], b1[q]) by {
                assert(b1[p] == b[p + 1] && b1[q] == b[q + 1]);
            }
        }
        lemma_sorted_same_notes(a1, b1);
        assert(a =~= seq![a[0]] + a1);
        assert(b =~= seq![b[0]] + b1);
    }
}

/// Restoring the notes of `rest`, which with those already in `s` make up
/// the notes of `v`, rebuilds `v`.
proof fn lemma_restore_rest(v: StoreView, s: StoreView, rest: Seq<NoteView>)
    requires
        v.wf(),
        s.tags == v.tags,
        s.next_id == v.next_id,
        sorted_notes(s.notes),
        unique_ids(s.notes),
        unique_ids(rest),
        forall|x: NoteView| #[trigger] s.notes.contains(x) ==> v.notes.contains(x) && !rest.contains(x),
        forall|x: NoteView| #[trigger] rest.contains(x) ==> v.notes.contains(x),
        forall|x: NoteView| #[trigger] v.notes.contains(x) ==> s.notes.contains(x) || rest.contains(x),
    ensures
        restore_all(s, rest) == Some(v),
    decreases rest.len(),
{
    if rest.len() == 0 {
        lemma_sorted_same_notes(s.notes, v.notes);
    } else {
        let n = rest[0];
        assert(rest.contains(n));
        let k = choose|k: int| 0 <= k < v.notes.len() && v.notes[k] == n;
        assert(1 <= v.notes[k].id < v.next_id);
        if has_id(s.notes, n.id) {
            let m = choose|m: int| 0 <= m < s.notes.len() && s.notes[m].id == n.id;
            assert(s.notes.contains(s.notes[m]));
            let q = choose|q: int| 0 <= q < v.notes.len() && v.notes[q] == s.notes[m];
            assert(q == k);
        }
        assert(s.restore_note_error(n) is None);
        assert(v.notes[k].tags == select(v.tags, v.notes[k].tags.to_set()));
        assert(s.canonical(n) == n);
        let p = lemma_insert_pos(s.notes, n);
        lemma_insert_sorted_at(s.notes, n, p);
        lemma_insert_keeps_order(s.notes, n, p);
        let s2 = s.restore_note(n);
        assert(s2.notes == s.notes.insert(p, n));
        let r1 = rest.drop_first();
        assert forall|x: NoteView| #[trigger] s2.notes.contains(x) <==> s.notes.contains(x) || x == n by {
            if s2.notes.contains(x) {
                let c = choose|c: int| 0 <= c < s2.notes.len() && s2.notes[c] == x;
                if c < p {
                    assert(s.notes[c] == x);
                } else if c > p {
                    assert(s.notes[c - 1] == x);
                }
            }
            if s.notes.contains(x) {
                let c = choose|c: int| 0 <= c < s.notes.len() && s.notes[c] == x;
                if c < p {
                    assert(s2.notes[c] == x);
                } else {
                    assert(s2.notes[c + 1] == x);
                }
            }
            if x == n {
                assert(s2.notes[p] == x);
            }
        }
        assert forall|x: NoteView| #[trigger] r1.contains(x) <==> rest.contains(x) && x != n by {
            if r1.contains(x) {
                let c = choose|c: int| 0 <= c < r1.len() && r1[c] == x;
                assert(rest[c + 1] == x);
                assert(rest[c + 1].id != rest[0].id);
            }
            if rest.contains(x) && x != n {
                let c = choose|c: int| 0 <= c < rest.len() && rest[c] == x;
                assert(c != 0);
                assert(r1[c - 1] == x);
            }
        }
        assert(unique_ids(r1)) by {
            assert forall|i: int, j: int| 0 <= i < r1.len() && 0 <= j < r1.len() && i != j implies r1[i].id != r1[j].id by {
                assert(r1[i] == rest[i + 1] && r1[j] == rest[j + 1]);
            }
        }
        lemma_restore_rest(v, s2, r1);
    }
}

/// Saving the store and loading it back gives the same store: starting from
/// its tags and next id, restoring its notes in any order, each once,
/// refuses nothing and rebuilds it.
pub proof fn law_restore_round_trip(v: StoreView, order: Seq<NoteView>)
    requires
        v.wf(),
        unique_ids(order),
        forall|x: NoteView| #[trigger] order.contains(x) <==> v.notes.contains(x),
    ensures
        StoreView::restore_error(v.tags, v.next_id) is None,
        restore_all(StoreView { notes: Seq::empty(), tags: v.tags, next_id: v.next_id }, order) == Some(v),
{
    let s0 = StoreView { notes: Seq::empty(), tags: v.tags, next_id: v.next_id };
    lemma_restore_rest(v, s0, order);
}

/// Tag search is hierarchical: it gives exactly the notes that have the
/// searched name (lowercased) as a tag, or a tag under it (`work` finds
/// `work` and `work/p1`, not `workshop`), newest first and each once.
pub proof fn law_tag_filter(v: StoreView, name: Seq<char>)
    requires
        v.wf(),
    ensures
        forall|n: NoteView| #[trigger] v.find_by_tag(name).contains(n) <==> v.notes.contains(n) && has_tag_under(n, lowercase(name)),
        sorted_notes(v.find_by_tag(name)),
        unique_ids(v.find_by_tag(name)),
{
    lemma_under_tag(v.notes, lowercase(name));
}

/// A store operation a user can ask for.
pub enum StoreOp {
    Create { body: Seq<char>, title: Option<Seq<char>>, source: Seq<char>, tags: Seq<Seq<char>>, now: i64 },
    Update { id: i64, body: Seq<char>, title: Option<Seq<char>>, tags: Seq<Seq<char>>, now: i64 },
    Delete { id: i64 },
}

/// The store after the operation, and the id it gave out if it created a
/// note; a refused operation changes nothing.
pub open spec fn step(v: StoreView, op: StoreOp) -> (StoreView, Option<i64>) {
    match op {
        StoreOp::Create { body, title, source, tags, now } => if v.create_error(body) is None {
            let (v2, id) = v.create(body, title, source, tags, now);
            (v2, Some(id))
        } else {
            (v, None)
        },
        StoreOp::Update { id, body, title, tags, now } => if v.update_error(id, body) is None {
            (v.update(id, body, title, tags, now), None)
        } else {
            (v, None)
        },
        StoreOp::Delete { id } => match v.delete(id) {
            Ok(v2) => (v2, None),
            Err(_) => (v, None),
        },
    }
}

/// The store after the operations, in order, and the ids they gave out.
pub open spec fn run(v: StoreView, ops: Seq<StoreOp>) -> (StoreView, Seq<i64>)
    decreases ops.len(),
{
    if ops.len() == 0 {
        (v, Seq::empty())
    } else {
        let (v1, o) = step(v, ops[0]);
        let (vn, ids) = run(v1, ops.drop_first());
        match o {
            Some(i) => (vn, seq![i] + ids),
            None => (vn, ids),
        }
    }
}

/// Ids are never given out twice: over any run of creations, updates and
/// deletions, the ids new notes get rise strictly, none is an id the store
/// had before, and all lie below the next id at the end.
pub proof fn law_ids_never_reused(v: StoreView, ops: Seq<StoreOp>)
    requires
        v.wf(),
    ensures
        ({
            let (vn, ids) = run(v, ops);
            &&& vn.wf()
            &&& v.next_id <= vn.next_id
            &&& forall|i: int, j: int| 0 <= i < j < ids.len() ==> ids[i] < ids[j]
            &&& forall|i: int| 0 <= i < ids.len() ==> v.next_id <= #[trigger] ids[i] < vn.next_id
            &&& forall|i: int, k: int| 0 <= i < ids.len() && 0 <= k < v.notes.len() ==> #[trigger] ids[i] != #[trigger] v.notes[k].id
        }),
    decreases ops.len(),
{
    if ops.len() > 0 {
        let (v1, o) = step(v, ops[0]);
        match ops[0] {
            StoreOp::Create { body, title, source, tags, now } => {
                if v.create_error(body) is None {
                    lemma_create_keeps_wf(v, body, title, source, tags, now);
                }
            },
            StoreOp::Update { id, body, title, tags, now } => {
                if v.update_error(id, body) is None {
                    lemma_update_keeps_wf(v, id, body, title, tags, now);
                }
            },
            StoreOp::Delete { id } => {
                if v.delete(id) is Ok {
                    lemma_delete_keeps_wf(v, id);
                }
            },
        }
        law_ids_never_reused(v1, ops.drop_first());
        let (vn, rest) = run(v1, ops.drop_first());
        let ids = run(v, ops).1;
        match o {
            Some(i) => {
                assert(i == v.next_id && v1.next_id == i + 1);
                assert(ids == seq![i] + rest);
                assert forall|a: int, b: int| 0 <= a < b < ids.len() implies ids[a] < ids[b] by {
                    if a > 0 {
                        assert(ids[a] == rest[a - 1] && ids[b] == rest[b - 1]);
                    } else {
                        assert(ids[b] == rest[b - 1]);
                    }
                }
                assert forall|a: int| 0 <= a < ids.len() implies v.next_id <= #[trigger] ids[a] < vn.next_id by {
                    if a > 0 {
                        assert(ids[a] == rest[a - 1]);
                    }
                }
            },
            None => {
                assert(ids == rest);
                assert(v1.next_id == v.next_id);
            },
        }
        assert forall|a: int, k: int| 0 <= a < ids.len() && 0 <= k < v.notes.len() implies #[trigger] ids[a] != #[trigger] v.notes[k].id by {
            assert(v.notes[k].id < v.next_id);
        }
    }
}

/// Search gives exactly the notes whose body or title the index matches
/// to the query's phrase-prefix expression, newest update first and each
/// once.
pub proof fn law_search_results(v: StoreView, q: Seq<char>)
    requires
        v.wf(),
    ensures
        forall|n: NoteView| #[trigger] v.search(q).contains(n) <==> v.notes.contains(n) && fts_match(fts_query_spec(q), n.body, n.title),
        forall|i: int, j: int| 0 <= i < j < v.search(q).len() ==> v.search(q)[i].updated >= v.search(q)[j].updated,
        sorted_notes(v.search(q)),
        unique_ids(v.search(q)),
{
    lemma_matching(v.notes, fts_query_spec(q));
    assert forall|i: int, j: int| 0 <= i < j < v.search(q).len() implies v.search(q)[i].updated >= v.search(q)[j].updated by {
        assert(before(v.search(q)[i], v.search(q)[j]));
    }
}

/// The search expression quotes the query as one phrase: it is the query
/// between double quotes, with each of its own double quotes doubled, then
/// `*`; doubling quotes goes character by character.
pub proof fn law_query_quoting(a: Seq<char>, b: Seq<char>, c: char)
    ensures
        fts_query_spec(a) == seq!['"'] + escape_quotes(a) + seq!['"', '*'],
        escape_quotes(a + b) == escape_quotes(a) + escape_quotes(b),
        escape_quotes(seq!['"']) == seq!['"', '"'],
        c != '"' ==> escape_quotes(seq![c]) == seq![c],
        escape_quotes(Seq::<char>::empty()) == Seq::<char>::empty(),
        !a.contains('"') ==> escape_quotes(a) == a,
{
    lemma_escape_append(a, b);
    assert(seq!['"'].drop_last() =~= Seq::<char>::empty());
    assert(seq![c].drop_last() =~= Seq::<char>::empty());
    assert(escape_quotes(Seq::<char>::empty()) == Seq::<char>::empty());
    assert(escape_quotes(seq!['"']) == escape_quotes(Seq::<char>::empty()) + seq!['"', '"']);
    assert(Seq::<char>::empty() + seq!['"', '"'] =~= seq!['"', '"']);
    if c != '"' {
        assert(escape_quotes(seq![c]) == escape_quotes(Seq::<char>::empty()).push(c));
        assert(Seq::<char>::empty().push(c) =~= seq![c]);
    }
    lemma_escape_plain(a);
}

/// Doubling quotes in two texts one after the other.
proof fn lemma_escape_append(a: Seq<char>, b: Seq<char>)
    ensures
        escape_quotes(a + b) == escape_quotes(a) + escape_quotes(b),
    decreases b.len(),
{
    if b.len() == 0 {
        assert(a + b =~= a);
        assert(escape_quotes(a) + escape_quotes(b) =~= escape_quotes(a));
    } else {
        lemma_escape_append(a, b.drop_last());
        assert((a + b).drop_last() =~= a + b.drop_last());
        assert((a + b).last() == b.last());
        if b.last() == '"' {
            assert(escape_quotes(a) + (escape_quotes(b.drop_last()) + seq!['"', '"']) =~= (escape_quotes(a) + escape_quotes(b.drop_last())) + seq!['"', '"']);
        } else {
            assert(escape_quotes(a) + escape_quotes(b.drop_last()).push(b.last()) =~= (escape_quotes(a) + escape_quotes(b.drop_last())).push(b.last()));
        }
    }
}

/// A text without quotes stays as it is.
proof fn lemma_escape_plain(a: Seq<char>)
    ensures
        !a.contains('"') ==> escape_quotes(a) == a,
    decreases a.len(),
{
    if a.len() > 0 && !a.contains('"') {
        let d = a.drop_last();
        assert(!d.contains('"')) by {
            if d.contains('"') {
                let k = choose|k: int| 0 <= k < d.len() && d[k] == '"';
                assert(a[k] == '"');
            }
        }
        lemma_escape_plain(d);
        assert(a.last() != '"') by {
            if a.last() == '"' {
                assert(a[a.len() - 1] == '"');
            }
        }
        assert(d.push(a.last()) =~= a);
    }
}

/// Whether the index matches a note's body or title to the expression.
pub open spec fn matched_by(e: Seq<char>) -> spec_fn(NoteView) -> bool {
    |n: NoteView| fts_match(e, n.body, n.title)
}

/// Whether a note has the tag `q` or a tag under it.
pub open spec fn filed_under(q: Seq<char>) -> spec_fn(NoteView) -> bool {
    |n: NoteView| has_tag_under(n, q)
}

proof fn lemma_matching_is_filter(s: Seq<NoteView>, e: Seq<char>)
    ensures
        matching(s, e) == s.filter(matched_by(e)),
    decreases s.len(),
{
    reveal(Seq::filter);
    if s.len() > 0 {
        lemma_matching_is_filter(s.drop_last(), e);
    }
}

proof fn lemma_under_tag_is_filter(s: Seq<NoteView>, q: Seq<char>)
    ensures
        under_tag(s, q) == s.filter(filed_under(q)),
    decreases s.len(),
{
    reveal(Seq::filter);
    if s.len() > 0 {
        lemma_under_tag_is_filter(s.drop_last(), q);
    }
}

/// Search and tag search keep the store's notes that qualify, in the
/// store's order (newest first): search those the index matches to the
/// query's expression, tag search those with the lowercased name as a tag
/// or a tag under it.
pub proof fn law_searches_filter_the_listing(v: StoreView, q: Seq<char>, name: Seq<char>)
    ensures
        v.search(q) == v.notes.filter(matched_by(fts_query_spec(q))),
        v.find_by_tag(name) == v.notes.filter(filed_under(lowercase(name))),
{
    lemma_matching_is_filter(v.notes, fts_query_spec(q));
    lemma_under_tag_is_filter(v.notes, lowercase(name));
}

/// A tag is under `q` exactly when it is `q`, or `q`, a `/` and anything.
pub proof fn law_tag_under(t: Seq<char>, q: Seq<char>)
    ensures
        tag_under(t, q) <==> (t == q || exists|rest: Seq<char>| #[trigger] (q + seq!['/'] + rest) == t),
{
    if t.len() > q.len() && t.take(q.len() + 1int) == q.push('/') {
        let rest = t.skip(q.len() + 1int);
        assert forall|k: int| 0 <= k < t.len() implies (q + seq!['/'] + rest)[k] == t[k] by {
            if k < q.len() + 1 {
                assert(t.take(q.len() + 1int)[k] == t[k]);
                assert(q.push('/')[k] == (q + seq!['/'])[k]);
            }
        }
        assert(q + seq!['/'] + rest =~= t);
    }
    if exists|rest: Seq<char>| #[trigger] (q + seq!['/'] + rest) == t {
        let rest = choose|rest: Seq<char>| #[trigger] (q + seq!['/'] + rest) == t;
        assert(t.take(q.len() + 1int) =~= q.push('/'));
    }
}

} // verus!
