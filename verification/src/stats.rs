//! Figures about the note store: how many notes and tags, how much text,
//! and which tags are used most.
use vstd::prelude::*;
use crate::model::{DbError, NoteView, StoreView};
use crate::order::{sort_lex, sorted_texts};
use crate::store::{notes_view, Database};
use crate::text::{chars_of, contains_text, texts_view};

verus! {

/// How many notes of `s` carry the tag `t`.
pub open spec fn notes_with_tag(s: Seq<NoteView>, t: Seq<char>) -> nat
    decreases s.len(),
{
    if s.len() == 0 {
        0
    } else {
        notes_with_tag(s.drop_last(), t) + if s.last().tags.contains(t) {
            1nat
        } else {
            0nat
        }
    }
}

/// Each of `names` that some note of `s` carries, in order, with the number
/// of notes that carry it.
pub open spec fn usage(names: Seq<Seq<char>>, s: Seq<NoteView>) -> Seq<(Seq<char>, nat)>
    decreases names.len(),
{
    if names.len() == 0 {
        Seq::empty()
    } else {
        let r = usage(names.drop_last(), s);
        let c = notes_with_tag(s, names.last());
        if c > 0 {
            r.push((names.last(), c))
        } else {
            r
        }
    }
}

/// `x` put after every entry of `s` whose count is at least its own.
pub open spec fn insert_by_count(s: Seq<(Seq<char>, nat)>, x: (Seq<char>, nat)) -> Seq<(Seq<char>, nat)>
    decreases s.len(),
{
    if s.len() == 0 {
        seq![x]
    } else if s[0].1 >= x.1 {
        seq![s[0]] + insert_by_count(s.drop_first(), x)
    } else {
        seq![x] + s
    }
}

/// `s` ordered by count, largest first, entries with equal counts in their
/// order in `s`.
pub open spec fn sort_by_count(s: Seq<(Seq<char>, nat)>) -> Seq<(Seq<char>, nat)>
    decreases s.len(),
{
    if s.len() == 0 {
        s
    } else {
        insert_by_count(sort_by_count(s.drop_last()), s.last())
    }
}

/// The used tags with their counts, most used first, ties in ascending
/// order of name.
pub open spec fn top_tags(v: StoreView) -> Seq<(Seq<char>, nat)> {
    sort_by_count(usage(sort_lex(v.tags), v.notes))
}

/// The number of characters of all bodies of `s`.
pub open spec fn total_chars(s: Seq<NoteView>) -> nat
    decreases s.len(),
{
    if s.len() == 0 {
        0
    } else {
        total_chars(s.drop_last()) + s.last().body.len()
    }
}

/// Figures about the store.
pub struct Statistics {
    /// How many notes there are.
    pub total_notes: usize,
    /// How many tags there are.
    pub tag_count: usize,
    /// How many characters the bodies hold together, at most `u64::MAX`.
    pub total_chars: u64,
    /// Every tag some note carries, with how many notes carry it, most
    /// used first and ties in ascending order of name.
    pub top_tags: Vec<(String, usize)>,
}

/// The views of tag counts.
pub open spec fn counts_view(v: Seq<(String, usize)>) -> Seq<(Seq<char>, nat)> {
    v.map_values(|e: (String, usize)| (e.0@, e.1 as nat))
}

proof fn lemma_insert_by_count_at(s: Seq<(Seq<char>, nat)>, x: (Seq<char>, nat), p: int)
    requires
        0 <= p <= s.len(),
        forall|k: int| 0 <= k < p ==> s[k].1 >= x.1,
        p == s.len() || s[p].1 < x.1,
    ensures
        insert_by_count(s, x) == s.insert(p, x),
    decreases p,
{
    if p == 0 {
        if s.len() == 0 {
            assert(s.insert(0, x) =~= seq![x]);
        } else {
            assert(s.insert(0, x) =~= seq![x] + s);
        }
    } else {
        let t = s.drop_first();
        assert forall|k: int| 0 <= k < p - 1 implies t[k].1 >= x.1 by {
            assert(t[k] == s[k + 1]);
        }
        if p < s.len() {
            assert(t[p - 1] == s[p]);
        }
        lemma_insert_by_count_at(t, x, p - 1);
        assert(seq![s[0]] + t.insert(p - 1, x) =~= s.insert(p, x));
    }
}

/// The counts ordered largest first (see `sort_by_count`).
fn sorted_by_count(v: Vec<(String, usize)>) -> (r: Vec<(String, usize)>)
    ensures
        counts_view(r@) == sort_by_count(counts_view(v@)),
{
    let mut r: Vec<(String, usize)> = Vec::new();
    let mut k: usize = 0;
    while k < v.len()
        invariant
            k <= v.len(),
            counts_view(r@) == sort_by_count(counts_view(v@).take(k as int)),
        decreases v.len() - k,
    {
        let x = (v[k].0.clone(), v[k].1);
        let mut p: usize = 0;
        while p < r.len() && r[p].1 >= x.1
            invariant
                p <= r.len(),
                forall|j: int| 0 <= j < p ==> r@[j].1 >= x.1,
            decreases r.len() - p,
        {
            p = p + 1;
        }
        let ghost before = counts_view(r@);
        let ghost xv = (x.0@, x.1 as nat);
        proof {
            assert forall|j: int| 0 <= j < p implies before[j].1 >= xv.1 by {
                assert(before[j].1 == r@[j].1);
            }
            if p < r.len() {
                assert(before[p as int].1 == r@[p as int].1);
            }
            lemma_insert_by_count_at(before, xv, p as int);
            let t = counts_view(v@).take(k + 1);
            assert(t.drop_last() =~= counts_view(v@).take(k as int));
            assert(t.last() == xv);
        }
        r.insert(p, x);
        assert(counts_view(r@) =~= before.insert(p as int, xv));
        k = k + 1;
    }
    assert(counts_view(v@).take(v.len() as int) =~= counts_view(v@));
    r
}

impl Database {
    /// How many notes carry the tag `t`.
    fn count_tagged(&self, t: &String) -> (c: usize)
        ensures
            c == notes_with_tag(self@.notes, t@),
    {
        let notes = self.list_notes_ref();
        let mut c: usize = 0;
        let mut k: usize = 0;
        while k < notes.len()
            invariant
                k <= notes.len(),
                notes_view(notes@) == self@.notes,
                c == notes_with_tag(self@.notes.take(k as int), t@),
                c <= k,
            decreases notes.len() - k,
        {
            let ghost s = self@.notes.take(k + 1);
            proof {
                assert(s.drop_last() =~= self@.notes.take(k as int));
                assert(s.last() == notes@[k as int]@);
            }
            if contains_text(&notes[k].tags, t) {
                c = c + 1;
            }
            k = k + 1;
        }
        assert(self@.notes.take(notes.len() as int) =~= self@.notes);
        c
    }

    /// Figures about the store: note and tag counts, the characters of all
    /// bodies, and the tags by use.
    pub fn get_statistics(&self) -> (r: Result<Statistics, DbError>)
        ensures
            r matches Ok(st) && {
                &&& st.total_notes == self@.notes.len()
                &&& st.tag_count == self@.tags.len()
                &&& st.total_chars == if total_chars(self@.notes) <= u64::MAX { total_chars(self@.notes) } else { u64::MAX as nat }
                &&& counts_view(st.top_tags@) == top_tags(self@)
            },
    {
        let notes = self.list_notes_ref();
        let mut chars: u64 = 0;
        let mut k: usize = 0;
        while k < notes.len()
            invariant
                k <= notes.len(),
                notes_view(notes@) == self@.notes,
                chars == if total_chars(self@.notes.take(k as int)) <= u64::MAX {
                    total_chars(self@.notes.take(k as int))
                } else {
                    u64::MAX as nat
                },
            decreases notes.len() - k,
        {
            let ghost s = self@.notes.take(k + 1);
            proof {
                assert(s.drop_last() =~= self@.notes.take(k as int));
                assert(s.last() == notes@[k as int]@);
            }
            let n = chars_of(notes[k].body.as_str()).len();
            chars = chars.saturating_add(n as u64);
            k = k + 1;
        }
        assert(self@.notes.take(notes.len() as int) =~= self@.notes);
        let names = sorted_texts(self.tags_ref());
        let mut used: Vec<(String, usize)> = Vec::new();
        let mut j: usize = 0;
        while j < names.len()
            invariant
                j <= names.len(),
                counts_view(used@) == usage(texts_view(names@).take(j as int), self@.notes),
            decreases names.len() - j,
        {
            let ghost s = texts_view(names@).take(j + 1);
            proof {
                assert(s.drop_last() =~= texts_view(names@).take(j as int));
                assert(s.last() == names@[j as int]@);
            }
            let c = self.count_tagged(&names[j]);
            if c > 0 {
                let ghost u0 = counts_view(used@);
                used.push((names[j].clone(), c));
                assert(counts_view(used@) =~= u0.push((names@[j as int]@, c as nat)));
            }
            j = j + 1;
        }
        assert(texts_view(names@).take(names.len() as int) =~= texts_view(names@));
        let top = sorted_by_count(used);
        Ok(Statistics { total_notes: notes.len(), tag_count: self.tags_ref().len(), total_chars: chars, top_tags: top })
    }
}

/// Counts never grow from one entry to the next.
pub open spec fn most_used_first(s: Seq<(Seq<char>, nat)>) -> bool {
    forall|i: int, j: int| 0 <= i < j < s.len() ==> s[i].1 >= s[j].1
}

/// A position where `insert_by_count` puts `x`.
proof fn lemma_insert_by_count_pos(s: Seq<(Seq<char>, nat)>, x: (Seq<char>, nat)) -> (p: int)
    ensures
        0 <= p <= s.len(),
        forall|k: int| 0 <= k < p ==> s[k].1 >= x.1,
        p == s.len() || s[p].1 < x.1,
    decreases s.len(),
{
    if s.len() == 0 || s[0].1 < x.1 {
        0
    } else {
        let t = s.drop_first();
        let q = lemma_insert_by_count_pos(t, x);
        assert forall|k: int| 0 <= k < q + 1 implies s[k].1 >= x.1 by {
            if k > 0 {
                assert(s[k] == t[k - 1]);
            }
        }
        if q < t.len() {
            assert(s[q + 1] == t[q]);
        }
        q + 1
    }
}

/// Sorting by count puts the most used first.
proof fn lemma_sort_by_count(s: Seq<(Seq<char>, nat)>)
    ensures
        most_used_first(sort_by_count(s)),
        sort_by_count(s).len() == s.len(),
    decreases s.len(),
{
    if s.len() > 0 {
        let r = sort_by_count(s.drop_last());
        lemma_sort_by_count(s.drop_last());
        let x = s.last();
        let p = lemma_insert_by_count_pos(r, x);
        lemma_insert_by_count_at(r, x, p);
        let t = r.insert(p, x);
        assert forall|i: int, j: int| 0 <= i < j < t.len() implies t[i].1 >= t[j].1 by {
            if j < p {
                assert(t[i] == r[i] && t[j] == r[j]);
            } else if j == p {
                assert(t[i] == r[i]);
            } else if i < p {
                assert(t[i] == r[i] && t[j] == r[j - 1]);
            } else if i == p {
                assert(t[j] == r[j - 1]);
                assert(r[p].1 < x.1);
                if j - 1 > p {
                    assert(r[p].1 >= r[j - 1].1);
                }
            } else {
                assert(t[i] == r[i - 1] && t[j] == r[j - 1]);
            }
        }
    }
}

/// The top tags go from the most used to the least.
pub proof fn law_top_tags_most_used_first(v: StoreView)
    ensures
        most_used_first(top_tags(v)),
{
    lemma_sort_by_count(usage(sort_lex(v.tags), v.notes));
}

/// Whether a note carries the tag `t`.
pub open spec fn carries(t: Seq<char>) -> spec_fn(NoteView) -> bool {
    |n: NoteView| n.tags.contains(t)
}

/// Counting the notes with a tag is counting the notes that carry it.
proof fn lemma_count_is_filter(s: Seq<NoteView>, t: Seq<char>)
    ensures
        notes_with_tag(s, t) == s.filter(carries(t)).len(),
    decreases s.len(),
{
    reveal(Seq::filter);
    if s.len() > 0 {
        lemma_count_is_filter(s.drop_last(), t);
    }
}

/// The entries of `usage`: each name of `names` that notes carry, with
/// their number.
proof fn lemma_usage_contains(names: Seq<Seq<char>>, s: Seq<NoteView>)
    ensures
        forall|e: (Seq<char>, nat)| #[trigger] usage(names, s).contains(e) <==> names.contains(e.0) && e.1
            == notes_with_tag(s, e.0) && e.1 > 0,
    decreases names.len(),
{
    if names.len() > 0 {
        let d = names.drop_last();
        lemma_usage_contains(d, s);
        let r = usage(d, s);
        let x = names.last();
        assert forall|y: Seq<char>| #[trigger] names.contains(y) <==> d.contains(y) || y == x by {
            if names.contains(y) {
                let k = choose|k: int| 0 <= k < names.len() && names[k] == y;
                if k < names.len() - 1 {
                    assert(d[k] == y);
                }
            }
            if d.contains(y) {
                let k = choose|k: int| 0 <= k < d.len() && d[k] == y;
                assert(names[k] == y);
            }
            if y == x {
                assert(names[names.len() - 1] == y);
            }
        }
        let c = notes_with_tag(s, x);
        if c > 0 {
            let u = r.push((x, c));
            assert forall|e: (Seq<char>, nat)| #[trigger] u.contains(e) <==> r.contains(e) || e == (x, c) by {
                if u.contains(e) {
                    let k = choose|k: int| 0 <= k < u.len() && u[k] == e;
                    if k < r.len() {
                        assert(r[k] == e);
                    }
                }
                if r.contains(e) {
                    let k = choose|k: int| 0 <= k < r.len() && r[k] == e;
                    assert(u[k] == e);
                }
                if e == (x, c) {
                    assert(u[r.len() as int] == e);
                }
            }
        }
    }
}

/// Sorting by count keeps the entries.
proof fn lemma_sort_by_count_contains(s: Seq<(Seq<char>, nat)>)
    ensures
        forall|e: (Seq<char>, nat)| #[trigger] sort_by_count(s).contains(e) <==> s.contains(e),
    decreases s.len(),
{
    if s.len() > 0 {
        let d = s.drop_last();
        lemma_sort_by_count_contains(d);
        let r = sort_by_count(d);
        let x = s.last();
        let p = lemma_insert_by_count_pos(r, x);
        lemma_insert_by_count_at(r, x, p);
        let t = r.insert(p, x);
        assert forall|e: (Seq<char>, nat)| #[trigger] sort_by_count(s).contains(e) <==> s.contains(e) by {
            if t.contains(e) {
                let k = choose|k: int| 0 <= k < t.len() && t[k] == e;
                if k < p {
                    assert(r[k] == e);
                } else if k > p {
                    assert(r[k - 1] == e);
                }
                if e != x {
                    assert(r.contains(e));
                    let j = choose|j: int| 0 <= j < d.len() && d[j] == e;
                    assert(s[j] == e);
                } else {
                    assert(s[s.len() - 1] == e);
                }
            }
            if s.contains(e) {
                let k = choose|k: int| 0 <= k < s.len() && s[k] == e;
                if k < s.len() - 1 {
                    assert(d[k] == e);
                    assert(d.contains(e));
                    assert(sort_by_count(d).contains(e));
                    assert(r.contains(e));
                    let j = choose|j: int| 0 <= j < r.len() && r[j] == e;
                    if j < p {
                        assert(t[j] == e);
                    } else {
                        assert(t[j + 1] == e);
                    }
                } else {
                    assert(t[p] == e);
                }
            }
        }
    }
}

/// The tag figures count right: each entry is a tag of the store that
/// some note carries, with the number of notes that carry it, and every
/// tag that a note carries has an entry.
pub proof fn law_tag_counts(v: StoreView)
    requires
        v.wf(),
    ensures
        forall|e: (Seq<char>, nat)| #[trigger] top_tags(v).contains(e) ==> {
            &&& v.tags.contains(e.0)
            &&& e.1 > 0
            &&& e.1 == v.notes.filter(carries(e.0)).len()
        },
        forall|t: Seq<char>| v.tags.contains(t) && v.notes.filter(carries(t)).len() > 0 ==> #[trigger] top_tags(v).contains(
            (t, v.notes.filter(carries(t)).len()),
        ),
{
    crate::order::lemma_sort_lex(v.tags);
    let names = sort_lex(v.tags);
    lemma_usage_contains(names, v.notes);
    lemma_sort_by_count_contains(usage(names, v.notes));
    assert forall|e: (Seq<char>, nat)| #[trigger] top_tags(v).contains(e) implies v.tags.contains(e.0) && e.1 > 0 && e.1
        == v.notes.filter(carries(e.0)).len() by {
        lemma_count_is_filter(v.notes, e.0);
    }
    assert forall|t: Seq<char>| v.tags.contains(t) && v.notes.filter(carries(t)).len() > 0 implies #[trigger] top_tags(v).contains(
        (t, v.notes.filter(carries(t)).len()),
    ) by {
        lemma_count_is_filter(v.notes, t);
        assert(usage(names, v.notes).contains((t, notes_with_tag(v.notes, t))));
    }
}

} // verus!
