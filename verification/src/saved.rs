//! How the store lies in the rows of its saved file: tag rows numbered in
//! the order the tags were made, each note's tags as those numbers, and
//! the next id read back from the saved id counter.
use vstd::prelude::*;
use crate::text::{copy_text, text_eq, texts_view};

verus! {

/// The next id of a store read back from its file: one past the larger of
/// the saved id counter and the largest saved note id (each 0 when
/// missing), at most `i64::MAX`.
pub open spec fn saved_next_id(seq: Option<i64>, max_id: Option<i64>) -> i64 {
    let a: int = match seq {
        Some(v) => v as int,
        None => 0,
    };
    let b: int = match max_id {
        Some(v) => v as int,
        None => 0,
    };
    let m = if a >= b { a } else { b };
    if m >= i64::MAX { i64::MAX } else { (m + 1) as i64 }
}

/// The next id of a store read back from its file (see `saved_next_id`).
pub fn next_id_from_saved(seq: Option<i64>, max_id: Option<i64>) -> (r: i64)
    ensures
        r == saved_next_id(seq, max_id),
{
    let a: i64 = match seq {
        Some(v) => v,
        None => 0,
    };
    let b: i64 = match max_id {
        Some(v) => v,
        None => 0,
    };
    let m = if a >= b { a } else { b };
    if m == i64::MAX {
        i64::MAX
    } else {
        m + 1
    }
}

/// Whether `k` is the first position of `t` in `s`.
pub open spec fn first_at(s: Seq<Seq<char>>, t: Seq<char>, k: int) -> bool {
    &&& 0 <= k < s.len()
    &&& s[k] == t
    &&& forall|j: int| 0 <= j < k ==> s[j] != t
}

/// The row number of the tag `t` among the store's tags `s`: one past its
/// first position.
pub open spec fn tag_row(s: Seq<Seq<char>>, t: Seq<char>) -> i64 {
    ((choose|k: int| first_at(s, t, k)) + 1) as i64
}

/// The row numbers of a note's tags `note`, in order, leaving out any tag
/// the store lacks.
pub open spec fn tag_row_ids(s: Seq<Seq<char>>, note: Seq<Seq<char>>) -> Seq<i64>
    decreases note.len(),
{
    if note.len() == 0 {
        Seq::empty()
    } else {
        let r = tag_row_ids(s, note.drop_last());
        if s.contains(note.last()) {
            r.push(tag_row(s, note.last()))
        } else {
            r
        }
    }
}

/// The tag rows of the saved file: each tag with its row number, one past
/// its position.
pub fn tag_rows(tags: &Vec<String>) -> (r: Vec<(i64, String)>)
    requires
        tags.len() < i64::MAX,
    ensures
        r.len() == tags.len(),
        forall|k: int| 0 <= k < r.len() ==> #[trigger] r@[k].0 == k + 1 && r@[k].1@ == tags@[k]@,
{
    let mut r: Vec<(i64, String)> = Vec::new();
    let mut k: usize = 0;
    while k < tags.len()
        invariant
            k <= tags.len(),
            tags.len() < i64::MAX,
            r.len() == k,
            forall|j: int| 0 <= j < k ==> #[trigger] r@[j].0 == j + 1 && r@[j].1@ == tags@[j]@,
        decreases tags.len() - k,
    {
        let id: i64 = (k + 1) as i64;
        r.push((id, copy_text(tags[k].as_str())));
        k = k + 1;
    }
    r
}

/// The row number of `t` among `tags`, if it is there.
fn row_of(tags: &Vec<String>, t: &String) -> (r: Option<i64>)
    requires
        tags.len() < i64::MAX,
    ensures
        match r {
            Some(id) => texts_view(tags@).contains(t@) && id == tag_row(texts_view(tags@), t@),
            None => !texts_view(tags@).contains(t@),
        },
{
    let ghost s = texts_view(tags@);
    let mut k: usize = 0;
    while k < tags.len()
        invariant
            k <= tags.len(),
            s == texts_view(tags@),
            forall|j: int| 0 <= j < k ==> s[j] != t@,
        decreases tags.len() - k,
    {
        if text_eq(tags[k].as_str(), t.as_str()) {
            proof {
                assert(first_at(s, t@, k as int));
                let c = choose|c: int| first_at(s, t@, c);
                assert(c == k);
                assert(s.contains(t@));
            }
            return Some((k + 1) as i64);
        }
        k = k + 1;
    }
    proof {
        if s.contains(t@) {
            let c = choose|c: int| 0 <= c < s.len() && s[c] == t@;
            assert(s[c] != t@);
        }
    }
    None
}

/// The tag row numbers of a note with tags `note_tags` (see
/// `tag_row_ids`).
pub fn note_tag_rows(tags: &Vec<String>, note_tags: &Vec<String>) -> (r: Vec<i64>)
    requires
        tags.len() < i64::MAX,
    ensures
        r@ == tag_row_ids(texts_view(tags@), texts_view(note_tags@)),
{
    let ghost s = texts_view(tags@);
    let mut r: Vec<i64> = Vec::new();
    let mut k: usize = 0;
    while k < note_tags.len()
        invariant
            k <= note_tags.len(),
            tags.len() < i64::MAX,
            s == texts_view(tags@),
            r@ == tag_row_ids(s, texts_view(note_tags@).take(k as int)),
        decreases note_tags.len() - k,
    {
        let ghost t = texts_view(note_tags@).take(k + 1);
        proof {
            assert(t.drop_last() =~= texts_view(note_tags@).take(k as int));
            assert(t.last() == note_tags@[k as int]@);
        }
        match row_of(tags, &note_tags[k]) {
            Some(id) => {
                r.push(id);
            },
            None => {},
        }
        k = k + 1;
    }
    assert(texts_view(note_tags@).take(note_tags.len() as int) =~= texts_view(note_tags@));
    r
}

/// The id counter saved for a store with next id `next_id` reads back
/// as that next id, whatever note ids below it were saved with it.
pub proof fn law_saved_next_id_round_trip(next_id: i64, max_id: Option<i64>)
    requires
        1 <= next_id,
        max_id matches Some(m) ==> m < next_id,
    ensures
        saved_next_id(Some((next_id - 1) as i64), max_id) == next_id,
{
}

} // verus!
