//! The order in which SQLite's `BINARY` collation sorts text, and sorting
//! a list of texts by it.
use vstd::prelude::*;
use crate::text::{chars_of, texts_view, copy_text};

verus! {

/// Whether `a` sorts before `b`: character codes compared from the left,
/// and a proper prefix first. On UTF-8 text this is the byte order that
/// `memcmp` gives.
pub open spec fn lex_lt(a: Seq<char>, b: Seq<char>) -> bool
    decreases a.len(),
{
    if a.len() == 0 {
        b.len() > 0
    } else if b.len() == 0 {
        false
    } else if a[0] != b[0] {
        (a[0] as u32) < (b[0] as u32)
    } else {
        lex_lt(a.drop_first(), b.drop_first())
    }
}

/// `x` put into `s` before the first element that does not sort before it.
pub open spec fn insert_lex(s: Seq<Seq<char>>, x: Seq<char>) -> Seq<Seq<char>>
    decreases s.len(),
{
    if s.len() == 0 {
        seq![x]
    } else if lex_lt(s[0], x) {
        seq![s[0]] + insert_lex(s.drop_first(), x)
    } else {
        seq![x] + s
    }
}

/// `s` sorted by `lex_lt`, by insertion in order.
pub open spec fn sort_lex(s: Seq<Seq<char>>) -> Seq<Seq<char>>
    decreases s.len(),
{
    if s.len() == 0 {
        s
    } else {
        insert_lex(sort_lex(s.drop_last()), s.last())
    }
}

/// Whether every element of `s` sorts strictly before every later one.
pub open spec fn strictly_ascending(s: Seq<Seq<char>>) -> bool {
    forall|i: int, j: int| 0 <= i < j < s.len() ==> lex_lt(s[i], s[j])
}

proof fn lemma_lex_step(a: Seq<char>, b: Seq<char>, i: int)
    requires
        0 <= i <= a.len(),
        0 <= i <= b.len(),
        a.take(i) == b.take(i),
    ensures
        lex_lt(a, b) == lex_lt(a.skip(i), b.skip(i)),
    decreases i,
{
    if i > 0 {
        assert(a[0] == a.take(i)[0]);
        assert(b[0] == b.take(i)[0]);
        assert(a.drop_first().take(i - 1) =~= a.take(i).drop_first());
        assert(b.drop_first().take(i - 1) =~= b.take(i).drop_first());
        lemma_lex_step(a.drop_first(), b.drop_first(), i - 1);
        assert(a.drop_first().skip(i - 1) =~= a.skip(i));
        assert(b.drop_first().skip(i - 1) =~= b.skip(i));
    } else {
        assert(a.skip(0) =~= a);
        assert(b.skip(0) =~= b);
    }
}

/// Whether `a` sorts before `b` by `lex_lt`.
pub fn text_less(a: &str, b: &str) -> (r: bool)
    ensures
        r == lex_lt(a@, b@),
{
    let x = chars_of(a);
    let y = chars_of(b);
    let mut i: usize = 0;
    while i < x.len() && i < y.len() && x[i] == y[i]
        invariant
            i <= x.len(),
            i <= y.len(),
            x@ == a@,
            y@ == b@,
            x@.take(i as int) == y@.take(i as int),
        decreases x.len() - i,
    {
        assert(x@.take(i + 1) =~= x@.take(i as int).push(x@[i as int]));
        assert(y@.take(i + 1) =~= y@.take(i as int).push(y@[i as int]));
        i = i + 1;
    }
    proof {
        lemma_lex_step(x@, y@, i as int);
        if i < x.len() && i < y.len() {
            assert(x@.skip(i as int)[0] == x@[i as int]);
            assert(y@.skip(i as int)[0] == y@[i as int]);
        }
    }
    if i == x.len() {
        i < y.len()
    } else if i == y.len() {
        false
    } else {
        (x[i] as u32) < (y[i] as u32)
    }
}

/// `insert_lex` inserts at the first position whose element does not sort
/// before `x`.
pub proof fn lemma_insert_lex_at(s: Seq<Seq<char>>, x: Seq<char>, p: int)
    requires
        0 <= p <= s.len(),
        forall|k: int| 0 <= k < p ==> lex_lt(s[k], x),
        p == s.len() || !lex_lt(s[p], x),
    ensures
        insert_lex(s, x) == s.insert(p, x),
    decreases p,
{
    if p == 0 {
        if s.len() == 0 {
            assert(s.insert(0, x) =~= seq![x]);
        } else {
            assert(s.insert(0, x) =~= seq![x] + s);
        }
    } else {
        let t = s.drop_first();
        assert forall|k: int| 0 <= k < p - 1 implies lex_lt(t[k], x) by {
            assert(t[k] == s[k + 1]);
        }
        if p < s.len() {
            assert(t[p - 1] == s[p]);
        }
        lemma_insert_lex_at(t, x, p - 1);
        assert(seq![s[0]] + t.insert(p - 1, x) =~= s.insert(p, x));
    }
}

/// The texts of `v` sorted by `lex_lt`.
pub fn sorted_texts(v: &Vec<String>) -> (r: Vec<String>)
    ensures
        texts_view(r@) == sort_lex(texts_view(v@)),
{
    let mut r: Vec<String> = Vec::new();
    let mut k: usize = 0;
    while k < v.len()
        invariant
            k <= v.len(),
            texts_view(r@) == sort_lex(texts_view(v@).take(k as int)),
        decreases v.len() - k,
    {
        let x = &v[k];
        let mut p: usize = 0;
        while p < r.len() && text_less(r[p].as_str(), x.as_str())
            invariant
                p <= r.len(),
                forall|j: int| 0 <= j < p ==> lex_lt(r@[j]@, x@),
            decreases r.len() - p,
        {
            p = p + 1;
        }
        let ghost before = texts_view(r@);
        proof {
            assert forall|j: int| 0 <= j < p implies lex_lt(before[j], x@) by {
                assert(before[j] == r@[j]@);
            }
            if p < r.len() {
                assert(before[p as int] == r@[p as int]@);
            }
            lemma_insert_lex_at(before, x@, p as int);
        }
        r.insert(p, copy_text(x.as_str()));
        proof {
            let t = texts_view(v@).take(k + 1);
            assert(t.drop_last() =~= texts_view(v@).take(k as int));
            assert(t.last() == x@);
            assert(texts_view(r@) =~= before.insert(p as int, x@));
        }
        k = k + 1;
    }
    assert(texts_view(v@).take(v.len() as int) =~= texts_view(v@));
    r
}

/// `lex_lt` is transitive.
pub proof fn lemma_lex_transitive(a: Seq<char>, b: Seq<char>, c: Seq<char>)
    requires
        lex_lt(a, b),
        lex_lt(b, c),
    ensures
        lex_lt(a, c),
    decreases a.len(),
{
    if a.len() > 0 && b.len() > 0 && c.len() > 0 && a[0] == b[0] && b[0] == c[0] {
        lemma_lex_transitive(a.drop_first(), b.drop_first(), c.drop_first());
    }
}

/// Of two different texts one sorts before the other, and not both ways.
pub proof fn lemma_lex_total(a: Seq<char>, b: Seq<char>)
    ensures
        a != b ==> lex_lt(a, b) || lex_lt(b, a),
        !(lex_lt(a, b) && lex_lt(b, a)),
    decreases a.len(),
{
    if a.len() > 0 && b.len() > 0 {
        if a[0] != b[0] {
            vstd::utf8::char_u32_cast(a[0], a[0] as u32);
            vstd::utf8::char_u32_cast(b[0], b[0] as u32);
        }
        if a[0] == b[0] {
            lemma_lex_total(a.drop_first(), b.drop_first());
            if a != b {
                assert(a.drop_first() != b.drop_first()) by {
                    if a.drop_first() == b.drop_first() {
                        assert(a =~= seq![a[0]] + a.drop_first());
                        assert(b =~= seq![b[0]] + b.drop_first());
                    }
                }
            }
        }
    } else if a.len() == 0 && b.len() == 0 {
        assert(a =~= b);
    }
}

/// A position where `insert_lex` puts `x`.
proof fn lemma_insert_lex_pos(s: Seq<Seq<char>>, x: Seq<char>) -> (p: int)
    ensures
        0 <= p <= s.len(),
        forall|k: int| 0 <= k < p ==> lex_lt(s[k], x),
        p == s.len() || !lex_lt(s[p], x),
    decreases s.len(),
{
    if s.len() == 0 || !lex_lt(s[0], x) {
        0
    } else {
        let t = s.drop_first();
        let q = lemma_insert_lex_pos(t, x);
        assert forall|k: int| 0 <= k < q + 1 implies lex_lt(s[k], x) by {
            if k > 0 {
                assert(s[k] == t[k - 1]);
            }
        }
        if q < t.len() {
            assert(s[q + 1] == t[q]);
        }
        q + 1
    }
}

/// Inserting a new text into an ascending list keeps it ascending.
pub proof fn lemma_insert_lex_ascending(s: Seq<Seq<char>>, x: Seq<char>)
    requires
        strictly_ascending(s),
        !s.contains(x),
    ensures
        strictly_ascending(insert_lex(s, x)),
        insert_lex(s, x).len() == s.len() + 1,
        forall|y: Seq<char>| #[trigger] insert_lex(s, x).contains(y) <==> s.contains(y) || y == x,
{
    let p = lemma_insert_lex_pos(s, x);
    lemma_insert_lex_at(s, x, p);
    let r = s.insert(p, x);
    assert forall|k: int| p <= k < s.len() implies lex_lt(x, s[k]) by {
        assert(s[p] != x);
        lemma_lex_total(s[p], x);
        if k > p {
            lemma_lex_transitive(x, s[p], s[k]);
        }
    }
    assert forall|i: int, j: int| 0 <= i < j < r.len() implies lex_lt(r[i], r[j]) by {
        if j < p {
            assert(r[i] == s[i] && r[j] == s[j]);
        } else if j == p {
            assert(r[i] == s[i]);
        } else if i < p {
            assert(r[i] == s[i] && r[j] == s[j - 1]);
            lemma_lex_transitive(s[i], x, s[j - 1]);
        } else if i == p {
            assert(r[j] == s[j - 1]);
        } else {
            assert(r[i] == s[i - 1] && r[j] == s[j - 1]);
        }
    }
    assert forall|y: Seq<char>| #[trigger] r.contains(y) <==> s.contains(y) || y == x by {
        if r.contains(y) {
            let k = choose|k: int| 0 <= k < r.len() && r[k] == y;
            if k < p {
                assert(s[k] == y);
            } else if k > p {
                assert(s[k - 1] == y);
            }
        }
        if s.contains(y) {
            let k = choose|k: int| 0 <= k < s.len() && s[k] == y;
            if k < p {
                assert(r[k] == y);
            } else {
                assert(r[k + 1] == y);
            }
        }
        if y == x {
            assert(r[p] == x);
        }
    }
}

/// Sorting distinct texts gives them all, once each, in ascending order.
pub proof fn lemma_sort_lex(s: Seq<Seq<char>>)
    requires
        s.no_duplicates(),
    ensures
        strictly_ascending(sort_lex(s)),
        sort_lex(s).len() == s.len(),
        forall|y: Seq<char>| #[trigger] sort_lex(s).contains(y) <==> s.contains(y),
    decreases s.len(),
{
    if s.len() > 0 {
        let d = s.drop_last();
        assert(d.no_duplicates()) by {
            assert forall|i: int, j: int| 0 <= i < d.len() && 0 <= j < d.len() && i != j implies d[i] != d[j] by {
                assert(d[i] == s[i] && d[j] == s[j]);
            }
        }
        lemma_sort_lex(d);
        assert(!d.contains(s.last())) by {
            if d.contains(s.last()) {
                let k = choose|k: int| 0 <= k < d.len() && d[k] == s.last();
                assert(s[k] == s[s.len() - 1]);
            }
        }
        lemma_insert_lex_ascending(sort_lex(d), s.last());
        assert forall|y: Seq<char>| #[trigger] s.contains(y) <==> d.contains(y) || y == s.last() by {
            if s.contains(y) {
                let k = choose|k: int| 0 <= k < s.len() && s[k] == y;
                if k < s.len() - 1 {
                    assert(d[k] == y);
                }
            }
            if d.contains(y) {
                let k = choose|k: int| 0 <= k < d.len() && d[k] == y;
                assert(s[k] == y);
            }
            if y == s.last() {
                assert(s[s.len() - 1] == y);
            }
        }
    }
}

} // verus!
