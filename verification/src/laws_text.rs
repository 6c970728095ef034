//! What holds of the command line's text rules: first lines, shortened
//! titles and previews, joined tags and the preview's header.
use vstd::prelude::*;
use crate::cli::{display_title, first_line, first_newline, join, preview, preview_header, take_chars, tags_suffix};
use crate::model::{str_len, NoteView};
use crate::cli::says_yes;
use crate::text::{ascii_lower, decimal, digit_char, digits, is_white_space, trim_end, trim_start, trimmed};

verus! {

/// Where the first line feed of `s` stands: before it no line feed, at it
/// a line feed unless it is the end.
proof fn lemma_first_newline(s: Seq<char>)
    ensures
        0 <= first_newline(s) <= s.len(),
        forall|j: int| 0 <= j < first_newline(s) ==> s[j] != '\n',
        first_newline(s) < s.len() ==> s[first_newline(s)] == '\n',
    decreases s.len(),
{
    if s.len() > 0 && s[0] != '\n' {
        let d = s.drop_first();
        lemma_first_newline(d);
        assert forall|j: int| 0 <= j < first_newline(s) implies s[j] != '\n' by {
            if j > 0 {
                assert(s[j] == d[j - 1]);
            }
        }
        if first_newline(s) < s.len() {
            assert(s[first_newline(s)] == d[first_newline(d)]);
        }
    }
}

/// The first line of a text is where it begins, holds no line feed, and
/// ends at the first line feed (leaving out a carriage return just before
/// it) or at the end of the text.
pub proof fn law_first_line(s: Seq<char>)
    ensures
        ({
            let r = first_line(s);
            &&& r.len() <= s.len()
            &&& r == s.take(r.len() as int)
            &&& !r.contains('\n')
            &&& !s.contains('\n') ==> r == s
            &&& s.contains('\n') ==> {
                ||| s[r.len() as int] == '\n' && (r.len() == 0 || r.last() != '\r')
                ||| r.len() + 1 < s.len() && s[r.len() as int] == '\r' && s[r.len() + 1int] == '\n'
            }
        }),
{
    lemma_first_newline(s);
    let k = first_newline(s);
    let r = first_line(s);
    if r.contains('\n') {
        let j = choose|j: int| 0 <= j < r.len() && r[j] == '\n';
        assert(s[j] == '\n');
    }
    if !s.contains('\n') {
        if k < s.len() {
            assert(s[k] == '\n');
        }
        assert(s.take(k) =~= s);
    }
    if s.contains('\n') {
        if k == s.len() {
            let j = choose|j: int| 0 <= j < s.len() && s[j] == '\n';
            assert(s[j] != '\n');
        }
    }
}

/// Shortening keeps the first `n` characters, or all of a shorter text.
pub proof fn law_take_chars(s: Seq<char>, n: nat)
    ensures
        take_chars(s, n).len() == (if n < s.len() { n } else { s.len() }),
        take_chars(s, n) == s.take(take_chars(s, n).len() as int),
{
    if n >= s.len() {
        assert(s.take(s.len() as int) =~= s);
    }
}

/// A note is named in lists by its title, or else by the first 20
/// characters of its body's first line; its preview is the first 40
/// characters of that line.
pub proof fn law_list_names(n: NoteView)
    ensures
        n.title matches Some(t) ==> display_title(n) == t,
        n.title is None ==> display_title(n) == take_chars(first_line(n.body), 20),
        n.title is None ==> display_title(n).len() <= 20,
        preview(n) == take_chars(first_line(n.body), 40),
        preview(n).len() <= 40,
        preview(n) == first_line(n.body).take(preview(n).len() as int),
{
    law_take_chars(first_line(n.body), 20);
    law_take_chars(first_line(n.body), 40);
}

/// Joining puts the separator between each two parts, and nowhere else.
pub proof fn law_join(parts: Seq<Seq<char>>, x: Seq<char>, sep: Seq<char>)
    ensures
        join(Seq::empty(), sep) == Seq::<char>::empty(),
        join(seq![x], sep) == x,
        parts.len() > 0 ==> join(parts.push(x), sep) == join(parts, sep) + sep + x,
{
    assert(parts.push(x).drop_last() =~= parts);
}

/// A note's tags as a list shows them: nothing without tags, else ` [`,
/// the tags joined by `, `, and `]`.
pub proof fn law_tags_suffix(n: NoteView)
    ensures
        n.tags.len() == 0 ==> tags_suffix(n) == Seq::<char>::empty(),
        n.tags.len() > 0 ==> tags_suffix(n) == " ["@ + join(n.tags, ", "@) + "]"@,
{
}

/// The preview's header is the meta line (tags, or `No tags`, the source
/// and the update time), a line feed, and as many `-` as the meta line
/// has bytes.
pub proof fn law_preview_header(tags: Seq<Seq<char>>, source: Seq<char>, updated: Seq<char>)
    ensures
        ({
            let m = "Tags: "@ + (if tags.len() == 0 { "No tags"@ } else { join(tags, ", "@) }) + " | Source: "@ + source
                + " | Updated: "@ + updated;
            &&& preview_header(tags, source, updated) == m + "\n"@ + Seq::new(str_len(m) as nat, |_i: int| '-')
        }),
{
}

/// An ASCII answer to "delete?" says yes exactly when, trimmed, it is `y`
/// or `Y`.
pub proof fn law_yes_answer(response: Seq<char>)
    requires
        vstd::utf8::is_ascii_chars(trimmed(response)),
    ensures
        says_yes(response) <==> (trimmed(response) == "y"@ || trimmed(response) == "Y"@),
{
    reveal_strlit("y");
    reveal_strlit("Y");
    let t = trimmed(response);
    if ascii_lower(t) == "y"@ {
        assert(ascii_lower(t).len() == t.len());
        assert("y"@.len() == 1);
        assert(t.len() == 1);
        assert(ascii_lower(t)[0] == 'y');
        assert(ascii_lower(t)[0] == crate::text::ascii_lower_char(t[0]));
        if t[0] == 'y' {
            assert(t =~= "y"@);
        } else {
            assert(t[0] == 'Y');
            assert(t =~= "Y"@);
        }
    }
    if t == "y"@ {
        assert(ascii_lower(t) =~= "y"@);
    }
    if t == "Y"@ {
        assert(ascii_lower(t) =~= "y"@);
    }
}

/// Trimming takes white space off both ends and nothing else: the text is
/// some white space, the trimmed text, and some white space, and the
/// trimmed text neither starts nor ends with white space.
pub proof fn law_trimmed(s: Seq<char>)
    ensures
        ({
            let t = trimmed(s);
            &&& t.len() > 0 ==> !is_white_space(t[0]) && !is_white_space(t.last())
            &&& exists|i: int| #![trigger s.subrange(i, i + t.len())]
                0 <= i && i + t.len() <= s.len() && s.subrange(i, i + t.len()) == t
                && (forall|k: int| 0 <= k < i ==> is_white_space(#[trigger] s[k]))
                && (forall|k: int| i + t.len() <= k < s.len() ==> is_white_space(#[trigger] s[k]))
        }),
{
    let i = lemma_trim_start_at(s);
    let u = trim_start(s);
    let j = lemma_trim_end_at(u);
    let t = trimmed(s);
    assert(t == u.take(j));
    assert(s.subrange(i, i + t.len()) =~= t);
    assert forall|k: int| i + t.len() <= k < s.len() implies is_white_space(#[trigger] s[k]) by {
        assert(s[k] == u[k - i]);
    }
    if t.len() > 0 {
        assert(t[0] == u[0]);
    }
}

/// Where leading white space ends.
proof fn lemma_trim_start_at(s: Seq<char>) -> (i: int)
    ensures
        0 <= i <= s.len(),
        trim_start(s) == s.skip(i),
        forall|k: int| 0 <= k < i ==> is_white_space(#[trigger] s[k]),
        i < s.len() ==> !is_white_space(s[i]),
    decreases s.len(),
{
    if s.len() > 0 && is_white_space(s[0]) {
        let d = s.drop_first();
        let j = lemma_trim_start_at(d);
        assert(d.skip(j) =~= s.skip(j + 1));
        assert forall|k: int| 0 <= k < j + 1 implies is_white_space(#[trigger] s[k]) by {
            if k > 0 {
                assert(s[k] == d[k - 1]);
            }
        }
        if j + 1 < s.len() {
            assert(s[j + 1] == d[j]);
        }
        j + 1
    } else {
        assert(s.skip(0) =~= s);
        0
    }
}

/// Where trailing white space begins.
proof fn lemma_trim_end_at(s: Seq<char>) -> (j: int)
    ensures
        0 <= j <= s.len(),
        trim_end(s) == s.take(j),
        forall|k: int| j <= k < s.len() ==> is_white_space(#[trigger] s[k]),
        j > 0 ==> !is_white_space(s[j - 1]),
    decreases s.len(),
{
    if s.len() > 0 && is_white_space(s.last()) {
        let d = s.drop_last();
        let j = lemma_trim_end_at(d);
        assert(d.take(j) =~= s.take(j));
        assert forall|k: int| j <= k < s.len() implies is_white_space(#[trigger] s[k]) by {
            if k < s.len() - 1 {
                assert(s[k] == d[k]);
            }
        }
        if j > 0 {
            assert(s[j - 1] == d[j - 1]);
        }
        j
    } else {
        assert(s.take(s.len() as int) =~= s);
        s.len() as int
    }
}

/// `Display` writes an integer as its decimal digits without leading
/// zeros, after a minus sign when it is negative; read back, the digits
/// give its value.
pub proof fn law_decimal(n: int)
    ensures
        n >= 0 ==> digits_value(decimal(n)) == n && (decimal(n)[0] != '0' || decimal(n).len() == 1),
        n < 0 ==> decimal(n)[0] == '-' && digits_value(decimal(n).drop_first()) == -n,
        forall|k: int| (n >= 0 ==> 0 <= k) && (n < 0 ==> 1 <= k) && k < decimal(n).len() ==> '0' <= #[trigger] decimal(n)[k] <= '9',
{
    if n >= 0 {
        lemma_digits(n as nat);
    } else {
        lemma_digits((-n) as nat);
        assert(decimal(n).drop_first() =~= digits((-n) as nat));
        assert forall|k: int| 1 <= k < decimal(n).len() implies '0' <= #[trigger] decimal(n)[k] <= '9' by {
            assert(decimal(n)[k] == digits((-n) as nat)[k - 1]);
        }
    }
}

/// The value of a run of decimal digits.
pub open spec fn digits_value(s: Seq<char>) -> int
    decreases s.len(),
{
    if s.len() == 0 {
        0
    } else {
        digits_value(s.drop_last()) * 10 + (s.last() as int - '0' as int)
    }
}

proof fn lemma_digits(n: nat)
    ensures
        digits_value(digits(n)) == n,
        digits(n).len() >= 1,
        n >= 10 ==> digits(n).len() >= 2,
        digits(n)[0] != '0' || digits(n).len() == 1,
        forall|k: int| 0 <= k < digits(n).len() ==> '0' <= #[trigger] digits(n)[k] <= '9',
    decreases n,
{
    if n < 10 {
        assert(digits(n).drop_last() =~= Seq::<char>::empty());
        assert(digit_char(n) as int - '0' as int == n);
        assert(digits_value(digits(n)) == digits_value(Seq::<char>::empty()) * 10 + (digit_char(n) as int - '0' as int));
    } else {
        lemma_digits(n / 10);
        let d = digits(n / 10);
        assert(digits(n).drop_last() =~= d);
        assert(digit_char(n % 10) as int - '0' as int == n % 10);
        assert(digits(n)[0] == d[0]);
        assert forall|k: int| 0 <= k < digits(n).len() implies '0' <= #[trigger] digits(n)[k] <= '9' by {
            if k < d.len() {
                assert(digits(n)[k] == d[k]);
            }
        }
        assert(n / 10 * 10 + n % 10 == n) by (nonlinear_arith);
        assert(digits_value(digits(n)) == digits_value(d) * 10 + (digit_char(n % 10) as int - '0' as int));
        if n / 10 < 10 {
            let m = n / 10;
            assert(1 <= m <= 9);
            assert(d[0] == digit_char(m));
            assert(digit_char(m) as int - '0' as int == m);
            assert(digits(n)[0] != '0');
        } else {
            assert(d.len() >= 2);
            assert(d[0] != '0');
        }
    }
}

} // verus!
