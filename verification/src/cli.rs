//! The decisions of the command line: how notes are shown in lists, what
//! confirms a deletion, and what input becomes a note.
use vstd::prelude::*;
use crate::fts::{opt_str_view, row_fits};
use crate::model::{str_len, DbError, NoteView};
use crate::store::{now_micros, Database, Note};
use crate::text::{
    ascii_lower,    chars_of, copy_text, lowercase, push_str, string_of, text_eq, texts_view, to_lowercase, trim, trimmed,
};

verus! {

/// The index of the first line feed of `s`, or its length.
pub open spec fn first_newline(s: Seq<char>) -> int
    decreases s.len(),
{
    if s.len() == 0 {
        0
    } else if s[0] == '\n' {
        0
    } else {
        1 + first_newline(s.drop_first())
    }
}

/// The first line of `s`, as `str::lines` gives it: the text before the
/// first line feed, without a carriage return just before that feed; all of
/// `s` when it has no line feed; empty for an empty text.
pub open spec fn first_line(s: Seq<char>) -> Seq<char> {
    let k = first_newline(s);
    if 0 < k < s.len() && s[k - 1] == '\r' {
        s.take(k - 1)
    } else {
        s.take(k)
    }
}

/// At most the first `n` characters of `s`.
pub open spec fn take_chars(s: Seq<char>, n: nat) -> Seq<char> {
    if n < s.len() {
        s.take(n as int)
    } else {
        s
    }
}

/// How a note is named in lists: its title, else the first 20 characters
/// of its body's first line.
pub open spec fn display_title(n: NoteView) -> Seq<char> {
    match n.title {
        Some(t) => t,
        None => take_chars(first_line(n.body), 20),
    }
}

/// A note's preview in lists: the first 40 characters of its body's first
/// line.
pub open spec fn preview(n: NoteView) -> Seq<char> {
    take_chars(first_line(n.body), 40)
}

/// The parts with `sep` between each two.
pub open spec fn join(parts: Seq<Seq<char>>, sep: Seq<char>) -> Seq<char>
    decreases parts.len(),
{
    if parts.len() == 0 {
        Seq::empty()
    } else if parts.len() == 1 {
        parts[0]
    } else {
        join(parts.drop_last(), sep) + sep + parts.last()
    }
}

proof fn lemma_first_newline(s: Seq<char>, k: int)
    requires
        0 <= k <= s.len(),
        forall|j: int| 0 <= j < k ==> s[j] != '\n',
        k == s.len() || s[k] == '\n',
    ensures
        first_newline(s) == k,
    decreases k,
{
    if k > 0 {
        let t = s.drop_first();
        assert forall|j: int| 0 <= j < k - 1 implies t[j] != '\n' by {
            assert(t[j] == s[j + 1]);
        }
        if k < s.len() {
            assert(t[k - 1] == s[k]);
        }
        lemma_first_newline(t, k - 1);
    }
}

/// The first line of `s` (see `first_line`).
pub fn first_line_of(s: &str) -> (r: String)
    ensures
        r@ == first_line(s@),
{
    let cs = chars_of(s);
    let mut k: usize = 0;
    while k < cs.len() && cs[k] != '\n'
        invariant
            k <= cs.len(),
            cs@ == s@,
            forall|j: int| 0 <= j < k ==> cs@[j] != '\n',
        decreases cs.len() - k,
    {
        k = k + 1;
    }
    proof {
        lemma_first_newline(s@, k as int);
    }
    let end = if 0 < k && k < cs.len() && cs[k - 1] == '\r' {
        k - 1
    } else {
        k
    };
    let mut line: Vec<char> = Vec::new();
    let mut j: usize = 0;
    while j < end
        invariant
            j <= end,
            end <= cs.len(),
            line@ == cs@.take(j as int),
        decreases end - j,
    {
        line.push(cs[j]);
        j = j + 1;
        assert(line@ =~= cs@.take(j as int));
    }
    string_of(&line)
}

/// At most the first `n` characters of `s`.
pub fn take_chars_of(s: &str, n: usize) -> (r: String)
    ensures
        r@ == take_chars(s@, n as nat),
{
    let cs = chars_of(s);
    let end = if n < cs.len() {
        n
    } else {
        cs.len()
    };
    let mut part: Vec<char> = Vec::new();
    let mut j: usize = 0;
    while j < end
        invariant
            j <= end,
            end <= cs.len(),
            part@ == cs@.take(j as int),
        decreases end - j,
    {
        part.push(cs[j]);
        j = j + 1;
        assert(part@ =~= cs@.take(j as int));
    }
    assert(end == cs.len() ==> cs@.take(end as int) =~= cs@);
    string_of(&part)
}

/// How a note is named in lists (see `display_title`).
pub fn display_title_of(n: &Note) -> (r: String)
    ensures
        r@ == display_title(n@),
{
    match &n.title {
        Some(t) => t.clone(),
        None => take_chars_of(first_line_of(n.body.as_str()).as_str(), 20),
    }
}

/// A note's preview in lists (see `preview`).
pub fn preview_of(n: &Note) -> (r: String)
    ensures
        r@ == preview(n@),
{
    take_chars_of(first_line_of(n.body.as_str()).as_str(), 40)
}

/// The texts with `sep` between each two.
pub fn join_texts(parts: &Vec<String>, sep: &str) -> (r: String)
    ensures
        r@ == join(texts_view(parts@), sep@),
{
    let mut r = String::new();
    let mut k: usize = 0;
    while k < parts.len()
        invariant
            k <= parts.len(),
            r@ == join(texts_view(parts@).take(k as int), sep@),
        decreases parts.len() - k,
    {
        let ghost t = texts_view(parts@).take(k + 1);
        proof {
            assert(t.drop_last() =~= texts_view(parts@).take(k as int));
            assert(t.last() == parts@[k as int]@);
        }
        if k > 0 {
            push_str(&mut r, sep);
        } else {
            assert(t =~= seq![parts@[0]@]);
        }
        push_str(&mut r, parts[k].as_str());
        k = k + 1;
    }
    assert(texts_view(parts@).take(parts.len() as int) =~= texts_view(parts@));
    r
}

/// The tags of a note as a list shows them after its title: nothing when
/// it has none, else ` [` and the tags joined by `, ` and `]`.
pub open spec fn tags_suffix(n: NoteView) -> Seq<char> {
    if n.tags.len() == 0 {
        Seq::empty()
    } else {
        " ["@ + join(n.tags, ", "@) + "]"@
    }
}

/// The tags as the dashboard's preview names them: `No tags` when there
/// are none, else the tags joined by `, `.
pub open spec fn tags_label(tags: Seq<Seq<char>>) -> Seq<char> {
    if tags.len() == 0 {
        "No tags"@
    } else {
        join(tags, ", "@)
    }
}

/// The line above the preview of a note with these tags, source and update
/// time (as shown).
pub open spec fn meta_line(tags: Seq<Seq<char>>, source: Seq<char>, updated: Seq<char>) -> Seq<char> {
    "Tags: "@ + tags_label(tags) + " | Source: "@ + source + " | Updated: "@ + updated
}

/// The preview's header: the meta line, and under it as many `-` as the
/// line has bytes.
pub open spec fn preview_header(tags: Seq<Seq<char>>, source: Seq<char>, updated: Seq<char>) -> Seq<char> {
    let m = meta_line(tags, source, updated);
    m + "\n"@ + Seq::new(str_len(m) as nat, |_i: int| '-')
}

/// The preview's header for a note with these tags and source, updated at
/// the time shown as `updated` (see `preview_header`).
pub fn preview_header_of(tags: &Vec<String>, source: &str, updated: &str) -> (r: String)
    ensures
        r@ == preview_header(texts_view(tags@), source@, updated@),
{
    let mut meta = copy_text("Tags: ");
    if tags.len() == 0 {
        push_str(&mut meta, "No tags");
    } else {
        push_str(&mut meta, join_texts(tags, ", ").as_str());
    }
    push_str(&mut meta, " | Source: ");
    push_str(&mut meta, source);
    push_str(&mut meta, " | Updated: ");
    push_str(&mut meta, updated);
    let ghost m = meta@;
    let n = meta.as_str().len();
    let mut r = meta;
    r.push('\n');
    proof {
        reveal_strlit("\n");
    }
    assert(r@ =~= m + "\n"@ + Seq::new(0, |_i: int| '-'));
    let mut k: usize = 0;
    while k < n
        invariant
            k <= n,
            n == str_len(m),
            r@ == m + "\n"@ + Seq::new(k as nat, |_i: int| '-'),
        decreases n - k,
    {
        r.push('-');
        k = k + 1;
        assert(r@ =~= m + "\n"@ + Seq::new(k as nat, |_i: int| '-'));
    }
    r
}

/// The tags of a note as a list shows them (see `tags_suffix`).
pub fn tags_suffix_of(n: &Note) -> (r: String)
    ensures
        r@ == tags_suffix(n@),
{
    if n.tags.len() == 0 {
        String::new()
    } else {
        let mut r = copy_text(" [");
        push_str(&mut r, join_texts(&n.tags, ", ").as_str());
        push_str(&mut r, "]");
        r
    }
}

/// A note's title where one note is shown in full: its title, else
/// `Untitled`.
pub fn title_or_untitled(n: &Note) -> (r: String)
    ensures
        r@ == match n@.title {
            Some(t) => t,
            None => "Untitled"@,
        },
{
    match &n.title {
        Some(t) => t.clone(),
        None => copy_text("Untitled"),
    }
}

/// Whether an answer is `y` once trimmed and lowercased (for ASCII text,
/// its capitals made small).
pub open spec fn says_yes(response: Seq<char>) -> bool {
    let t = trimmed(response);
    if vstd::utf8::is_ascii_chars(t) {
        ascii_lower(t) == "y"@
    } else {
        lowercase(t) == "y"@
    }
}

/// Whether the answer to "delete?" says yes: `y`, once trimmed and
/// lowercased.
pub fn confirms_deletion(response: &str) -> (r: bool)
    ensures
        r == (lowercase(trimmed(response@)) == "y"@),
        r == says_yes(response@),
{
    text_eq(to_lowercase(trim(response).as_str()).as_str(), "y")
}

/// What was read from standard input for a new note: the text trimmed.
pub fn stdin_content(buffer: &str) -> (r: String)
    ensures
        r@ == trimmed(buffer@),
{
    trim(buffer)
}

/// Why input did not become a note.
#[derive(Debug)]
pub enum InputError {
    /// There was nothing to save.
    Empty,
    /// The store refused it.
    Db(DbError),
}

/// Saves `content` as a new note made now, unless it is empty.
pub fn save_input(db: &mut Database, content: &str, title: Option<&str>, source: &str, tags: &[String]) -> (r: Result<i64, InputError>)
    requires
        old(db).wf(),
    ensures
        final(db).wf(),
        content@.len() == 0 ==> r is Err && r->Err_0 is Empty && final(db)@ == old(db)@,
        content@.len() > 0 ==> match r {
            Ok(id) => {
                &&& old(db)@.create_error(content@) is None
                &&& exists|t: i64| #[trigger] old(db)@.create(content@, opt_str_view(title), source@, texts_view(tags@), t) == (final(db)@, id)
            },
            Err(InputError::Db(DbError::Index(_))) => {
                &&& old(db)@.create_error(content@) is None
                &&& !row_fits(content@, opt_str_view(title))
                &&& final(db)@ == old(db)@
            },
            Err(InputError::Db(e)) => old(db)@.create_error(content@) == Some(e) && final(db)@ == old(db)@,
            Err(InputError::Empty) => false,
        },
{
    let now = now_micros();
    save_input_at(db, content, title, source, tags, now)
}

/// Saves `content` as a new note made at time `now`, unless it is empty.
pub fn save_input_at(
    db: &mut Database,
    content: &str,
    title: Option<&str>,
    source: &str,
    tags: &[String],
    now: i64,
) -> (r: Result<i64, InputError>)
    requires
        old(db).wf(),
    ensures
        final(db).wf(),
        content@.len() == 0 ==> r is Err && r->Err_0 is Empty && final(db)@ == old(db)@,
        content@.len() > 0 ==> match r {
            Ok(id) => {
                &&& old(db)@.create_error(content@) is None
                &&& old(db)@.create(content@, opt_str_view(title), source@, texts_view(tags@), now) == (final(db)@, id)
            },
            Err(InputError::Db(DbError::Index(_))) => {
                &&& old(db)@.create_error(content@) is None
                &&& !row_fits(content@, opt_str_view(title))
                &&& final(db)@ == old(db)@
            },
            Err(InputError::Db(e)) => old(db)@.create_error(content@) == Some(e) && final(db)@ == old(db)@,
            Err(InputError::Empty) => false,
        },
{
    if content.is_empty() {
        return Err(InputError::Empty);
    }
    match db.create_note_at(content, title, source, tags, now) {
        Ok(id) => Ok(id),
        Err(e) => Err(InputError::Db(e)),
    }
}

/// Saves what the user made of a note's body in the editor, now: the trimmed
/// text replaces the body when it differs. `Ok(true)` when the note was
/// updated, `Ok(false)` when there was no change.
pub fn save_edit(db: &mut Database, note: &Note, edited: &str) -> (r: Result<bool, DbError>)
    requires
        old(db).wf(),
    ensures
        final(db).wf(),
        trimmed(edited@) == note@.body ==> r == Ok::<bool, DbError>(false) && final(db)@ == old(db)@,
        trimmed(edited@) != note@.body ==> match r {
            Ok(changed) => {
                &&& changed
                &&& old(db)@.update_error(note.id, trimmed(edited@)) is None
                &&& exists|t: i64| #[trigger] old(db)@.update(note.id, trimmed(edited@), note@.title, note@.tags, t) == final(db)@
            },
            Err(DbError::Index(_)) => {
                &&& old(db)@.update_error(note.id, trimmed(edited@)) is None
                &&& !row_fits(trimmed(edited@), note@.title)
                &&& final(db)@ == old(db)@
            },
            Err(e) => old(db)@.update_error(note.id, trimmed(edited@)) == Some(e) && final(db)@ == old(db)@,
        },
{
    let now = now_micros();
    save_edit_at(db, note, edited, now)
}

/// Saves what the user made of a note's body in the editor at time `now`:
/// the trimmed
/// text replaces the body when it differs. `Ok(true)` when the note was
/// updated, `Ok(false)` when there was no change.
pub fn save_edit_at(db: &mut Database, note: &Note, edited: &str, now: i64) -> (r: Result<bool, DbError>)
    requires
        old(db).wf(),
    ensures
        final(db).wf(),
        trimmed(edited@) == note@.body ==> r == Ok::<bool, DbError>(false) && final(db)@ == old(db)@,
        trimmed(edited@) != note@.body ==> match r {
            Ok(changed) => {
                &&& changed
                &&& old(db)@.update_error(note.id, trimmed(edited@)) is None
                &&& old(db)@.update(note.id, trimmed(edited@), note@.title, note@.tags, now) == final(db)@
            },
            Err(DbError::Index(_)) => {
                &&& old(db)@.update_error(note.id, trimmed(edited@)) is None
                &&& !row_fits(trimmed(edited@), note@.title)
                &&& final(db)@ == old(db)@
            },
            Err(e) => old(db)@.update_error(note.id, trimmed(edited@)) == Some(e) && final(db)@ == old(db)@,
        },
{
    let cut = trim(edited);
    let body = cut.as_str();
    if text_eq(body, note.body.as_str()) {
        return Ok(false);
    }
    let title = match &note.title {
        Some(t) => Some(t.as_str()),
        None => None,
    };
    assert(opt_str_view(title) == note@.title);
    db.update_note_at(note.id, body, title, note.tags.as_slice(), now)?;
    Ok(true)
}

/// The program that reaches the clipboard and its arguments: under Wayland
/// `wl-copy`, or `wl-paste -n` to read; elsewhere `xclip -selection
/// clipboard`, with `-o` to read.
pub fn clipboard_command(wayland: bool, reading: bool) -> (r: (String, Vec<String>))
    ensures
        r.0@ == (if wayland {
            if reading { "wl-paste"@ } else { "wl-copy"@ }
        } else {
            "xclip"@
        }),
        texts_view(r.1@) == (if wayland {
            if reading { seq!["-n"@] } else { Seq::<Seq<char>>::empty() }
        } else if reading {
            seq!["-selection"@, "clipboard"@, "-o"@]
        } else {
            seq!["-selection"@, "clipboard"@]
        }),
{
    let mut args: Vec<String> = Vec::new();
    if wayland {
        if reading {
            args.push(copy_text("-n"));
            assert(texts_view(args@) =~= seq!["-n"@]);
            (copy_text("wl-paste"), args)
        } else {
            assert(texts_view(args@) =~= Seq::<Seq<char>>::empty());
            (copy_text("wl-copy"), args)
        }
    } else {
        args.push(copy_text("-selection"));
        args.push(copy_text("clipboard"));
        if reading {
            args.push(copy_text("-o"));
            assert(texts_view(args@) =~= seq!["-selection"@, "clipboard"@, "-o"@]);
        } else {
            assert(texts_view(args@) =~= seq!["-selection"@, "clipboard"@]);
        }
        (copy_text("xclip"), args)
    }
}

} // verus!
