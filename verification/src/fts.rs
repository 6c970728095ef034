//! The full-text index of the note store: an SQLite FTS5 table held in an
//! in-memory database, with one row per note (its body and its title), and
//! the phrase-prefix query that the search sends it.
use vstd::prelude::*;
use crate::text::byte_len;

verus! {

#[verifier::external_type_specification]
#[verifier::external_body]
pub struct ExConnection(rusqlite::Connection);

/// The rows of the `notes_fts` table that the connection holds, by rowid:
/// each row's `body` and `title` columns (`None` for SQL `NULL`).
pub uninterp spec fn fts_rows(conn: rusqlite::Connection) -> Map<i64, (Seq<char>, Option<Seq<char>>)>;

/// Whether the FTS5 expression `query` matches a row whose columns are
/// `body` and `title`, as FTS5's `unicode61` tokenizer and query language
/// decide it.
pub uninterp spec fn fts_match(query: Seq<char>, body: Seq<char>, title: Option<Seq<char>>) -> bool;

/// Whether the connection holds the `notes_fts` table, made by
/// `index_create`.
pub uninterp spec fn fts_ready(conn: rusqlite::Connection) -> bool;

/// Whether SQLite takes `query` as the right side of a `MATCH` on the
/// table: FTS5 reads it as a full-text expression over the columns `body`
/// and `title` (an unbalanced quote or a stray operator it refuses), and it
/// is within SQLite's length limit.
pub uninterp spec fn fts_accepts(query: Seq<char>) -> bool;

/// Whether a row with these columns is well within what SQLite stores: at
/// most 900,000,000 bytes together, where SQLite refuses a value of a
/// billion bytes.
pub open spec fn row_fits(body: Seq<char>, title: Option<Seq<char>>) -> bool {
    byte_len(body) + match title {
        Some(t) => byte_len(t),
        None => 0,
    } <= 900_000_000
}

/// The view of an optional `&str`.
pub open spec fn opt_str_view(s: Option<&str>) -> Option<Seq<char>> {
    match s {
        Some(t) => Some(t@),
        None => None,
    }
}

// SQLite reports an allocation failure as an error where Rust stops the
// process; like every `Vec` and `String` of this library, the contracts
// below treat allocation as not failing. With that, the source shows the
// failures each contract names and no other: a new in-memory connection
// opens, and a statement on the `notes_fts` table of this crate's fixed SQL
// with values that fit fails only as its doc comment says.

/// `rusqlite::Connection::open_in_memory`: a new in-memory database, which
/// has no `notes_fts` table yet.
#[verifier::external_body]
pub(crate) fn index_open() -> (r: Result<rusqlite::Connection, String>)
    ensures
        r is Ok,
        r matches Ok(c) ==> !fts_ready(c),
{
    match rusqlite::Connection::open_in_memory() {
        Ok(c) => Ok(c),
        Err(e) => Err(e.to_string()),
    }
}

/// `Connection::execute` of `CREATE VIRTUAL TABLE notes_fts USING
/// fts5(body, title)`: on a connection without the table it succeeds, and
/// the table then exists and holds no row.
#[verifier::external_body]
pub(crate) fn index_create(conn: &mut rusqlite::Connection) -> (r: Result<(), String>)
    ensures
        !fts_ready(*old(conn)) ==> r is Ok,
        r is Ok ==> fts_ready(*final(conn)) && forall|id: i64| !fts_rows(*final(conn)).contains_key(id),
        r is Err ==> fts_ready(*final(conn)) == fts_ready(*old(conn)),
{
    match conn.execute("CREATE VIRTUAL TABLE notes_fts USING fts5(body, title)", []) {
        Ok(_) => Ok(()),
        Err(e) => Err(e.to_string()),
    }
}

/// `Connection::execute` of `INSERT INTO notes_fts(rowid, body, title)`
/// under a rowid the table does not hold: it succeeds once the table
/// exists if the row fits, and the table then holds one more row, under the new rowid; a
/// statement that fails changes nothing.
#[verifier::external_body]
pub(crate) fn index_insert(conn: &mut rusqlite::Connection, id: i64, body: &str, title: Option<&str>) -> (r: Result<(), String>)
    requires
        !fts_rows(*old(conn)).contains_key(id),
    ensures
        fts_ready(*old(conn)) && row_fits(body@, opt_str_view(title)) ==> r is Ok,
        fts_ready(*final(conn)) == fts_ready(*old(conn)),
        r is Ok ==> fts_rows(*final(conn)) == fts_rows(*old(conn)).insert(id, (body@, opt_str_view(title))),
        r is Err ==> fts_rows(*final(conn)) == fts_rows(*old(conn)),
{
    let sql = "INSERT INTO notes_fts(rowid, body, title) VALUES (?1, ?2, ?3)";
    match conn.execute(sql, (id, body, title)) {
        Ok(_) => Ok(()),
        Err(e) => Err(e.to_string()),
    }
}

/// `Connection::execute` of `UPDATE notes_fts SET body, title WHERE rowid`:
/// it succeeds once the table exists if the row fits, and the row under
/// `id` then holds the new columns; a statement that fails changes nothing.
#[verifier::external_body]
pub(crate) fn index_update(conn: &mut rusqlite::Connection, id: i64, body: &str, title: Option<&str>) -> (r: Result<(), String>)
    requires
        fts_rows(*old(conn)).contains_key(id),
    ensures
        fts_ready(*old(conn)) && row_fits(body@, opt_str_view(title)) ==> r is Ok,
        fts_ready(*final(conn)) == fts_ready(*old(conn)),
        r is Ok ==> fts_rows(*final(conn)) == fts_rows(*old(conn)).insert(id, (body@, opt_str_view(title))),
        r is Err ==> fts_rows(*final(conn)) == fts_rows(*old(conn)),
{
    let sql = "UPDATE notes_fts SET body = ?2, title = ?3 WHERE rowid = ?1";
    match conn.execute(sql, (id, body, title)) {
        Ok(_) => Ok(()),
        Err(e) => Err(e.to_string()),
    }
}

/// `Connection::execute` of `DELETE FROM notes_fts WHERE rowid`: it
/// succeeds once the table exists, and the row under `id` is then gone; a
/// statement that fails changes nothing.
#[verifier::external_body]
pub(crate) fn index_remove(conn: &mut rusqlite::Connection, id: i64) -> (r: Result<(), String>)
    ensures
        fts_ready(*old(conn)) ==> r is Ok,
        fts_ready(*final(conn)) == fts_ready(*old(conn)),
        r is Ok ==> fts_rows(*final(conn)) == fts_rows(*old(conn)).remove(id),
        r is Err ==> fts_rows(*final(conn)) == fts_rows(*old(conn)),
{
    match conn.execute("DELETE FROM notes_fts WHERE rowid = ?1", [id]) {
        Ok(_) => Ok(()),
        Err(e) => Err(e.to_string()),
    }
}

/// Whether `s` is the search expression of a query without NUL characters
/// (see `fts_query_spec`), well within SQLite's length limit.
pub open spec fn phrase_prefix_query(s: Seq<char>) -> bool {
    exists|q: Seq<char>| #[trigger] fts_query_spec(q) == s && !q.contains('\0') && byte_len(s) <= 900_000_000
}

/// `Statement::query_map` of `SELECT rowid FROM notes_fts WHERE notes_fts
/// MATCH ?1`, collected: once the table exists it succeeds exactly when
/// FTS5 reads the expression, and then gives the rowids of exactly the rows
/// that the expression matches, each once. FTS5's lexer reads a quoted
/// string with its quotes doubled, up to the closing quote, as one phrase
/// token (it fails only on a NUL before the closing quote), and its grammar
/// takes such a phrase followed by `*` as a prefix phrase, one with no
/// token characters included; so a phrase-prefix query is read.
#[verifier::external_body]
pub(crate) fn index_search(conn: &rusqlite::Connection, query: &str) -> (r: Result<Vec<i64>, String>)
    ensures
        fts_ready(*conn) ==> (r is Ok <==> fts_accepts(query@)),
        fts_ready(*conn) && phrase_prefix_query(query@) ==> r is Ok,
        r matches Ok(ids) ==> {
            &&& ids@.no_duplicates()
            &&& forall|id: i64| #[trigger] ids@.contains(id) <==> {
                &&& fts_rows(*conn).contains_key(id)
                &&& fts_match(query@, fts_rows(*conn)[id].0, fts_rows(*conn)[id].1)
            }
        },
{
    let sql = "SELECT rowid FROM notes_fts WHERE notes_fts MATCH ?1";
    let mut stmt = conn.prepare(sql).map_err(|e| e.to_string())?;
    let rows = stmt.query_map([query], |row| row.get(0)).map_err(|e| e.to_string())?;
    rows.collect::<Result<Vec<i64>, _>>().map_err(|e| e.to_string())
}

/// `s` with every double quote doubled, as an FTS5 string wants it.
pub open spec fn escape_quotes(s: Seq<char>) -> Seq<char>
    decreases s.len(),
{
    if s.len() == 0 {
        s
    } else if s.last() == '"' {
        escape_quotes(s.drop_last()) + seq!['"', '"']
    } else {
        escape_quotes(s.drop_last()).push(s.last())
    }
}

/// The FTS5 expression that a search for `q` sends: `q` as one quoted
/// phrase whose last token may be a prefix.
pub open spec fn fts_query_spec(q: Seq<char>) -> Seq<char> {
    seq!['"'] + escape_quotes(q) + seq!['"', '*']
}

/// The FTS5 expression for a search for `query`: the query quoted, with its
/// own quotes doubled, and followed by `*`.
pub fn fts_query(query: &str) -> (r: String)
    ensures
        r@ == fts_query_spec(query@),
{
    let cs = crate::text::chars_of(query);
    let mut r = String::new();
    r.push('"');
    let mut i: usize = 0;
    while i < cs.len()
        invariant
            i <= cs.len(),
            cs@ == query@,
            r@ == seq!['"'] + escape_quotes(cs@.take(i as int)),
        decreases cs.len() - i,
    {
        let c = cs[i];
        if c == '"' {
            r.push('"');
            r.push('"');
        } else {
            r.push(c);
        }
        proof {
            assert(cs@.take(i + 1).drop_last() =~= cs@.take(i as int));
        }
        i = i + 1;
        assert(r@ =~= seq!['"'] + escape_quotes(cs@.take(i as int)));
    }
    assert(cs@.take(cs.len() as int) =~= cs@);
    r.push('"');
    r.push('*');
    assert(r@ =~= fts_query_spec(query@));
    r
}

} // verus!
