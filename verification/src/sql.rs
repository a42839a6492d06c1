//! SQL text: the queries whose shape depends on their arguments, the
//! literals and statements of an SQL export, and the naming of store files.
use vstd::prelude::*;

use crate::models::ChunkLocation;
use crate::text::{int_text, lemma_padded_digits_injective, padded_digits, push_digits_width3, push_int};

verus! {

/// A value bound to a query parameter or read from a table cell.
pub enum SqlValue {
    Integer(i64),
    Text(String),
    Null,
}

/// The mathematical form of a value.
pub enum SqlValueView {
    Integer(i64),
    Text(Seq<char>),
    Null,
}

impl View for SqlValue {
    type V = SqlValueView;

    open spec fn view(&self) -> SqlValueView {
        match self {
            SqlValue::Integer(n) => SqlValueView::Integer(*n),
            SqlValue::Text(t) => SqlValueView::Text(t@),
            SqlValue::Null => SqlValueView::Null,
        }
    }
}

/// A query and the values of its parameters, in order.
pub struct SqlQuery {
    pub sql: String,
    pub params: Vec<SqlValue>,
}

/// The values of the parameters of a query.
pub open spec fn param_views(q: SqlQuery) -> Seq<SqlValueView> {
    q.params@.map_values(|v: SqlValue| v@)
}

/// The query that counts the files of a folder with a given name, leaving
/// one file out when `exclude_file_id` names it.
pub open spec fn file_name_query_text(excluding: bool) -> Seq<char> {
    "SELECT COUNT(*) FROM files f JOIN file_folder ff ON f.file_id = ff.file_id WHERE ff.folder_id = ? AND f.name = ?"@
        + if excluding {
        " AND f.file_id != ?"@
    } else {
        Seq::empty()
    }
}

/// Builds the query that counts the files of `folder_id` named `name`,
/// other than `exclude_file_id`.
pub fn file_name_check_query(folder_id: i64, name: &str, exclude_file_id: Option<i64>) -> (r:
    SqlQuery)
    ensures
        r.sql@ == file_name_query_text(exclude_file_id is Some),
        param_views(r) == seq![SqlValueView::Integer(folder_id), SqlValueView::Text(name@)]
            + match exclude_file_id {
            Some(e) => seq![SqlValueView::Integer(e)],
            None => Seq::empty(),
        },
{
    let mut sql = "SELECT COUNT(*) FROM files f JOIN file_folder ff ON f.file_id = ff.file_id WHERE ff.folder_id = ? AND f.name = ?".to_owned();
    let mut params: Vec<SqlValue> = Vec::new();
    params.push(SqlValue::Integer(folder_id));
    params.push(SqlValue::Text(name.to_owned()));
    if let Some(eid) = exclude_file_id {
        sql.append(" AND f.file_id != ?");
        params.push(SqlValue::Integer(eid));
    }
    let r = SqlQuery { sql, params };
    assert(param_views(r) =~= seq![SqlValueView::Integer(folder_id), SqlValueView::Text(name@)]
        + match exclude_file_id {
        Some(e) => seq![SqlValueView::Integer(e)],
        None => Seq::<SqlValueView>::empty(),
    });
    r
}

/// The query that counts the folders with a given name under a parent (or
/// at the top when there is none), leaving one folder out when
/// `exclude_folder_id` names it.
pub open spec fn folder_name_query_text(has_parent: bool, excluding: bool) -> Seq<char> {
    "SELECT COUNT(*) FROM folders WHERE "@ + (if has_parent {
        "parent_id = ? AND name = ?"@
    } else {
        "parent_id IS NULL AND name = ?"@
    }) + if excluding {
        " AND folder_id != ?"@
    } else {
        Seq::empty()
    }
}

/// Builds the query that counts the folders under `parent_id` named `name`,
/// other than `exclude_folder_id`.
pub fn folder_name_check_query(parent_id: Option<i64>, name: &str, exclude_folder_id: Option<i64>) -> (r:
    SqlQuery)
    ensures
        r.sql@ == folder_name_query_text(parent_id is Some, exclude_folder_id is Some),
        param_views(r) == match parent_id {
            Some(p) => seq![SqlValueView::Integer(p)],
            None => Seq::empty(),
        } + seq![SqlValueView::Text(name@)] + match exclude_folder_id {
            Some(e) => seq![SqlValueView::Integer(e)],
            None => Seq::empty(),
        },
{
    let mut sql = "SELECT COUNT(*) FROM folders WHERE ".to_owned();
    let mut params: Vec<SqlValue> = Vec::new();
    match parent_id {
        Some(pid) => {
            sql.append("parent_id = ? AND name = ?");
            params.push(SqlValue::Integer(pid));
        },
        None => {
            sql.append("parent_id IS NULL AND name = ?");
        },
    }
    params.push(SqlValue::Text(name.to_owned()));
    if let Some(eid) = exclude_folder_id {
        sql.append(" AND folder_id != ?");
        params.push(SqlValue::Integer(eid));
    }
    let r = SqlQuery { sql, params };
    assert(param_views(r) =~= match parent_id {
        Some(p) => seq![SqlValueView::Integer(p)],
        None => Seq::<SqlValueView>::empty(),
    } + seq![SqlValueView::Text(name@)] + match exclude_folder_id {
        Some(e) => seq![SqlValueView::Integer(e)],
        None => Seq::<SqlValueView>::empty(),
    });
    r
}

/// The `LIKE` pattern that matches names containing the keyword.
pub fn search_pattern(keyword: &str) -> (r: String)
    ensures
        r@ == "%"@ + keyword@ + "%"@,
{
    let mut out = "%".to_owned();
    out.append(keyword);
    out.append("%");
    out
}

/// The name of the `n`-th store file: `store_`, the number in at least
/// three digits, `.bin`.
pub open spec fn store_name(n: nat) -> Seq<char> {
    "store_"@ + padded_digits(n, 3) + ".bin"@
}

/// The name of the next store file when `count` store files exist.
pub fn next_store_file_name(count: i64) -> (r: String)
    requires
        0 <= count < i64::MAX,
    ensures
        r@ == store_name((count + 1) as nat),
{
    let mut out = "store_".to_owned();
    push_digits_width3(&mut out, (count + 1) as u64);
    out.append(".bin");
    out
}

/// Store files numbered differently have different names, so every store
/// file that is added gets a name of its own.
pub proof fn lemma_store_names_distinct(a: nat, b: nat)
    requires
        a != b,
    ensures
        store_name(a) != store_name(b),
{
    if store_name(a) == store_name(b) {
        reveal_strlit("store_");
        reveal_strlit(".bin");
        let pa = padded_digits(a, 3);
        let pb = padded_digits(b, 3);
        assert(store_name(a).len() == 6 + pa.len() + 4);
        assert(pa.len() == pb.len());
        assert(store_name(a).subrange(6, 6 + pa.len() as int) == pa);
        assert(store_name(b).subrange(6, 6 + pb.len() as int) == pb);
        lemma_padded_digits_injective(a, b, 3);
    }
}

// --------------------------------------------------------------- literals
/// The body of a quoted SQL text: every single quote doubled.
pub open spec fn quote_body(s: Seq<char>) -> Seq<char>
    decreases s.len(),
{
    if s.len() == 0 {
        Seq::empty()
    } else {
        quote_piece(s[0]) + quote_body(s.drop_first())
    }
}

/// One character of a quoted SQL text.
pub open spec fn quote_piece(c: char) -> Seq<char> {
    if c == '\'' {
        seq!['\'', '\'']
    } else {
        seq![c]
    }
}

/// The SQL literal of a value: quoted text, decimal integer, or `NULL`.
pub open spec fn sql_literal(v: SqlValueView) -> Seq<char> {
    match v {
        SqlValueView::Text(t) => seq!['\''] + quote_body(t) + seq!['\''],
        SqlValueView::Integer(n) => int_text(n as int),
        SqlValueView::Null => "NULL"@,
    }
}

/// Quoting distributes over concatenation.
pub proof fn lemma_quote_body_concat(a: Seq<char>, b: Seq<char>)
    ensures
        quote_body(a + b) == quote_body(a) + quote_body(b),
    decreases a.len(),
{
    if a.len() > 0 {
        lemma_quote_body_concat(a.drop_first(), b);
        assert((a + b).drop_first() == a.drop_first() + b);
        assert((a + b)[0] == a[0]);
    } else {
        assert(a + b == b);
    }
}

/// Quoting writes every character other than a single quote exactly once,
/// as itself: a text without single quotes is its own quoted body.
pub proof fn lemma_quote_body_plain(s: Seq<char>)
    requires
        forall|i: int| 0 <= i < s.len() ==> s[i] != '\'',
    ensures
        quote_body(s) == s,
    decreases s.len(),
{
    if s.len() > 0 {
        assert forall|i: int| 0 <= i < s.drop_first().len() implies s.drop_first()[i] != '\'' by {
            assert(s.drop_first()[i] == s[i + 1]);
        }
        lemma_quote_body_plain(s.drop_first());
        assert(s =~= seq![s[0]] + s.drop_first());
    }
}

/// A single quote is written twice.
pub proof fn lemma_quote_body_quote()
    ensures
        quote_body(seq!['\'']) == seq!['\'', '\''],
{
    assert(seq!['\''].drop_first() =~= Seq::<char>::empty());
    assert(quote_body(Seq::<char>::empty()) == Seq::<char>::empty());
    assert(quote_body(seq!['\'']) =~= seq!['\'', '\'']);
}

/// A text without single quotes exports as that text between single
/// quotes, every other character (backslashes included) as it is.
pub proof fn lemma_plain_text_literal(t: Seq<char>)
    requires
        forall|i: int| 0 <= i < t.len() ==> t[i] != '\'',
    ensures
        sql_literal(SqlValueView::Text(t)) == seq!['\''] + t + seq!['\''],
{
    lemma_quote_body_plain(t);
}

/// Two texts with the same quoted body are the same text.
pub proof fn lemma_quote_body_injective(a: Seq<char>, b: Seq<char>)
    requires
        quote_body(a) == quote_body(b),
    ensures
        a == b,
    decreases a.len(),
{
    if a.len() == 0 {
        if b.len() > 0 {
            assert(quote_body(b).len() > 0);
        }
    } else {
        assert(quote_body(a).len() > 0);
        assert(b.len() > 0);
        let qa = quote_body(a);
        let qb = quote_body(b);
        assert(qa[0] == quote_piece(a[0])[0]);
        assert(qb[0] == quote_piece(b[0])[0]);
        if a[0] == '\'' {
            assert(b[0] == '\'');
        } else {
            assert(b[0] != '\'');
            assert(b[0] == a[0]);
        }
        let pa = quote_piece(a[0]);
        assert(qa.subrange(pa.len() as int, qa.len() as int) == quote_body(a.drop_first()));
        assert(qb.subrange(pa.len() as int, qb.len() as int) == quote_body(b.drop_first()));
        lemma_quote_body_injective(a.drop_first(), b.drop_first());
        assert(a == seq![a[0]] + a.drop_first());
        assert(b == seq![b[0]] + b.drop_first());
    }
}

/// Distinct texts export as distinct SQL literals, and a text literal is
/// never taken for an integer or for `NULL`.
pub proof fn lemma_text_literal_distinct(t: Seq<char>, v: SqlValueView)
    requires
        sql_literal(SqlValueView::Text(t)) == sql_literal(v),
    ensures
        v == SqlValueView::Text(t),
{
    let l = sql_literal(SqlValueView::Text(t));
    assert(l[0] == '\'');
    match v {
        SqlValueView::Text(u) => {
            let lu = sql_literal(v);
            assert(l.subrange(1, l.len() - 1) == quote_body(t));
            assert(lu.subrange(1, lu.len() - 1) == quote_body(u));
            lemma_quote_body_injective(t, u);
        },
        SqlValueView::Integer(n) => {
            crate::text::lemma_digits_len(if n < 0 { (-n) as nat } else { n as nat });
            if n >= 0 {
                crate::text::lemma_first_digit(n as nat);
            }
        },
        SqlValueView::Null => {
            reveal_strlit("NULL");
        },
    }
}

/// Appends a text with every single quote doubled.
fn push_quoted_body(out: &mut String, t: &str)
    ensures
        final(out)@ == old(out)@ + quote_body(t@),
{
    proof {
        reveal_strlit("''");
    }
    let n = t.unicode_len();
    let mut i: usize = 0;
    while i < n
        invariant
            i <= n,
            n == t@.len(),
            out@ == old(out)@ + quote_body(t@.take(i as int)),
        decreases n - i,
    {
        let c = t.get_char(i);
        let ghost before = out@;
        proof {
            lemma_quote_body_concat(t@.take(i as int), seq![c]);
            assert(t@.take(i + 1) =~= t@.take(i as int) + seq![c]);
            assert(seq![c].drop_first() =~= Seq::<char>::empty());
            assert(quote_body(Seq::<char>::empty()) == Seq::<char>::empty());
            assert(quote_body(seq![c]) =~= quote_piece(c));
        }
        if c == '\'' {
            out.append("''");
            proof {
                reveal_strlit("''");
            }
            assert("''"@ =~= quote_piece(c));
        } else {
            out.append(t.substring_char(i, i + 1));
            assert(t@.subrange(i as int, i + 1) =~= quote_piece(c));
        }
        assert(out@ =~= before + quote_piece(c));
        assert(out@ =~= old(out)@ + quote_body(t@.take(i + 1)));
        i = i + 1;
    }
    assert(t@.take(n as int) == t@);
}

/// The SQL literal of a value.
pub fn sql_literal_text(v: &SqlValue) -> (r: String)
    ensures
        r@ == sql_literal(v@),
{
    proof {
        reveal_strlit("'");
        reveal_strlit("NULL");
    }
    match v {
        SqlValue::Text(t) => {
            let mut out = "'".to_owned();
            push_quoted_body(&mut out, t.as_str());
            out.append("'");
            out
        },
        SqlValue::Integer(n) => {
            let mut out = String::new();
            push_int(&mut out, *n);
            assert(out@ =~= int_text(*n as int));
            out
        },
        SqlValue::Null => "NULL".to_owned(),
    }
}

/// Texts joined with a separator between each two.
pub open spec fn joined(parts: Seq<Seq<char>>, sep: Seq<char>) -> Seq<char>
    decreases parts.len(),
{
    if parts.len() == 0 {
        Seq::empty()
    } else if parts.len() == 1 {
        parts[0]
    } else {
        joined(parts.drop_last(), sep) + sep + parts.last()
    }
}

/// The statement that inserts one row into a table, its values written as
/// SQL literals separated by commas.
pub open spec fn insert_statement(table: Seq<char>, row: Seq<SqlValueView>) -> Seq<char> {
    "INSERT INTO "@ + table + " VALUES ("@ + joined(row.map_values(|v: SqlValueView| sql_literal(v)), ", "@)
        + ");"@
}

/// Builds the statement that inserts one row of values into a table.
pub fn insert_statement_text(table: &str, row: &Vec<SqlValue>) -> (r: String)
    ensures
        r@ == insert_statement(table@, row@.map_values(|v: SqlValue| v@)),
{
    let ghost lits = row@.map_values(|v: SqlValue| v@).map_values(|v: SqlValueView| sql_literal(v));
    let mut out = "INSERT INTO ".to_owned();
    out.append(table);
    out.append(" VALUES (");
    let ghost head = out@;
    let mut i: usize = 0;
    while i < row.len()
        invariant
            i <= row.len(),
            lits == row@.map_values(|v: SqlValue| v@).map_values(|v: SqlValueView| sql_literal(v)),
            out@ == head + joined(lits.take(i as int), ", "@),
        decreases row.len() - i,
    {
        let lit = sql_literal_text(&row[i]);
        assert(lits.take(i + 1).drop_last() == lits.take(i as int));
        assert(lits.take(i + 1).last() == lit@);
        if i > 0 {
            out.append(", ");
        } else {
            assert(lits.take(0) == Seq::<Seq<char>>::empty());
        }
        out.append(lit.as_str());
        i = i + 1;
    }
    assert(lits.take(row.len() as int) == lits);
    out.append(");");
    out
}

// ------------------------------------------------------- chunk bookkeeping
/// The location record of the `i`-th planned chunk of a file.
pub open spec fn chunk_row(file_id: i64, i: int, planned: (String, i64, i64, i64)) -> ChunkLocation {
    ChunkLocation {
        file_id,
        chunk_index: i as i32,
        store_file: planned.0,
        offset: planned.1,
        length: planned.2,
    }
}

/// The location records of a file's planned chunks `(store file, offset,
/// length, reused free-space id or 0)`, numbered from 0 in order.
pub fn chunk_rows(file_id: i64, chunks: &Vec<(String, i64, i64, i64)>) -> (r: Vec<ChunkLocation>)
    ensures
        r@.len() == chunks@.len(),
        forall|i: int| 0 <= i < chunks@.len() ==> #[trigger] r@[i] == chunk_row(file_id, i, chunks@[i]),
{
    let mut out: Vec<ChunkLocation> = Vec::new();
    let mut i: usize = 0;
    while i < chunks.len()
        invariant
            i <= chunks.len(),
            out@.len() == i,
            forall|j: int| 0 <= j < i ==> #[trigger] out@[j] == chunk_row(file_id, j, chunks@[j]),
        decreases chunks.len() - i,
    {
        let c = &chunks[i];
        out.push(
            ChunkLocation {
                file_id,
                chunk_index: i as i32,
                store_file: c.0.clone(),
                offset: c.1,
                length: c.2,
            },
        );
        i = i + 1;
    }
    out
}

/// The free-space ids that planned chunks reuse, in order; 0 marks a chunk
/// appended to a store file.
pub open spec fn reused_space_ids(chunks: Seq<(String, i64, i64, i64)>) -> Seq<i64>
    decreases chunks.len(),
{
    if chunks.len() == 0 {
        Seq::empty()
    } else {
        let rest = reused_space_ids(chunks.drop_last());
        if chunks.last().3 > 0 {
            rest.push(chunks.last().3)
        } else {
            rest
        }
    }
}

/// The free-space ids that planned chunks reuse.
pub fn consumed_space_ids(chunks: &Vec<(String, i64, i64, i64)>) -> (r: Vec<i64>)
    ensures
        r@ == reused_space_ids(chunks@),
{
    let mut out: Vec<i64> = Vec::new();
    let mut i: usize = 0;
    while i < chunks.len()
        invariant
            i <= chunks.len(),
            out@ == reused_space_ids(chunks@.take(i as int)),
        decreases chunks.len() - i,
    {
        assert(chunks@.take(i + 1).drop_last() == chunks@.take(i as int));
        if chunks[i].3 > 0 {
            out.push(chunks[i].3);
        }
        i = i + 1;
    }
    assert(chunks@.take(chunks.len() as int) == chunks@);
    out
}

/// Whether the free space `space_id` can still take a chunk: none of the
/// chunks planned so far reuses it.
pub fn space_still_free(space_id: i64, planned: &Vec<(String, i64, i64, i64)>) -> (r: bool)
    ensures
        r == !reused_space_ids(planned@).contains(space_id),
{
    let taken = consumed_space_ids(planned);
    let mut i: usize = 0;
    while i < taken.len()
        invariant
            i <= taken.len(),
            taken@ == reused_space_ids(planned@),
            forall|j: int| 0 <= j < i ==> taken@[j] != space_id,
        decreases taken.len() - i,
    {
        if taken[i] == space_id {
            assert(taken@[i as int] == space_id);
            return false;
        }
        i = i + 1;
    }
    true
}

/// Where the next chunk of an import goes.
pub enum ChunkPlacement {
    /// Into the free space `space_id`, at `offset` of `store_file`.
    Reuse { space_id: i64, store_file: String, offset: i64 },
    /// At the end of a store file with room.
    Append,
}

/// Where the next chunk goes, given the free space that the catalogue
/// offers for it (its id, store file and offset) and the chunks planned so
/// far: into that space when it has a proper id and no planned chunk took
/// it already, else at the end of a store file.
///
/// Reusing free space follows the catalogue's design: deleting a file
/// records its chunks as free space, the search for space only reads, and
/// the spaces that an import reuses are consumed in the same transaction
/// that records the file. A chunk that gets no free space is appended.
pub fn place_chunk(free: Option<(i64, String, i64)>, planned: &Vec<(String, i64, i64, i64)>) -> (r:
    ChunkPlacement)
    ensures
        match free {
            Some((space_id, store_file, offset)) => if space_id > 0 && !reused_space_ids(
                planned@,
            ).contains(space_id) {
                r == (ChunkPlacement::Reuse { space_id, store_file, offset })
            } else {
                r is Append
            },
            None => r is Append,
        },
{
    match free {
        Some((space_id, store_file, offset)) => {
            if space_id > 0 && space_still_free(space_id, planned) {
                ChunkPlacement::Reuse { space_id, store_file, offset }
            } else {
                ChunkPlacement::Append
            }
        },
        None => ChunkPlacement::Append,
    }
}

} // verus!
