//! The catalog database: its records (`models`) and the decisions behind
//! its queries: which SQL text to run, how a custom column value is read,
//! which books make it into a listing, and how the rows of a count by year
//! become categories.

use vstd::prelude::*;

pub mod models;

use models::{
    entries_insert, entries_lookup, entry_labels, lemma_lookup_after_insert, BookMetadata,
    Category, CustomColumn, CustomColumns, CustomValue,
};
use crate::text::{parse_i64, parsed_i64, push_signed_decimal, push_str, signed_decimal, str_eq};

verus! {

// ---------------------------------------------------------------------------
// Query texts
// ---------------------------------------------------------------------------

/// The `ORDER BY` clause for a sort key of the book listing; unknown keys
/// order by id.
pub open spec fn order_clause(sort: Seq<char>) -> Seq<char> {
    if sort == "title_asc"@ {
        "ORDER BY books.sort ASC"@
    } else if sort == "title_desc"@ {
        "ORDER BY books.sort DESC"@
    } else if sort == "author_asc"@ {
        "ORDER BY (SELECT name FROM authors JOIN books_authors_link ON authors.id = books_authors_link.author WHERE books_authors_link.book = books.id LIMIT 1) ASC"@
    } else if sort == "author_desc"@ {
        "ORDER BY (SELECT name FROM authors JOIN books_authors_link ON authors.id = books_authors_link.author WHERE books_authors_link.book = books.id LIMIT 1) DESC"@
    } else if sort == "date_asc"@ {
        "ORDER BY books.timestamp ASC"@
    } else if sort == "date_desc"@ {
        "ORDER BY books.timestamp DESC"@
    } else if sort == "rating_asc"@ {
        "ORDER BY (SELECT ratings.rating FROM books_ratings_link JOIN ratings ON books_ratings_link.rating = ratings.id WHERE books_ratings_link.book = books.id) ASC NULLS LAST"@
    } else if sort == "rating_desc"@ {
        "ORDER BY (SELECT ratings.rating FROM books_ratings_link JOIN ratings ON books_ratings_link.rating = ratings.id WHERE books_ratings_link.book = books.id) DESC NULLS LAST"@
    } else {
        "ORDER BY books.id"@
    }
}

/// The query of one page of the book listing (limit and offset are bound).
pub open spec fn books_query_text(sort: Seq<char>) -> Seq<char> {
    "SELECT * FROM books "@ + order_clause(sort) + " LIMIT ? OFFSET ?"@
}

/// Each sort field has one key, which its ascending and descending orders
/// share, differing only in the direction: titles order by the sort title,
/// authors by the name of the book's first linked author, dates by the
/// time the book was added, ratings by the book's rating (books without
/// one last either way).
pub proof fn lemma_sort_orders()
    ensures
        order_clause("title_asc"@) == "ORDER BY books.sort"@ + " ASC"@,
        order_clause("title_desc"@) == "ORDER BY books.sort"@ + " DESC"@,
        order_clause("author_asc"@) == "ORDER BY (SELECT name FROM authors JOIN books_authors_link ON authors.id = books_authors_link.author WHERE books_authors_link.book = books.id LIMIT 1)"@ + " ASC"@,
        order_clause("author_desc"@) == "ORDER BY (SELECT name FROM authors JOIN books_authors_link ON authors.id = books_authors_link.author WHERE books_authors_link.book = books.id LIMIT 1)"@ + " DESC"@,
        order_clause("date_asc"@) == "ORDER BY books.timestamp"@ + " ASC"@,
        order_clause("date_desc"@) == "ORDER BY books.timestamp"@ + " DESC"@,
        order_clause("rating_asc"@) == "ORDER BY (SELECT ratings.rating FROM books_ratings_link JOIN ratings ON books_ratings_link.rating = ratings.id WHERE books_ratings_link.book = books.id)"@ + " ASC"@ + " NULLS LAST"@,
        order_clause("rating_desc"@) == "ORDER BY (SELECT ratings.rating FROM books_ratings_link JOIN ratings ON books_ratings_link.rating = ratings.id WHERE books_ratings_link.book = books.id)"@ + " DESC"@ + " NULLS LAST"@,
        order_clause("unknown"@) == "ORDER BY books.id"@,
{
    reveal_strlit("title_asc");
    reveal_strlit("title_desc");
    reveal_strlit("ORDER BY books.sort");
    reveal_strlit("ORDER BY books.sort ASC");
    reveal_strlit("ORDER BY books.sort DESC");
    reveal_strlit("author_asc");
    reveal_strlit("author_desc");
    reveal_strlit("ORDER BY (SELECT name FROM authors JOIN books_authors_link ON authors.id = books_authors_link.author WHERE books_authors_link.book = books.id LIMIT 1)");
    reveal_strlit("ORDER BY (SELECT name FROM authors JOIN books_authors_link ON authors.id = books_authors_link.author WHERE books_authors_link.book = books.id LIMIT 1) ASC");
    reveal_strlit("ORDER BY (SELECT name FROM authors JOIN books_authors_link ON authors.id = books_authors_link.author WHERE books_authors_link.book = books.id LIMIT 1) DESC");
    reveal_strlit("date_asc");
    reveal_strlit("date_desc");
    reveal_strlit("ORDER BY books.timestamp");
    reveal_strlit("ORDER BY books.timestamp ASC");
    reveal_strlit("ORDER BY books.timestamp DESC");
    reveal_strlit("rating_asc");
    reveal_strlit("rating_desc");
    reveal_strlit("ORDER BY (SELECT ratings.rating FROM books_ratings_link JOIN ratings ON books_ratings_link.rating = ratings.id WHERE books_ratings_link.book = books.id)");
    reveal_strlit("ORDER BY (SELECT ratings.rating FROM books_ratings_link JOIN ratings ON books_ratings_link.rating = ratings.id WHERE books_ratings_link.book = books.id) ASC NULLS LAST");
    reveal_strlit("ORDER BY (SELECT ratings.rating FROM books_ratings_link JOIN ratings ON books_ratings_link.rating = ratings.id WHERE books_ratings_link.book = books.id) DESC NULLS LAST");
    reveal_strlit(" ASC");
    reveal_strlit(" DESC");
    reveal_strlit(" NULLS LAST");
    reveal_strlit("unknown");
    assert("title_asc"@.len() != "title_desc"@.len());
    assert("title_asc"@.len() != "author_asc"@.len());
    assert("title_desc"@[0] != "author_asc"@[0]);
    assert("title_asc"@.len() != "author_desc"@.len());
    assert("title_desc"@.len() != "author_desc"@.len());
    assert("author_asc"@.len() != "author_desc"@.len());
    assert("title_asc"@.len() != "date_asc"@.len());
    assert("title_desc"@.len() != "date_asc"@.len());
    assert("author_asc"@.len() != "date_asc"@.len());
    assert("author_desc"@.len() != "date_asc"@.len());
    assert("title_asc"@[0] != "date_desc"@[0]);
    assert("title_desc"@.len() != "date_desc"@.len());
    assert("author_asc"@.len() != "date_desc"@.len());
    assert("author_desc"@.len() != "date_desc"@.len());
    assert("date_asc"@.len() != "date_desc"@.len());
    assert("title_asc"@.len() != "rating_asc"@.len());
    assert("title_desc"@[0] != "rating_asc"@[0]);
    assert("author_asc"@[0] != "rating_asc"@[0]);
    assert("author_desc"@.len() != "rating_asc"@.len());
    assert("date_asc"@.len() != "rating_asc"@.len());
    assert("date_desc"@.len() != "rating_asc"@.len());
    assert("title_asc"@.len() != "rating_desc"@.len());
    assert("title_desc"@.len() != "rating_desc"@.len());
    assert("author_asc"@.len() != "rating_desc"@.len());
    assert("author_desc"@[0] != "rating_desc"@[0]);
    assert("date_asc"@.len() != "rating_desc"@.len());
    assert("date_desc"@.len() != "rating_desc"@.len());
    assert("rating_asc"@.len() != "rating_desc"@.len());
    assert("title_asc"@.len() != "unknown"@.len());
    assert("title_desc"@.len() != "unknown"@.len());
    assert("author_asc"@.len() != "unknown"@.len());
    assert("author_desc"@.len() != "unknown"@.len());
    assert("date_asc"@.len() != "unknown"@.len());
    assert("date_desc"@.len() != "unknown"@.len());
    assert("rating_asc"@.len() != "unknown"@.len());
    assert("rating_desc"@.len() != "unknown"@.len());
    assert("ORDER BY books.sort ASC"@ =~= "ORDER BY books.sort"@ + " ASC"@);
    assert("ORDER BY books.sort DESC"@ =~= "ORDER BY books.sort"@ + " DESC"@);
    assert("ORDER BY (SELECT name FROM authors JOIN books_authors_link ON authors.id = books_authors_link.author WHERE books_authors_link.book = books.id LIMIT 1) ASC"@ =~= "ORDER BY (SELECT name FROM authors JOIN books_authors_link ON authors.id = books_authors_link.author WHERE books_authors_link.book = books.id LIMIT 1)"@ + " ASC"@);
    assert("ORDER BY (SELECT name FROM authors JOIN books_authors_link ON authors.id = books_authors_link.author WHERE books_authors_link.book = books.id LIMIT 1) DESC"@ =~= "ORDER BY (SELECT name FROM authors JOIN books_authors_link ON authors.id = books_authors_link.author WHERE books_authors_link.book = books.id LIMIT 1)"@ + " DESC"@);
    assert("ORDER BY books.timestamp ASC"@ =~= "ORDER BY books.timestamp"@ + " ASC"@);
    assert("ORDER BY books.timestamp DESC"@ =~= "ORDER BY books.timestamp"@ + " DESC"@);
    assert("ORDER BY (SELECT ratings.rating FROM books_ratings_link JOIN ratings ON books_ratings_link.rating = ratings.id WHERE books_ratings_link.book = books.id) ASC NULLS LAST"@ =~= "ORDER BY (SELECT ratings.rating FROM books_ratings_link JOIN ratings ON books_ratings_link.rating = ratings.id WHERE books_ratings_link.book = books.id)"@ + " ASC"@ + " NULLS LAST"@);
    assert("ORDER BY (SELECT ratings.rating FROM books_ratings_link JOIN ratings ON books_ratings_link.rating = ratings.id WHERE books_ratings_link.book = books.id) DESC NULLS LAST"@ =~= "ORDER BY (SELECT ratings.rating FROM books_ratings_link JOIN ratings ON books_ratings_link.rating = ratings.id WHERE books_ratings_link.book = books.id)"@ + " DESC"@ + " NULLS LAST"@);
}

/// The query of one page of the book listing, ordered by `sort`.
pub fn books_query(sort: &str) -> (r: String)
    ensures
        r@ == books_query_text(sort@),
{
    let clause: &str = if str_eq(sort, "title_asc") {
        "ORDER BY books.sort ASC"
    } else if str_eq(sort, "title_desc") {
        "ORDER BY books.sort DESC"
    } else if str_eq(sort, "author_asc") {
        "ORDER BY (SELECT name FROM authors JOIN books_authors_link ON authors.id = books_authors_link.author WHERE books_authors_link.book = books.id LIMIT 1) ASC"
    } else if str_eq(sort, "author_desc") {
        "ORDER BY (SELECT name FROM authors JOIN books_authors_link ON authors.id = books_authors_link.author WHERE books_authors_link.book = books.id LIMIT 1) DESC"
    } else if str_eq(sort, "date_asc") {
        "ORDER BY books.timestamp ASC"
    } else if str_eq(sort, "date_desc") {
        "ORDER BY books.timestamp DESC"
    } else if str_eq(sort, "rating_asc") {
        "ORDER BY (SELECT ratings.rating FROM books_ratings_link JOIN ratings ON books_ratings_link.rating = ratings.id WHERE books_ratings_link.book = books.id) ASC NULLS LAST"
    } else if str_eq(sort, "rating_desc") {
        "ORDER BY (SELECT ratings.rating FROM books_ratings_link JOIN ratings ON books_ratings_link.rating = ratings.id WHERE books_ratings_link.book = books.id) DESC NULLS LAST"
    } else {
        "ORDER BY books.id"
    };
    let mut q = String::from_str("SELECT * FROM books ");
    push_str(&mut q, clause);
    push_str(&mut q, " LIMIT ? OFFSET ?");
    q
}

/// The read-only SQLite URL of a database file.
pub fn connection_url(db_path: &str) -> (r: String)
    ensures
        r@ == "sqlite://"@ + db_path@ + "?mode=ro"@,
{
    let mut u = String::from_str("sqlite://");
    push_str(&mut u, db_path);
    push_str(&mut u, "?mode=ro");
    u
}

/// The `LIKE` pattern of a search: the query between `%` wildcards.
pub fn search_pattern(query: &str) -> (r: String)
    ensures
        r@ == "%"@ + query@ + "%"@,
{
    let mut p = String::from_str("%");
    push_str(&mut p, query);
    push_str(&mut p, "%");
    p
}

/// The table holding the values of custom column `id`.
pub fn custom_column_table(id: i64) -> (r: String)
    ensures
        r@ == "custom_column_"@ + signed_decimal(id as int),
{
    let mut t = String::from_str("custom_column_");
    push_signed_decimal(&mut t, id);
    t
}

/// The query of a book's value in a custom column table.
pub fn custom_value_query(table: &str) -> (r: String)
    ensures
        r@ == "SELECT value FROM "@ + table@ + " WHERE book = ?"@,
{
    let mut q = String::from_str("SELECT value FROM ");
    push_str(&mut q, table);
    push_str(&mut q, " WHERE book = ?");
    q
}

// ---------------------------------------------------------------------------
// Custom column values
// ---------------------------------------------------------------------------

/// How the value of a custom column is read from its row.
#[derive(Debug, Clone, Copy, PartialEq, Eq, Structural)]
pub enum ValueKind {
    /// Read as text, kept as `CustomValue::Text`.
    Text,
    /// Read as an integer.
    Int,
    /// Read as a float.
    Float,
    /// Read as a boolean.
    Bool,
    /// Read as text, kept as `CustomValue::DateTime`.
    DateTime,
}

/// The kind of value that a Calibre column datatype is read as; `None` for
/// datatypes whose values are not read.
pub open spec fn kind_of_datatype(datatype: Seq<char>) -> Option<ValueKind> {
    if datatype == "text"@ || datatype == "comments"@ || datatype == "series"@ || datatype
        == "enumeration"@ {
        Some(ValueKind::Text)
    } else if datatype == "int"@ || datatype == "rating"@ {
        Some(ValueKind::Int)
    } else if datatype == "float"@ {
        Some(ValueKind::Float)
    } else if datatype == "bool"@ {
        Some(ValueKind::Bool)
    } else if datatype == "datetime"@ {
        Some(ValueKind::DateTime)
    } else {
        None
    }
}

/// The kind of value a column datatype is read as.
pub fn value_kind(datatype: &str) -> (r: Option<ValueKind>)
    ensures
        r == kind_of_datatype(datatype@),
{
    if str_eq(datatype, "text") || str_eq(datatype, "comments") || str_eq(datatype, "series")
        || str_eq(datatype, "enumeration") {
        Some(ValueKind::Text)
    } else if str_eq(datatype, "int") || str_eq(datatype, "rating") {
        Some(ValueKind::Int)
    } else if str_eq(datatype, "float") {
        Some(ValueKind::Float)
    } else if str_eq(datatype, "bool") {
        Some(ValueKind::Bool)
    } else if str_eq(datatype, "datetime") {
        Some(ValueKind::DateTime)
    } else {
        None
    }
}

/// What to look up for one custom column of a book.
#[derive(Debug, Clone)]
pub struct ColumnLookup {
    /// The column's label, the key of its value.
    pub label: String,
    /// The query of the book's value (the book id is bound).
    pub query: String,
    /// How the value is read; `None` when it is not.
    pub kind: Option<ValueKind>,
    /// Whether the book may have several values, one per row of the query
    /// (read as text and joined by `multi_value`).
    pub multiple: bool,
}

/// The link table between books and the values of a normalized column.
pub open spec fn link_table_name(id: int) -> Seq<char> {
    "books_custom_column_"@ + signed_decimal(id) + "_link"@
}

/// The query of a book's values in a normalized column: the values table
/// joined with its link table, in the order the links were made.
pub open spec fn normalized_query_text(id: int) -> Seq<char> {
    let t = "custom_column_"@ + signed_decimal(id);
    let l = link_table_name(id);
    "SELECT "@ + t + ".value FROM "@ + t + " JOIN "@ + l + " ON "@ + t + ".id = "@ + l
        + ".value WHERE "@ + l + ".book = ? ORDER BY "@ + l + ".id"@
}

/// The query of a book's value in a column that is not normalized: the
/// column's own table holds the book's value.
pub open spec fn plain_query_text(id: int) -> Seq<char> {
    "SELECT value FROM "@ + ("custom_column_"@ + signed_decimal(id)) + " WHERE book = ?"@
}

/// The query of a book's values in a normalized column with id `id`.
pub fn normalized_value_query(id: i64) -> (r: String)
    ensures
        r@ == normalized_query_text(id as int),
{
    let t = custom_column_table(id);
    let mut l = String::from_str("books_custom_column_");
    push_signed_decimal(&mut l, id);
    push_str(&mut l, "_link");
    let mut q = String::from_str("SELECT ");
    push_str(&mut q, t.as_str());
    push_str(&mut q, ".value FROM ");
    push_str(&mut q, t.as_str());
    push_str(&mut q, " JOIN ");
    push_str(&mut q, l.as_str());
    push_str(&mut q, " ON ");
    push_str(&mut q, t.as_str());
    push_str(&mut q, ".id = ");
    push_str(&mut q, l.as_str());
    push_str(&mut q, ".value WHERE ");
    push_str(&mut q, l.as_str());
    push_str(&mut q, ".book = ? ORDER BY ");
    push_str(&mut q, l.as_str());
    push_str(&mut q, ".id");
    proof {
        assert(q@ =~= normalized_query_text(id as int));
    }
    q
}

/// The view of a lookup: label, query, kind and whether several values
/// are read.
pub type LookupView = (Seq<char>, Seq<char>, Option<ValueKind>, bool);

/// The lookup of a column, as built from its definition: normalized
/// columns (whose values sit in a table of their own, linked to the books)
/// are read through their link table, the others from their own table.
pub open spec fn lookup_of(c: CustomColumn) -> LookupView {
    (
        c.label@,
        if c.normalized {
            normalized_query_text(c.id as int)
        } else {
            plain_query_text(c.id as int)
        },
        kind_of_datatype(c.datatype@),
        c.is_multiple,
    )
}

/// The lookups of the columns not marked for deletion, in order.
pub open spec fn lookups_of(cols: Seq<CustomColumn>) -> Seq<LookupView>
    decreases cols.len(),
{
    if cols.len() == 0 {
        Seq::empty()
    } else if cols.last().mark_for_delete {
        lookups_of(cols.drop_last())
    } else {
        lookups_of(cols.drop_last()).push(lookup_of(cols.last()))
    }
}

/// The views of a vector of lookups.
pub open spec fn lookup_views(v: Seq<ColumnLookup>) -> Seq<LookupView> {
    v.map_values(|l: ColumnLookup| (l.label@, l.query@, l.kind, l.multiple))
}

/// The lookups to make for a book's custom columns: one per column that is
/// not marked for deletion.
pub fn column_lookups(columns: &Vec<CustomColumn>) -> (r: Vec<ColumnLookup>)
    ensures
        lookup_views(r@) == lookups_of(columns@),
{
    let mut out: Vec<ColumnLookup> = Vec::new();
    let mut i: usize = 0;
    while i < columns.len()
        invariant
            i <= columns.len(),
            lookup_views(out@) == lookups_of(columns@.take(i as int)),
        decreases columns.len() - i,
    {
        let c = &columns[i];
        let ghost before = out@;
        if !c.mark_for_delete {
            let query = if c.normalized {
                normalized_value_query(c.id)
            } else {
                let table = custom_column_table(c.id);
                custom_value_query(table.as_str())
            };
            let kind = value_kind(c.datatype.as_str());
            out.push(ColumnLookup { label: c.label.clone(), query, kind, multiple: c.is_multiple });
            assert(lookup_views(out@) =~= lookup_views(before).push(lookup_of(*c)));
        }
        assert(columns@.take(i + 1).drop_last() =~= columns@.take(i as int));
        i = i + 1;
    }
    assert(columns@.take(columns.len() as int) =~= columns@);
    out
}

/// The values of a multi-valued column, joined by `", "`.
pub open spec fn joined_values(values: Seq<Seq<char>>) -> Seq<char>
    decreases values.len(),
{
    if values.len() == 0 {
        Seq::empty()
    } else if values.len() == 1 {
        values[0]
    } else {
        joined_values(values.drop_last()) + ", "@ + values.last()
    }
}

/// The value of a multi-valued column for a book, from the values read for
/// it: the values joined by `", "` as text, nothing when there is none.
pub fn multi_value(values: Vec<String>) -> (r: Option<CustomValue>)
    ensures
        values.len() == 0 ==> r is None,
        values.len() > 0 ==> (r matches Some(CustomValue::Text(t)) && t@ == joined_values(
            values@.map_values(|v: String| v@),
        )),
{
    let ghost views = values@.map_values(|v: String| v@);
    if values.len() == 0 {
        return None;
    }
    let mut out = String::new();
    let mut i: usize = 0;
    while i < values.len()
        invariant
            i <= values.len(),
            views == values@.map_values(|v: String| v@),
            out@ == joined_values(views.take(i as int)),
        decreases values.len() - i,
    {
        if i > 0 {
            push_str(&mut out, ", ");
        }
        push_str(&mut out, values[i].as_str());
        proof {
            assert(views.take(i + 1).drop_last() =~= views.take(i as int));
            if i == 0 {
                assert(out@ =~= views.take(1)[0]);
            }
        }
        i = i + 1;
    }
    assert(views.take(values.len() as int) =~= views);
    Some(CustomValue::Text(out))
}

/// The custom column values of a book: for each lookup whose value was
/// read, the value under the lookup's label, in order.
pub open spec fn assembled(
    labels: Seq<Seq<char>>,
    values: Seq<Option<CustomValue>>,
    n: int,
) -> Seq<(Seq<char>, CustomValue)>
    decreases n,
{
    if n <= 0 {
        Seq::empty()
    } else {
        match values[n - 1] {
            Some(v) => entries_insert(assembled(labels, values, n - 1), labels[n - 1], v),
            None => assembled(labels, values, n - 1),
        }
    }
}

/// The number of values that were read among the first `n`.
pub open spec fn count_read(values: Seq<Option<CustomValue>>, n: int) -> nat
    decreases n,
{
    if n <= 0 {
        0
    } else {
        count_read(values, n - 1) + if values[n - 1] is Some {
            1nat
        } else {
            0nat
        }
    }
}

/// With distinct labels, each value read is found under its own column's
/// label, a column whose value was not read has no entry, no other label
/// has one, and there is one entry per value read.
pub proof fn lemma_assembled_by_label(
    labels: Seq<Seq<char>>,
    values: Seq<Option<CustomValue>>,
    n: int,
)
    requires
        0 <= n <= labels.len(),
        n <= values.len(),
        labels.take(n).no_duplicates(),
    ensures
        forall|i: int|
            0 <= i < n ==> entries_lookup(assembled(labels, values, n), #[trigger] labels[i])
                == values[i],
        forall|l: Seq<char>|
            !labels.take(n).contains(l) ==> entries_lookup(assembled(labels, values, n), l) is None,
        assembled(labels, values, n).len() == count_read(values, n),
        entry_labels(assembled(labels, values, n)).no_duplicates(),
        forall|l: Seq<char>|
            entry_labels(assembled(labels, values, n)).contains(l) ==> labels.take(n).contains(l),
    decreases n,
{
    let a = assembled(labels, values, n);
    if n == 0 {
        assert(entry_labels(a) =~= Seq::<Seq<char>>::empty());
    } else {
        let prev = assembled(labels, values, n - 1);
        let lab = labels[n - 1];
        assert(labels.take(n - 1) =~= labels.take(n).drop_last());
        assert(labels.take(n)[n - 1] == lab);
        assert(labels.take(n - 1).no_duplicates()) by {
            assert forall|x: int, y: int|
                #![trigger labels.take(n - 1)[x], labels.take(n - 1)[y]]
                0 <= x < labels.take(n - 1).len() && 0 <= y < labels.take(n - 1).len() && x != y
                implies labels.take(n - 1)[x] != labels.take(n - 1)[y] by {
                assert(labels.take(n - 1)[x] == labels.take(n)[x]);
                assert(labels.take(n - 1)[y] == labels.take(n)[y]);
            }
        }
        lemma_assembled_by_label(labels, values, n - 1);
        assert(!labels.take(n - 1).contains(lab)) by {
            if labels.take(n - 1).contains(lab) {
                let x = labels.take(n - 1).index_of(lab);
                assert(labels.take(n)[x] == lab);
            }
        }
        assert(!entry_labels(prev).contains(lab));
        assert forall|l: Seq<char>| labels.take(n - 1).contains(l) implies labels.take(n).contains(l) by {
            let x = labels.take(n - 1).index_of(l);
            assert(labels.take(n)[x] == l);
        }
        match values[n - 1] {
            Some(v) => {
                assert(a == entries_insert(prev, lab, v));
                assert(entries_insert(prev, lab, v) == prev.push((lab, v)));
                assert(entry_labels(a) =~= entry_labels(prev).push(lab));
                assert forall|l: Seq<char>| #[trigger] entries_lookup(a, l) == (if l == lab {
                    Some(v)
                } else {
                    entries_lookup(prev, l)
                }) by {
                    lemma_lookup_after_insert(prev, lab, v, l);
                }
                assert forall|l: Seq<char>| entry_labels(a).contains(l) implies labels.take(n).contains(l) by {
                    let x = entry_labels(a).index_of(l);
                    if x == prev.len() {
                        assert(l == lab);
                    } else {
                        assert(entry_labels(prev)[x] == l);
                    }
                }
                assert forall|i: int| 0 <= i < n implies entries_lookup(a, #[trigger] labels[i])
                    == values[i] by {
                    if i < n - 1 {
                        assert(labels.take(n)[i] == labels[i]);
                        assert(labels[i] != lab);
                    }
                }
            },
            None => {
                assert(a == prev);
                assert forall|i: int| 0 <= i < n implies entries_lookup(a, #[trigger] labels[i])
                    == values[i] by {
                    if i == n - 1 {
                        assert(!labels.take(n - 1).contains(labels[i]));
                    }
                }
            },
        }
    }
}

/// Puts together the custom column values read for a book; `values[i]` is
/// what was read for `lookups[i]` (nothing when the column has no value for
/// the book or the read failed).
pub fn assemble_custom_columns(lookups: &Vec<ColumnLookup>, values: Vec<Option<CustomValue>>) -> (r:
    CustomColumns)
    requires
        values.len() == lookups.len(),
    ensures
        r@ == assembled(
            lookup_views(lookups@).map_values(|l: LookupView| l.0),
            values@,
            values.len() as int,
        ),
{
    let ghost labels = lookup_views(lookups@).map_values(|l: LookupView| l.0);
    let mut out = CustomColumns::new();
    let mut i: usize = 0;
    while i < values.len()
        invariant
            i <= values.len(),
            values.len() == lookups.len(),
            labels == lookup_views(lookups@).map_values(|l: LookupView| l.0),
            out@ == assembled(labels, values@, i as int),
        decreases values.len() - i,
    {
        match &values[i] {
            Some(v) => {
                assert(labels[i as int] == lookups@[i as int].label@);
                out.insert(lookups[i].label.clone(), v.clone());
            },
            None => {},
        }
        i = i + 1;
    }
    out
}

// ---------------------------------------------------------------------------
// Listings
// ---------------------------------------------------------------------------

/// The successful results, in order.
pub open spec fn ok_values<T, E>(s: Seq<Result<T, E>>) -> Seq<T>
    decreases s.len(),
{
    if s.len() == 0 {
        Seq::empty()
    } else {
        match s.last() {
            Ok(v) => ok_values(s.drop_last()).push(v),
            Err(_) => ok_values(s.drop_last()),
        }
    }
}

/// The books whose metadata could be loaded, in order; the others are left
/// out of the listing.
pub fn keep_loaded<E>(results: Vec<Result<BookMetadata, E>>) -> (r: Vec<BookMetadata>)
    ensures
        r@ == ok_values(results@),
{
    let ghost all = results@;
    let mut out: Vec<BookMetadata> = Vec::new();
    for res in iter: results.into_iter()
        invariant
            iter.seq() == all,
            out@ == ok_values(all.take(iter.index())),
    {
        assert(all.take(iter.index() + 1).drop_last() =~= all.take(iter.index()));
        match res {
            Ok(m) => out.push(m),
            Err(_) => {},
        }
    }
    assert(all.take(all.len() as int) =~= all);
    out
}

/// No listing has more books than results.
pub proof fn lemma_ok_values_len<T, E>(s: Seq<Result<T, E>>)
    ensures
        ok_values(s).len() <= s.len(),
    decreases s.len(),
{
    if s.len() > 0 {
        lemma_ok_values_len(s.drop_last());
    }
}

/// The category of the books counted under one year: named by the year's
/// text and identified by its number, 0 when the text is not a number.
pub fn year_category(year: String, count: i64) -> (r: Category)
    ensures
        r.name@ == year@,
        r.count == count,
        r.id == match parsed_i64(year@) {
            Some(v) => v,
            None => 0,
        },
{
    let id = match parse_i64(year.as_str()) {
        Some(v) => v,
        None => 0,
    };
    Category { id, name: year, count }
}

} // verus!
